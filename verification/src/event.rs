//! The notification payload republished by the event-forwarding service:
//! the encoded topics of an emitted event and its encoded data.

use vstd::prelude::*;

verus! {

/// A forwarded event body.
pub struct Body {
    pub topics: Vec<String>,
    pub data: String,
}

impl Body {
    pub fn new(topics: Vec<String>, data: String) -> (r: Body)
        ensures
            r.topics@ == topics@,
            r.data@ == data@,
    {
        Body { topics: topics, data: data }
    }
}

} // verus!
