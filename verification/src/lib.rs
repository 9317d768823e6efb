//! A marketplace/registry engine for two kinds of assets: colors (24-bit
//! integers) and glyphs (pixel-art images deduplicated by a content hash),
//! with sorted offer books, atomic glyph/asset swaps, and proportional
//! royalty distribution to color owners and glyph authors.
//!
//! The engine is a pure state machine: principals, assets and identifiers
//! are plain integers, and every operation that moves real funds returns a
//! `Transfer` instruction for the surrounding host to execute. Caller
//! authorization and the actual movement of funds are the host's duty.

pub mod contract;
pub mod error;
pub mod event;
pub mod glyph;
pub mod offer;
pub mod royalty;
pub mod store;

pub use contract::Contract;
pub use contract::Transfer;
pub use error::Error;
pub use event::Body;
pub use glyph::Glyph;
pub use offer::OfferBuy;
pub use offer::OfferSellAsset;
pub use offer::OfferSellAssetGet;
