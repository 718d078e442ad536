//! The map tiles and the layer catalog of the Geospatial Information
//! Authority of Japan: the URLs of tiles, the kinds and the text form of
//! elevation tiles, the tree of layers and groups that a catalog document
//! holds, and the crawl that merges such documents into one index of layers.
//!
//! Nothing here reaches the network or decodes an image. A caller fetches
//! what [`tile`] or [`crawl`] names and hands the text, the decoded image or the
//! document back.

pub mod cache;
pub mod constant;
pub mod crawl;
pub mod error;
pub mod http;
pub mod layers;
pub mod text;
pub mod tile;
