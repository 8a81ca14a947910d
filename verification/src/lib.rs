//! Core of a timeline profile viewer: interval arithmetic, the profile data
//! model, tile selection for a pannable/zoomable viewport, deferred data
//! source wrappers (queueing, request counting, LRU caching), text search
//! over item metadata, and the schema logic of the columnar export.

pub mod codec;
pub mod data;
pub mod deferred_data;
pub mod export;
pub mod file_data;
pub mod lru;
pub mod map;
pub mod search;
pub mod strip_data;
pub mod text;
pub mod tile_manager;
pub mod timestamp;
pub mod view;
