//! Verified core of the PiDF desktop PDF reader: request normalisation,
//! cache keys, the in-memory LRU page cache, render batching, disk-cache
//! pruning decisions and the session tables of the PDF workers.

pub mod normalize;
pub mod config;
pub mod loading;
pub mod text;
pub mod decimal;
pub mod keys;
pub mod entries;
pub mod page_cache;
pub mod table;
pub mod ordering;
pub mod scheduling;
pub mod disk_cache;
pub mod sessions;
pub mod trace;
