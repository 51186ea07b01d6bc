//! Chain indexer core: detects launch/mint events in block data and keeps
//! them as a deduplicated ledger of launch records.

pub mod text;
pub mod record;
pub mod sync;
pub mod chain;
pub mod logs;
pub mod transfer;
pub mod queue;
pub mod invite;
pub mod config;
pub mod tables;
pub mod api;
pub mod bind;
pub mod extractor;
