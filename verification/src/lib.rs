//! Calendar-feed ingestion core: normalization, deterministic event identity,
//! retention filtering, idempotent persistence semantics, and enrichment
//! decisions, all with verified contracts.

pub mod enrich;
pub mod errors;
pub mod event;
pub mod feed;
pub mod numfmt;
pub mod order;
pub mod store;
pub mod text;
pub mod time;
