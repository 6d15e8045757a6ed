//! The offline audio store, the stream tape and the visualiser wire of a music daemon.
pub mod backoff;
pub mod books;
pub mod budget;
pub mod commit;
pub mod config;
pub mod entries;
pub mod eviction_laws;
pub mod expand;
pub mod fetch_laws;
pub mod frontier;
pub mod frontier_laws;
pub mod index;
pub mod line_laws;
pub mod mark_laws;
pub mod memo;
pub mod model;
pub mod names;
pub mod paths;
pub mod pins;
pub mod plan;
pub mod plan_laws;
pub mod planner;
pub mod reconcile;
pub mod removal;
pub mod scan;
pub mod scan_laws;
pub mod score;
pub mod score_laws;
pub mod segment;
pub mod segment_laws;
pub mod settle_laws;
pub mod sidecar;
pub mod sorting;
pub mod stamp;
pub mod star_laws;
pub mod status;
pub mod status_laws;
pub mod store;
pub mod store_laws;
pub mod sweep;
pub mod sweep_laws;
pub mod tape;
pub mod text;
pub mod text_laws;
pub mod time;
pub mod time_laws;
pub mod transfer;
pub mod verdict_laws;
pub mod victim_laws;
pub mod viz;
