//! Core of a sentence-collecting kiosk: language identifiers, a key/value
//! settings store, a rotating record log and the remote-control dispatcher.

mod text;
pub mod json;
pub mod languages;
pub mod store;
pub mod record_log;
pub mod control;
pub mod ingest;

pub use languages::Languages;
