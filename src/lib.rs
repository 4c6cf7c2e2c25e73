//! Parsing, splitting and batching of SD (structure-data) files for a
//! bulk-copy loader.
pub mod sd_batch_uploader;
pub mod sd_import;
pub mod sd_parser;

pub use sd_batch_uploader::SdBatchUploader;
pub use sd_import::{import, load_records, CompletionToken, DriverAction, ImportJob, LoadDriver};
pub use sd_parser::{ParseError, PropertyEntry, SdItem, SdParser, TypedValue};
