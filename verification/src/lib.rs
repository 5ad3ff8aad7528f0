//! Rename EPUB files from their embedded metadata, and enrich that metadata from an online
//! catalogue. This crate holds the verified logic: metadata normalisation, filename
//! templating, path handling and scanning decisions, catalogue queries and records, the
//! enrichment and rename decisions, and the `ebook-meta` command line.

pub mod conflict;
pub mod enrich;
pub mod error;
pub mod matcher;
pub mod metadata;
pub mod order;
pub mod paths;
pub mod provider;
pub mod rename;
pub mod scanner;
pub mod text;
pub mod writer;

pub use enrich::{enrich_step, EnrichAction, EnrichEvent, EnrichStatus};
pub use error::{EruError, Result};
pub use metadata::{metadata_from_fields, to_lastname_first, EpubMetadata};
pub use provider::{BookRecord, OlDoc};
pub use rename::{create_rename_action, generate_filename, RenameAction, RenameOptions};
pub use scanner::{is_epub, scan_path};
pub use writer::WriteConfig;
