//! `exportbranch` filters, copies and converts files from a Harbour source
//! tree before they are handed to the `Compex` compiler.
//!
//! The library holds the decisions and the data formats, each with its
//! contract:
//! - [`convertions`] / [`convert_file`]: the CP850 → ASCII conversion engine,
//!   for whole buffers and for input that arrives in chunks;
//! - [`configuration`]: the configuration derived from the command line;
//! - [`export_branch_files`]: glob → regex compilation and the per-source
//!   override files;
//! - [`file_checker`]: the per-file modification-time tracker and its file
//!   format;
//! - [`export`] / [`export_branch`]: per-file outcomes, counts and the
//!   recording of an export;
//! - [`passes`]: the conversion as one full pass per substitution, and the
//!   proof that the single pass gives the same bytes;
//! - [`layout`], [`report`], [`debug_log`]: destination layout, printed lines
//!   and the debug log's name;
//! - [`error`]: typed errors with attached file paths.

pub mod configuration;
pub mod convert_file;
pub mod convertions;
pub mod debug_log;
pub mod error;
pub mod export;
pub mod export_branch;
pub mod export_branch_files;
pub mod file_checker;
pub mod layout;
pub mod passes;
pub mod report;
pub mod text;

pub use error::{ExportError, Result, WithPath};
