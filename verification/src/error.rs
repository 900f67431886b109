//! Typed errors raised by `exportbranch`, each with the file path that
//! caused it where there is one.

use vstd::prelude::*;

verus! {

/// `std::io::Error`, carried through as the cause of an I/O failure.
#[verifier::external_type_specification]
#[verifier::external_body]
pub struct ExIoError(std::io::Error);

/// `regex::Error`, carried through as the cause of an invalid glob.
#[verifier::external_type_specification]
#[verifier::external_body]
pub struct ExRegexError(regex::Error);

/// All recoverable errors raised by `exportbranch`.
///
/// The caller matches on the variant to choose a process exit code; see
/// [`ExportError::exit_code`].
#[derive(Debug)]
pub enum ExportError {
    /// Reading or writing `path` failed.
    Io { path: String, source: std::io::Error },
    /// The command line names no source or no destination.
    InvalidArgs(String),
    /// The globs, joined in `pattern`, do not compile into a regex set.
    InvalidGlob { pattern: String, source: regex::Error },
    /// A directory met during the walk has no file name.
    MissingFileName(String),
    /// The modification time of `path` could not be read.
    Metadata { path: String, source: std::io::Error },
    /// Source path lacks a Windows drive prefix, so the destination layout
    /// cannot be derived.
    MissingDrivePrefix(String),
}

/// `Result` defaulting to [`ExportError`].
pub type Result<T> = core::result::Result<T, ExportError>;

/// `text` is a rendering of `value` by its `Display` implementation.
pub open spec fn displays_as<T: core::fmt::Display>(value: &T, text: Seq<char>) -> bool {
    exists|s: String| #[trigger] vstd::string::to_string_from_display_ensures::<T>(value, s) && s@ == text
}

impl ExportError {
    /// Process exit code conventionally associated with this error:
    /// 2 for invalid arguments, 3 for metadata failures, 1 otherwise.
    pub fn exit_code(&self) -> (code: i32)
        ensures
            code == match self {
                ExportError::InvalidArgs(_) => 2i32,
                ExportError::Metadata { .. } => 3i32,
                _ => 1i32,
            },
    {
        match self {
            ExportError::InvalidArgs(_) => 2,
            ExportError::Metadata { .. } => 3,
            _ => 1,
        }
    }

    /// The human-readable description of the error.
    pub fn message(&self) -> (m: String)
        ensures
            match self {
                ExportError::Io { path, source } => exists|t: Seq<char>|
                    displays_as(source, t) && m@ == "I/O error on "@ + path@ + ": "@ + t,
                ExportError::InvalidArgs(msg) => m@ == msg@,
                ExportError::InvalidGlob { pattern, source } => exists|t: Seq<char>|
                    displays_as(source, t) && m@ == "invalid glob pattern `"@ + pattern@ + "`: "@
                        + t,
                ExportError::MissingFileName(path) => m@ == "path has no file name component: "@
                    + path@,
                ExportError::Metadata { path, source } => exists|t: Seq<char>|
                    displays_as(source, t) && m@ == "failed to read metadata for "@ + path@ + ": "@
                        + t,
                ExportError::MissingDrivePrefix(path) => m@
                    == "source path has no drive prefix (e.g. `C:\\`): "@ + path@,
            },
    {
        match self {
            ExportError::Io { path, source } => {
                let text = source.to_string();
                let mut m = String::from_str("I/O error on ");
                m.append(path.as_str());
                m.append(": ");
                m.append(text.as_str());
                assert(displays_as(source, text@));
                m
            },
            ExportError::InvalidArgs(msg) => msg.clone(),
            ExportError::InvalidGlob { pattern, source } => {
                let text = source.to_string();
                let mut m = String::from_str("invalid glob pattern `");
                m.append(pattern.as_str());
                m.append("`: ");
                m.append(text.as_str());
                assert(displays_as(source, text@));
                m
            },
            ExportError::MissingFileName(path) => {
                let mut m = String::from_str("path has no file name component: ");
                m.append(path.as_str());
                m
            },
            ExportError::Metadata { path, source } => {
                let text = source.to_string();
                let mut m = String::from_str("failed to read metadata for ");
                m.append(path.as_str());
                m.append(": ");
                m.append(text.as_str());
                assert(displays_as(source, text@));
                m
            },
            ExportError::MissingDrivePrefix(path) => {
                let mut m = String::from_str("source path has no drive prefix (e.g. `C:\\`): ");
                m.append(path.as_str());
                m
            },
        }
    }
}

/// Turns an I/O failure into an [`ExportError::Io`] that names the file
/// path responsible for it.
pub trait WithPath<T>: Sized {
    /// Attaches `path` to a failed I/O result.
    fn with_path(self, path: &str) -> Result<T>;
}

impl<T> WithPath<T> for core::result::Result<T, std::io::Error> {
    fn with_path(self, path: &str) -> (r: Result<T>)
        ensures
            match self {
                Ok(v) => r matches Ok(w) && w == v,
                Err(e) => r matches Err(ExportError::Io { path: p, source }) && p@ == path@
                    && source == e,
            },
    {
        match self {
            Ok(v) => Ok(v),
            Err(source) => Err(ExportError::Io { path: String::from_str(path), source }),
        }
    }
}

} // verus!
