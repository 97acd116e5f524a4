//! The errors that Recall reports.
use vstd::prelude::*;

verus! {

/// `rusqlite::Error`, carried through unchanged inside [`RecallErrors::Database`].
#[verifier::external_type_specification]
#[verifier::external_body]
pub struct ExSqliteError(rusqlite::Error);

/// `std::io::Error`, carried through unchanged inside [`RecallErrors::Io`].
#[verifier::external_type_specification]
#[verifier::external_body]
pub struct ExIoError(std::io::Error);

/// `serde_json::Error`, carried through unchanged inside [`RecallErrors::Json`].
#[verifier::external_type_specification]
#[verifier::external_body]
pub struct ExJsonError(serde_json::Error);

/// `csv::Error`, carried through unchanged inside [`RecallErrors::Csv`].
#[verifier::external_type_specification]
#[verifier::external_body]
pub struct ExCsvError(csv::Error);

/// Everything that can go wrong in Recall.
#[derive(Debug)]
pub enum RecallErrors {
    /// The database could not be opened, migrated, read or written.
    Database(rusqlite::Error),
    /// A file or the terminal could not be written.
    Io(std::io::Error),
    /// Commands could not be serialised as JSON.
    Json(serde_json::Error),
    /// Commands could not be written as CSV.
    Csv(csv::Error),
    /// The home directory cannot be determined.
    NoHomeDir,
    /// Neither `$SHELL` nor `$PSModulePath` identified a supported shell.
    UnknownShell,
    /// The hook block is already present in the named config file.
    HookAlreadyInstalled(String),
    /// A shell config file could not be read.
    ShellConfigRead { path: String, reason: String },
    /// A shell config file (or its backup) could not be written.
    ShellConfigWrite { path: String, reason: String, backup: String },
    /// A date argument could not be understood.
    InvalidDate { input: String },
    /// `--all` was combined with `--from` or `--to`.
    ConflictingCleanFlags,
    /// An export format other than `json`, `csv` or `text` was requested.
    InvalidFormat { input: String },
}

} // verus!
