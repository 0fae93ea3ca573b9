//! Error values of search, replace and workspace operations.
//!
//! Paths are carried as text; errors raised by the operating system are
//! carried as their message.
use vstd::prelude::*;

use crate::text::{chars_of, concat_text, starts_with_chars, starts_with_seq, string_from_range};

verus! {

/// Errors that can occur during search operations.
#[derive(Debug, Clone, PartialEq, Eq)]
pub enum SearchError {
    FileNotFound(String),
    PermissionDenied(String),
    InvalidPattern(String),
    CacheError(String),
    CacheVersionMismatch { cache_version: String, current_version: String },
    ConfigError(String),
    IoError(String),
    JsonError(String),
    EncodingError { path: String, message: String },
}

/// Result type for search operations.
pub type SearchResult<T> = Result<T, SearchError>;

/// The UNC prefix `\\?\` that Windows puts before verbatim paths.
pub open spec fn unc_prefix() -> Seq<char> {
    seq!['\\', '\\', '?', '\\']
}

/// A path with the UNC prefix removed when present.
pub open spec fn unified(p: Seq<char>) -> Seq<char> {
    if starts_with_seq(p, unc_prefix()) {
        p.skip(4)
    } else {
        p
    }
}

/// Strips the Windows UNC prefix (`\\?\`) from a path if present.
pub fn strip_unc_prefix(p: &str) -> (r: String)
    ensures
        r@ == unified(p@),
{
    let cs = chars_of(p);
    let prefix = vec!['\\', '\\', '?', '\\'];
    assert(prefix@ =~= unc_prefix());
    if starts_with_chars(&cs, &prefix) {
        let n = cs.len();
        let r = string_from_range(&cs, 4, n);
        assert(cs@.subrange(4, n as int) =~= cs@.skip(4));
        r
    } else {
        string_from_range(&cs, 0, cs.len())
    }
}

/// Makes a (canonicalized) path comparable across platforms by stripping
/// the UNC prefix.
pub fn unify_path(canonical: &str) -> (r: String)
    ensures
        r@ == unified(canonical@),
{
    let r = strip_unc_prefix(canonical);
    r
}

/// Unifying a unified path changes nothing, unless the path carried the
/// UNC prefix twice; a path without the prefix is already unified.
pub proof fn lemma_unified_idempotent(p: Seq<char>)
    requires
        !starts_with_seq(unified(p), unc_prefix()),
    ensures
        unified(unified(p)) == unified(p),
        !starts_with_seq(p, unc_prefix()) ==> unified(p) == p,
{
}

/// The message of an error, as it is displayed.
pub open spec fn error_message(e: SearchError) -> Seq<char> {
    match e {
        SearchError::FileNotFound(p) => "File not found: "@ + p@,
        SearchError::PermissionDenied(p) => "Permission denied: "@ + p@,
        SearchError::InvalidPattern(m) => "Invalid pattern: "@ + m@,
        SearchError::CacheError(m) => "Cache error: "@ + m@,
        SearchError::CacheVersionMismatch { cache_version, current_version } => "Cache version mismatch: expected "@
            + current_version@ + ", found "@ + cache_version@,
        SearchError::ConfigError(m) => "Configuration error: "@ + m@,
        SearchError::IoError(m) => "IO error: "@ + m@,
        SearchError::JsonError(m) => "JSON error: "@ + m@,
        SearchError::EncodingError { path, message } => "Invalid UTF-8 in file "@ + path@ + ": "@
            + message@,
    }
}

impl SearchError {
    pub fn file_not_found(path: String) -> (e: Self)
        ensures
            e == SearchError::FileNotFound(path),
    {
        SearchError::FileNotFound(path)
    }

    pub fn permission_denied(path: String) -> (e: Self)
        ensures
            e == SearchError::PermissionDenied(path),
    {
        SearchError::PermissionDenied(path)
    }

    pub fn invalid_pattern(pattern: String) -> (e: Self)
        ensures
            e == SearchError::InvalidPattern(pattern),
    {
        SearchError::InvalidPattern(pattern)
    }

    pub fn cache_error(msg: String) -> (e: Self)
        ensures
            e == SearchError::CacheError(msg),
    {
        SearchError::CacheError(msg)
    }

    pub fn cache_version_mismatch(cache_version: String, current_version: String) -> (e: Self)
        ensures
            e == (SearchError::CacheVersionMismatch { cache_version, current_version }),
    {
        SearchError::CacheVersionMismatch { cache_version, current_version }
    }

    pub fn config_error(msg: String) -> (e: Self)
        ensures
            e == SearchError::ConfigError(msg),
    {
        SearchError::ConfigError(msg)
    }

    /// An encoding error for the file at `path` (already canonicalized),
    /// with the decoder's message; the path is unified.
    pub fn encoding_error(path: String, message: String) -> (e: Self)
        ensures
            e matches SearchError::EncodingError { path: p, message: m } && p@ == unified(path@)
                && m == message,
    {
        let unified_path = unify_path(path.as_str());
        SearchError::EncodingError { path: unified_path, message }
    }

    /// The message of this error, as it is displayed.
    pub fn message(&self) -> (r: String)
        ensures
            r@ == error_message(*self),
    {
        match self {
            SearchError::FileNotFound(p) => concat_text("File not found: ", p.as_str()),
            SearchError::PermissionDenied(p) => concat_text("Permission denied: ", p.as_str()),
            SearchError::InvalidPattern(m) => concat_text("Invalid pattern: ", m.as_str()),
            SearchError::CacheError(m) => concat_text("Cache error: ", m.as_str()),
            SearchError::CacheVersionMismatch { cache_version, current_version } => {
                let a = concat_text("Cache version mismatch: expected ", current_version.as_str());
                let b = concat_text(a.as_str(), ", found ");
                concat_text(b.as_str(), cache_version.as_str())
            },
            SearchError::ConfigError(m) => concat_text("Configuration error: ", m.as_str()),
            SearchError::IoError(m) => concat_text("IO error: ", m.as_str()),
            SearchError::JsonError(m) => concat_text("JSON error: ", m.as_str()),
            SearchError::EncodingError { path, message } => {
                let a = concat_text("Invalid UTF-8 in file ", path.as_str());
                let b = concat_text(a.as_str(), ": ");
                concat_text(b.as_str(), message.as_str())
            },
        }
    }
}

} // verus!
