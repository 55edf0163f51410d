//! The closed set of coordinator errors and their boundary status codes.

use vstd::prelude::*;

verus! {

/// Everything that can go wrong in the coordinator.
///
/// Request-level errors (`InvalidQuery`, `InvalidLimit`) and registry
/// mutation errors (`ModuleNotFound`, `ModuleAlreadyLoaded`, `OpenFailed`,
/// `ReloadFailed`) are surfaced to the caller.  The module-scoped errors
/// (`QueryParseFailed`, `EngineSearchFailed`) never fail a whole search:
/// the affected module simply contributes zero results.
#[derive(Clone, Copy, PartialEq, Eq, Structural, Debug)]
pub enum SearchError {
    InvalidQuery,
    InvalidLimit,
    ModuleNotFound,
    ModuleAlreadyLoaded,
    OpenFailed,
    ReloadFailed,
    QueryParseFailed,
    EngineSearchFailed,
}

/// The status code reported for an error at the caller boundary.
/// Zero is reserved for success, so every error maps to a positive code.
pub open spec fn spec_status_code(e: SearchError) -> i32 {
    match e {
        SearchError::InvalidQuery => 1,
        SearchError::InvalidLimit => 2,
        SearchError::ModuleNotFound => 3,
        SearchError::ModuleAlreadyLoaded => 4,
        SearchError::OpenFailed => 5,
        SearchError::ReloadFailed => 6,
        SearchError::QueryParseFailed => 7,
        SearchError::EngineSearchFailed => 8,
    }
}

impl SearchError {
    /// The numeric status code for this error; never the success code zero.
    pub fn status_code(&self) -> (c: i32)
        ensures
            c == spec_status_code(*self),
            c != 0,
    {
        match self {
            SearchError::InvalidQuery => 1,
            SearchError::InvalidLimit => 2,
            SearchError::ModuleNotFound => 3,
            SearchError::ModuleAlreadyLoaded => 4,
            SearchError::OpenFailed => 5,
            SearchError::ReloadFailed => 6,
            SearchError::QueryParseFailed => 7,
            SearchError::EngineSearchFailed => 8,
        }
    }

    /// A human-readable description of this error.
    pub fn message(&self) -> (m: &'static str)
        ensures
            m@ == spec_message(*self),
    {
        match self {
            SearchError::InvalidQuery => "query text is empty",
            SearchError::InvalidLimit => "result limit must be positive",
            SearchError::ModuleNotFound => "module not found",
            SearchError::ModuleAlreadyLoaded => "module already loaded",
            SearchError::OpenFailed => "failed to open index",
            SearchError::ReloadFailed => "failed to reload index",
            SearchError::QueryParseFailed => "failed to parse search query",
            SearchError::EngineSearchFailed => "search engine error",
        }
    }
}

/// The text returned by [`SearchError::message`].
pub open spec fn spec_message(e: SearchError) -> Seq<char> {
    match e {
        SearchError::InvalidQuery => "query text is empty"@,
        SearchError::InvalidLimit => "result limit must be positive"@,
        SearchError::ModuleNotFound => "module not found"@,
        SearchError::ModuleAlreadyLoaded => "module already loaded"@,
        SearchError::OpenFailed => "failed to open index"@,
        SearchError::ReloadFailed => "failed to reload index"@,
        SearchError::QueryParseFailed => "failed to parse search query"@,
        SearchError::EngineSearchFailed => "search engine error"@,
    }
}

} // verus!
