//! The library's error type.
use vstd::prelude::*;

verus! {

/// What can go wrong in checking documentation against a change.
#[derive(Debug, Clone, PartialEq, Eq)]
pub enum DriftcheckError {
    ConfigNotFound,
    ConfigInvalid(String),
    ConfigRead(String),
    ConfigParse(String),
    NotGitRepo,
    GitError(String),
    NoUpstream,
    RipgrepNotFound,
    SearchError(String),
    LlmError(String),
    LlmTimeout(u64),
    ApiKeyNotFound,
    LlmResponseParse(String),
    CacheError(String),
    HookInstallError(String),
    FixApplicationError { path: String, reason: String },
    TuiError(String),
    Disabled,
}

} // verus!
