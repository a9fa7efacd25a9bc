//! Detects documentation that a code change has left out of date: diff
//! parsing, search-output parsing and chunk merging, the context budget, the
//! query cache's rules, model-response framing and the interactive review
//! state machine.
pub mod analyzer;
pub mod cache;
pub mod cli;
pub mod config;
pub mod error;
pub mod fix;
pub mod git;
pub mod llm;
pub mod output;
pub mod review;
pub mod search;
pub mod text;
