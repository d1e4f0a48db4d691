//! A client library for a local LLM chat backend: wire types, URL and
//! error handling for the HTTP API, and the sandboxed workspace tools
//! (path resolution, search, diff preview) that an agent runs against a
//! user-chosen directory.
use vstd::prelude::*;

pub mod client;
pub mod diff;
pub mod error;
pub mod http;
pub mod paths;
pub mod repl;
pub mod search;
pub mod text;
pub mod tools;
pub mod wire;
pub mod workspace;

verus! {

} // verus!
