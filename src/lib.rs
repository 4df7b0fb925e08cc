//! A small static file server's core: an HTTP/1.1 request parser and response
//! encoder working on bytes, a traversal guard for request paths, content-type
//! lookup, and the decisions taken on each connection.
use vstd::prelude::*;

pub mod data;
pub mod files;
pub mod handler;
pub mod headers;
pub mod message;
mod text;

verus! {

} // verus!
