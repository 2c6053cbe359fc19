//! Verified storage core of a local document-editing application.
//!
//! The library owns document records, derived semantic annotations,
//! terminology rules, and a content-addressed analysis cache, and it keeps an
//! in-memory document cache coherent with the authoritative store. A host
//! shell supplies the surrounding I/O: it reads and writes files, mirrors the
//! store to durable storage, and hands the results back as plain values.

pub mod clock;
pub mod database;
pub mod file_handler;
pub mod ids;
pub mod storage;
pub mod table;
pub mod text;

use vstd::prelude::*;

verus! {

} // verus!
