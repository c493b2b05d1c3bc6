//! Content-defined chunking (FastCDC 2020) over a pool of fixed-size buffers.
//!
//! `cdc` holds the cut-point algorithm, `chunks` what it makes of a whole source, `chunker`
//! the streaming cutter built on it, and `memory` the buffer pool whose handles the cutter
//! reads into and emits.
pub mod cdc;
pub mod chunker;
pub mod chunks;
pub mod config;
pub mod consts;
pub mod memory;
pub mod occupancy;
pub mod row_id;
