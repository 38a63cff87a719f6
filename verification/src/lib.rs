//! Range planning and stream assembly for reading a virtual concatenation of
//! files out of a remote object store, one bounded buffer at a time.
//!
//! The crate holds the decisions only: which byte ranges of which objects to
//! request, how a response body is cut into sub-chunks, and in which order
//! everything is handed to the consumer. Network traffic is left to the
//! caller, who drives the state machines defined here.
//!
//! - [`manifest`]: the files that make up the virtual concatenation.
//! - [`planner`]: from manifest, logical byte range and chunk size to the
//!   ranged reads to make; [`coverage`] proves what those reads cover.
//! - [`header`]: the text of a ranged read.
//! - [`chunk`]: the byte buffers that go in and out.
//! - [`reader`]: re-chunking of one response body.
//! - [`assembler`]: the walk over the plan; [`delivery`] and [`window`]
//!   prove what a run of it yields.

pub mod assembler;
pub mod chunk;
pub mod coverage;
pub mod delivery;
pub mod header;
pub mod manifest;
pub mod planner;
pub mod reader;
pub mod window;
