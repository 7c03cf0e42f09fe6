//! Host-side logic for sensors that speak the TIO protocol.
//!
//! Sensors form a tree. Each sensor is reached by a route, sends streams of
//! samples with metadata that describes them, and takes remote procedure
//! calls. This library holds what a host decides and computes when it talks to
//! such a tree:
//!
//! - [`route`]: routes through the tree, as values and as text.
//! - [`transport`]: the addresses that name a link to the tree.
//! - [`payload`] and [`packet`]: what packets carry and how they are framed in
//!   bytes; [`wire`] has the integers and texts that the layouts are made of.
//! - [`proxy`]: sharing one link among many ports, with the routing of RPC
//!   replies to the port that asked.
//! - [`rpc`]: arguments and results of RPCs, what a device says of its
//!   methods, and fetching lists and dumps page by page.
//! - [`meta`], [`sample`] and [`parser`]: metadata, samples, and making the
//!   one from the other and stream data.
//! - [`filter`]: selecting columns by glob patterns.
//! - [`export`]: batching samples into runs and groups of a columnar file;
//!   [`ledger`] accounts for every sample that an export takes in.
//! - [`firmware`]: uploading firmware in acknowledged chunks.
//! - [`cli`] and [`tool`]: the options of the command-line tools and what the
//!   tools decide.
//! - [`text`] and [`seqs`]: characters, decimal numbers and searching.
//!
//! Nothing here reads or writes: where a device, a file or a clock comes in,
//! the library says what is to be done and takes in what came of it.

pub mod cli;
pub mod export;
pub mod filter;
pub mod firmware;
pub mod ledger;
pub mod meta;
pub mod packet;
pub mod parser;
pub mod payload;
pub mod proxy;
pub mod route;
pub mod rpc;
pub mod sample;
pub mod seqs;
pub mod text;
pub mod tool;
pub mod transport;
pub mod wire;
