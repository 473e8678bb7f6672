//! A verified model of the host side of an edge-compute WebAssembly runtime.
//!
//! The library implements the host-call surface that a guest module sees:
//! little-endian marshalling into guest linear memory, per-request session
//! tables addressed by integer handles, cursor-driven header enumeration,
//! dictionary and log-endpoint lookup, and the bookkeeping around backend
//! dispatch. An embedder supplies the pieces the library deliberately leaves
//! outside: the wasm engine, network I/O, and clocks.

pub mod backend;
pub mod bytelex;
pub mod cursor;
pub mod dictionary;
pub mod fastly_dictionary;
pub mod fastly_http_body;
pub mod fastly_http_req;
pub mod fastly_http_resp;
pub mod fastly_log;
pub mod fastly_uap;
pub mod headers;
pub mod http;
pub mod memory;
pub mod opts;
pub mod parse;
pub mod session;
pub mod status;

pub use status::Trap;
