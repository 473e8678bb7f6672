//! Status codes of the host-call ABI and the trap conditions a host call can
//! raise instead of returning a status.

use vstd::prelude::*;

verus! {

/// Success.
pub const OK: i32 = 0;

/// Generic error value; means the call failed for some unspecified reason.
pub const ERROR: i32 = 1;

/// An argument was invalid, for example an unknown dictionary name.
pub const INVAL: i32 = 2;

/// A handle was out of range or its slot was already consumed.
pub const BADF: i32 = 3;

/// A method, URI, status code or version did not parse.
pub const HTTPPARSE: i32 = 8;

/// The call, or the requested mode of it, is not implemented.
pub const UNSUPPORTED: i32 = 10;

/// A condition that terminates guest execution abruptly instead of being
/// reported through a status code: the guest violated a precondition that the
/// ABI cannot express as a return value.
#[derive(Clone, Copy, PartialEq, Eq, Structural, Debug)]
pub enum Trap {
    /// A read from guest memory was out of range.
    MemoryRead,
    /// A write into guest memory was out of range.
    MemoryWrite,
    /// Bytes that must be UTF-8 were not.
    InvalidUtf8,
    /// Bytes that must form a header name were not a valid header name.
    InvalidHeaderName,
    /// Bytes that must form a header value were not a valid header value.
    InvalidHeaderValue,
    /// A version code passed to a `version_set` call was unknown.
    InvalidVersion,
    /// The downstream request was claimed a second time.
    DownstreamAbsent,
    /// Backend dispatch failed and the ABI has no status code for that.
    DispatchFailed,
}

} // verus!
