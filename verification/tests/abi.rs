//! Cross-checks of ABI constants against the platform's shared crate: the
//! codes that have stayed fixed across that crate's revisions must be the
//! numbers this library returns.

use fastly_shared::{FastlyStatus, HttpVersion};
use fasttime::status;

#[test]
fn status_codes_match_the_platform() {
    assert_eq!(status::OK, FastlyStatus::OK.code);
    assert_eq!(status::ERROR, FastlyStatus::ERROR.code);
    assert_eq!(status::INVAL, FastlyStatus::INVAL.code);
    assert_eq!(status::BADF, FastlyStatus::BADF.code);
}

#[test]
fn version_codes_match_the_platform() {
    assert_eq!(fasttime::http::HttpVersion::Http09.as_u32(), HttpVersion::Http09.as_u32());
    assert_eq!(fasttime::http::HttpVersion::Http10.as_u32(), HttpVersion::Http10.as_u32());
    assert_eq!(fasttime::http::HttpVersion::Http11.as_u32(), HttpVersion::Http11.as_u32());
    assert_eq!(fasttime::http::HttpVersion::H2.as_u32(), HttpVersion::H2.as_u32());
    assert_eq!(fasttime::http::HttpVersion::H3.as_u32(), HttpVersion::H3.as_u32());
}
