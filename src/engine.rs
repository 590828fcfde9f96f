//! The handshake with the speech engine's API.
use vstd::prelude::*;

verus! {

/// The version of the speech engine's API that this library speaks.
pub const APRIL_VERSION: i32 = 1;

/// The engine was asked for an API version it does not offer.
#[derive(Clone, Copy, PartialEq, Eq, Structural, Debug)]
pub struct UnsupportedVersion {
    pub wanted: i32,
    pub got: i32,
}

/// Checks the API version asked for before the engine is set up: only
/// `APRIL_VERSION` is offered.
pub fn init_april_api(version: i32) -> (r: Result<(), UnsupportedVersion>)
    ensures
        r is Ok <==> version == APRIL_VERSION,
        r matches Err(e) ==> e.wanted == APRIL_VERSION && e.got == version,
{
    if version == APRIL_VERSION {
        Ok(())
    } else {
        Err(UnsupportedVersion { wanted: APRIL_VERSION, got: version })
    }
}

} // verus!
