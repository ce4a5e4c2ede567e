//! The Robot Controller release this stack is validated against.

use vstd::prelude::*;

verus! {

/// The `FtcRobotController` release tag the code is validated against.
pub fn release_tag() -> (tag: Option<&'static str>)
    ensures
        tag matches Some(t) && t@ == "v11.1"@,
{
    Some("v11.1")
}

/// The repository the release tag refers to.
pub const UPSTREAM_REPO: &'static str = "FIRST-Tech-Challenge/FtcRobotController";

} // verus!
