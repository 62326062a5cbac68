//! What the poller decides before its first cycle: which zones to poll.

use vstd::prelude::*;

verus! {

/// Whether the zones have to be discovered from the telemetry source: they
/// have when no list is configured, and when the configured list is empty.
pub open spec fn must_discover(configured: Option<Seq<String>>) -> bool {
    match configured {
        None => true,
        Some(zones) => zones.len() == 0,
    }
}

/// The configured zones, if they are to be polled as they are, or `None` if
/// the zones have to be discovered first.
pub fn static_zones(configured: Option<Vec<String>>) -> (zones: Option<Vec<String>>)
    ensures
        match configured {
            Some(listed) => if listed.len() > 0 {
                zones == Some(listed)
            } else {
                zones is None
            },
            None => zones is None,
        },
        zones is None <==> must_discover(
            match configured {
                Some(listed) => Some(listed@),
                None => None,
            },
        ),
{
    match configured {
        Some(listed) => if listed.len() > 0 {
            Some(listed)
        } else {
            None
        },
        None => None,
    }
}

} // verus!
