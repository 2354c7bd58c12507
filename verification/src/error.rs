//! Errors of policy validation.

use vstd::prelude::*;

verus! {

/// Why a declarative policy is refused.
#[derive(Clone, Copy, Debug, PartialEq, Eq, Structural)]
pub enum ConfigError {
    /// A port range starts at zero where zero is not allowed.
    ZeroNotAllowed,
    /// More ranges are left after merging than the data plane has slots.
    TooManyRanges,
    /// The inbound or outbound ICMP ranges are not within the ICMP ranges.
    IcmpContainmentViolation,
    /// The interface's packet encapsulation is not supported.
    UnsupportedEncapsulation,
}

} // verus!
