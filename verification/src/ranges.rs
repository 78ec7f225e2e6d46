//! Version ranges: construction, containment, and the `min-max` text that
//! error messages show.

use vstd::prelude::*;
use vstd::string::*;
use crate::text::{decimal, push_decimal};
use crate::v1::VersionRange;

verus! {

/// `version` lies in the inclusive range.
pub open spec fn spec_range_contains(range: VersionRange, version: u32) -> bool {
    range.min <= version && version <= range.max
}

/// `min-max`, each bound in decimal.
pub open spec fn range_text(range: VersionRange) -> Seq<char> {
    decimal(range.min as nat) + "-"@ + decimal(range.max as nat)
}

/// The range `min..=max`.
pub fn version_range(min: u32, max: u32) -> (r: VersionRange)
    ensures
        r == (VersionRange { min, max }),
{
    VersionRange { min, max }
}

/// Inclusive containment, used by both the server and the negotiator.
pub fn range_contains(range: &VersionRange, version: u32) -> (r: bool)
    ensures
        r == spec_range_contains(*range, version),
{
    version >= range.min && version <= range.max
}

/// Appends `min-max`.
pub fn push_range(out: &mut String, range: &VersionRange)
    ensures
        final(out)@ == old(out)@ + range_text(*range),
{
    push_decimal(out, range.min as u64);
    out.append("-");
    push_decimal(out, range.max as u64);
    assert(final(out)@ =~= old(out)@ + range_text(*range));
}

/// Human-readable form for error messages, e.g. `1-2`.
pub fn range_display(range: &VersionRange) -> (r: String)
    ensures
        r@ == range_text(*range),
{
    let mut out = String::new();
    push_range(&mut out, range);
    assert(out@ =~= range_text(*range));
    out
}

} // verus!
