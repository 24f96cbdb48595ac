//! Timestamp detection: the locally scoped heuristic that refines a string
//! shape into a timestamp shape.

use vstd::prelude::*;

verus! {

/// Whether a character sequence parses as an RFC 3339 date-and-time.  The
/// outcome is a function of the characters alone; it is given a name here,
/// and the parser is relied upon to compute it.
pub uninterp spec fn is_rfc3339(s: Seq<char>) -> bool;

/// Relies on chrono's `DateTime::parse_from_rfc3339`: it accepts exactly
/// the RFC 3339 date-and-time strings, and its outcome depends on the
/// characters of `s` alone.
#[verifier::external_body]
pub(crate) fn parses_as_timestamp(s: &str) -> (r: bool)
    ensures
        r == is_rfc3339(s@),
{
    chrono::DateTime::parse_from_rfc3339(s).is_ok()
}

} // verus!
