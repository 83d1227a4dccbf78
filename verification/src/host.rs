//! Calls that reach outside the library: the home directory, random
//! identifiers and the clock.
use vstd::prelude::*;

use crate::models::Timestamp;

verus! {

/// Whether `shellexpand::tilde` replaces the leading `~` of `p`: a `~` alone
/// or followed by a path separator.
pub open spec fn tilde_applies(p: Seq<char>) -> bool {
    p.len() > 0 && p[0] == '~' && (p.len() == 1 || p[1] == '/' || p[1] == '\\')
}

/// Whether `out` is a possible result of home-directory expansion of `p`:
/// `p` itself, or, where the expansion applies, some home directory followed
/// by what came after the `~`.
pub open spec fn tilde_outcome(p: Seq<char>, out: Seq<char>) -> bool {
    out == p || (tilde_applies(p) && exists|home: Seq<char>| out == home + p.drop_first())
}

/// `shellexpand::tilde`: replaces a leading `~` by the user's home directory,
/// as `dirs::home_dir` reports it. The home directory comes from the
/// environment, so the contract says only that the result is `p` or some
/// directory followed by the rest of `p`, and that nothing else changes.
#[verifier::external_body]
pub fn expand_tilde(p: &str) -> (r: String)
    ensures
        tilde_outcome(p@, r@),
{
    shellexpand::tilde(p).into_owned()
}

/// Whether `c` is a lowercase hexadecimal digit.
pub open spec fn is_lower_hex(c: char) -> bool {
    (48 <= (c as u32) <= 57) || (97 <= (c as u32) <= 102)
}

/// Whether `s` has the shape of a UUID in hyphenated lowercase form.
pub open spec fn is_uuid_text(s: Seq<char>) -> bool {
    &&& s.len() == 36
    &&& forall|i: int|
        0 <= i < 36 ==> if i == 8 || i == 13 || i == 18 || i == 23 {
            #[trigger] s[i] == '-'
        } else {
            is_lower_hex(s[i])
        }
}

/// `uuid::Uuid::new_v4().to_string()`: a fresh random UUID. Its `Display`
/// writes the hyphenated lowercase form, which is all the contract states;
/// which UUID comes out is chance.
#[verifier::external_body]
pub fn new_uuid_string() -> (r: String)
    ensures
        is_uuid_text(r@),
{
    uuid::Uuid::new_v4().to_string()
}

/// `chrono::Utc::now()`, as seconds and nanoseconds since the Unix epoch.
/// The time is whatever the clock says; what is stated is that it is not
/// before the epoch (chrono panics on a clock set earlier) and that the
/// nanoseconds stay under two seconds' worth (more than one second only
/// during a leap second).
#[verifier::external_body]
pub fn now_utc() -> (r: Timestamp)
    ensures
        r.secs >= 0,
        r.nanos < 2_000_000_000,
{
    let t = chrono::Utc::now();
    Timestamp { secs: t.timestamp(), nanos: t.timestamp_subsec_nanos() }
}

} // verus!
