//! Data of the sidebar's connection rows, and the search for the longest
//! prefix of a label that fits the width it is given.
use vstd::prelude::*;

use crate::text::{push_all, string_from_chars};

verus! {

/// A single connection row in the sidebar list.
pub struct ConnectionItem<'a> {
    pub name: &'a str,
    pub subtitle: &'a str,
    pub favorite: bool,
    /// The connection has a live session (not necessarily the focused tab).
    pub live: bool,
    /// The connection is open in the focused tab.
    pub focused: bool,
}

/// The longest prefix length, up to `n`, that `fits` accepts; 0 where it
/// accepts none.
pub open spec fn longest_fit(fits: spec_fn(nat) -> bool, n: nat) -> nat
    decreases n,
{
    if n == 0 || fits(n) {
        n
    } else {
        longest_fit(fits, (n - 1) as nat)
    }
}

/// Whether a shorter prefix fits wherever a longer one, up to `n`, does: as
/// text widths grow with the text.
pub open spec fn shorter_fits(fits: spec_fn(nat) -> bool, n: nat) -> bool {
    forall|a: nat, b: nat| 0 < a <= b <= n && #[trigger] fits(b) ==> #[trigger] fits(a)
}

/// A binary search for the longest prefix of a text that fits a width. The
/// prefix lengths still in question run from `lo` to `hi`; the caller
/// measures the prefix that `probe` names and hands the outcome to `answer`.
pub struct FitSearch {
    pub lo: usize,
    pub hi: usize,
}

impl FitSearch {
    /// What the search knows of `fits` on a text of `len` characters: `lo`
    /// fits (or is 0) and the length after `hi` does not (or `hi` is `len`).
    pub open spec fn consistent(self, fits: spec_fn(nat) -> bool, len: nat) -> bool {
        &&& self.lo <= self.hi <= len
        &&& (self.lo == 0 || fits(self.lo as nat))
        &&& (self.hi == len || !fits((self.hi + 1) as nat))
    }

    /// The prefix length measured next.
    pub open spec fn probe_of(self) -> int {
        (self.lo + self.hi + 1) / 2
    }

    /// The search after the probed prefix did (`fits`) or did not fit.
    pub open spec fn after(self, fits: bool) -> FitSearch {
        if fits {
            FitSearch { lo: self.probe_of() as usize, hi: self.hi }
        } else {
            FitSearch { lo: self.lo, hi: (self.probe_of() - 1) as usize }
        }
    }

    /// A search over a text of `len` characters.
    pub fn new(len: usize) -> (r: Self)
        ensures
            r.lo == 0,
            r.hi == len,
    {
        FitSearch { lo: 0, hi: len }
    }

    /// Whether the search is over; `lo` is then its outcome.
    pub fn is_done(&self) -> (r: bool)
        ensures
            r == (self.lo >= self.hi),
    {
        self.lo >= self.hi
    }

    /// The prefix length to measure next.
    pub fn probe(&self) -> (r: usize)
        requires
            self.lo < self.hi,
        ensures
            r == self.probe_of(),
            self.lo < r <= self.hi,
    {
        let d = self.hi - self.lo;
        self.lo + d / 2 + d % 2
    }

    /// Records whether the probed prefix fits.
    pub fn answer(&mut self, fits: bool)
        requires
            old(self).lo < old(self).hi,
        ensures
            *final(self) == old(self).after(fits),
    {
        let p = self.probe();
        if fits {
            self.lo = p;
        } else {
            self.hi = p - 1;
        }
    }
}

/// Each step of the search keeps what it knows true and narrows the range.
pub proof fn lemma_fit_search_step(s: FitSearch, fits: spec_fn(nat) -> bool, len: nat)
    requires
        s.consistent(fits, len),
        s.lo < s.hi,
    ensures
        s.after(fits(s.probe_of() as nat)).consistent(fits, len),
        s.after(fits(s.probe_of() as nat)).hi - s.after(fits(s.probe_of() as nat)).lo < s.hi - s.lo,
{
}

proof fn lemma_longest_fit_from(fits: spec_fn(nat) -> bool, lo: nat, n: nat)
    requires
        lo <= n,
        lo == 0 || fits(lo),
        forall|k: nat| lo < k <= n ==> !#[trigger] fits(k),
    ensures
        longest_fit(fits, n) == lo,
    decreases n,
{
    if n > lo {
        lemma_longest_fit_from(fits, lo, (n - 1) as nat);
    }
}

/// When the search is over, `lo` is the longest prefix that fits, provided a
/// shorter prefix fits wherever a longer one does.
pub proof fn lemma_fit_search_result(s: FitSearch, fits: spec_fn(nat) -> bool, len: nat)
    requires
        shorter_fits(fits, len),
        s.consistent(fits, len),
        s.lo >= s.hi,
    ensures
        s.lo == longest_fit(fits, len),
{
    assert forall|k: nat| s.lo < k <= len implies !#[trigger] fits(k) by {
        if fits(k) {
            assert(fits((s.hi + 1) as nat));
        }
    }
    lemma_longest_fit_from(fits, s.lo as nat, len);
}

/// The first `n` characters of `chars` followed by an ellipsis.
pub fn with_ellipsis(chars: &Vec<char>, n: usize) -> (r: String)
    requires
        n <= chars@.len(),
    ensures
        r@ == chars@.take(n as int).push('…'),
{
    let mut out: Vec<char> = Vec::new();
    let head = crate::text::slice_chars(chars, 0, n);
    push_all(&mut out, &head);
    out.push('…');
    proof {
        assert(out@ =~= chars@.take(n as int).push('…'));
    }
    string_from_chars(&out)
}

} // verus!
