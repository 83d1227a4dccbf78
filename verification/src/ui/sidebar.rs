//! The sidebar's lists: search and namespace filtering, favourites, recent
//! connections, groups, and stamping a connection as used.
use vstd::prelude::*;

use crate::host::now_utc;
use crate::models::{SshConnection, Timestamp};
use crate::text::{
    chars_eq, chars_of, contains_exec, contains_seq, lex_less, lex_lt, lowercase, str_views,
    str_eq, string_from_chars, to_lowercase, trim, trim_chars, trim_str,
};

verus! {

/// The sidebar's own UI state.
pub struct SidebarState {
    pub search: String,
    pub sec_favorites: bool,
    pub sec_recent: bool,
    pub sec_all: bool,
    /// Selected namespace filter; empty shows all.
    pub namespace: String,
}

impl Default for SidebarState {
    fn default() -> (r: Self)
        ensures
            r.search@.len() == 0,
            r.sec_favorites,
            !r.sec_recent,
            r.sec_all,
            r.namespace@.len() == 0,
    {
        SidebarState {
            search: String::new(),
            sec_favorites: true,
            sec_recent: false,
            sec_all: true,
            namespace: String::new(),
        }
    }
}

/// Actions requested by the sidebar in one frame.
pub struct SidebarEvents {
    /// Open (or switch to) an existing connection.
    pub open: Option<usize>,
    /// Always open a fresh tab for this connection.
    pub open_new_tab: Option<usize>,
    /// Open the add-connection dialog.
    pub add_new: bool,
    /// Open the edit dialog for this connection index.
    pub edit: Option<usize>,
    /// Delete this connection.
    pub delete: Option<usize>,
    /// Toggle favourite status.
    pub toggle_fav: Option<usize>,
    /// Navigate to the settings view.
    pub open_settings: bool,
    /// Theme change requested (theme name).
    pub theme_change: Option<String>,
}

impl Default for SidebarEvents {
    fn default() -> (r: Self)
        ensures
            r.open is None,
            r.open_new_tab is None,
            !r.add_new,
            r.edit is None,
            r.delete is None,
            r.toggle_fav is None,
            !r.open_settings,
            r.theme_change is None,
    {
        SidebarEvents {
            open: None,
            open_new_tab: None,
            add_new: false,
            edit: None,
            delete: None,
            toggle_fav: None,
            open_settings: false,
            theme_change: None,
        }
    }
}

/// The indices `0..n`.
pub open spec fn index_range(n: nat) -> Seq<usize> {
    Seq::new(n, |i: int| i as usize)
}

/// Whether a connection passes the namespace filter `ns` (empty passes all)
/// and the lowercase query `q` (empty passes all), given its trimmed group
/// and its lowercased name, host, user name and group: the trimmed group is
/// the namespace, and the query occurs in one of the lowercased fields.
pub open spec fn passes_lowered(
    group: Seq<char>,
    name: Seq<char>,
    host: Seq<char>,
    user: Seq<char>,
    lgroup: Seq<char>,
    q: Seq<char>,
    ns: Seq<char>,
) -> bool {
    &&& (ns.len() == 0 || group == ns)
    &&& (q.len() == 0 || contains_seq(name, q) || contains_seq(host, q) || contains_seq(user, q)
        || contains_seq(lgroup, q))
}

/// Whether `c` passes the namespace filter `ns` and the lowercase query `q`.
pub open spec fn passes_filter(c: SshConnection, q: Seq<char>, ns: Seq<char>) -> bool {
    passes_lowered(
        trim(c.group@),
        lowercase(c.name@),
        lowercase(c.host@),
        lowercase(c.username@),
        lowercase(c.group@),
        q,
        ns,
    )
}

/// Whether a connection passes the namespace filter and the query, given its
/// trimmed group and its lowercased name, host, user name and group.
pub fn passes_lowered_filter(
    group: &str,
    name: &str,
    host: &str,
    user: &str,
    lgroup: &str,
    q: &str,
    ns: &str,
) -> (r: bool)
    ensures
        r == passes_lowered(group@, name@, host@, user@, lgroup@, q@, ns@),
{
    let qc = chars_of(q);
    let ns_ok = ns.is_empty() || str_eq(group, ns);
    let q_ok = qc.len() == 0 || contains_exec(&chars_of(name), &qc) || contains_exec(
        &chars_of(host),
        &qc,
    ) || contains_exec(&chars_of(user), &qc) || contains_exec(&chars_of(lgroup), &qc);
    ns_ok && q_ok
}

/// Which connections the sidebar shows, stated over the connection's own
/// fields: connection `i` is listed exactly when the namespace is empty or is
/// its trimmed group, and the search text is empty or, lowercased, occurs in
/// its lowercased name, host, user name or group. In particular, with no
/// namespace, a connection whose group contains the search text is listed.
pub proof fn lemma_search_matches_fields(
    conns: Seq<SshConnection>,
    search: Seq<char>,
    ns: Seq<char>,
    i: int,
)
    requires
        0 <= i < conns.len(),
        conns.len() <= usize::MAX,
    ensures
        index_range(conns.len()).filter(
            |k: usize| passes_filter(conns[k as int], lowercase(search), ns),
        ).contains(i as usize) <==> ((ns.len() == 0 || trim(conns[i].group@) == ns) && (
        lowercase(search).len() == 0 || contains_seq(lowercase(conns[i].name@), lowercase(search))
            || contains_seq(lowercase(conns[i].host@), lowercase(search)) || contains_seq(
            lowercase(conns[i].username@),
            lowercase(search),
        ) || contains_seq(lowercase(conns[i].group@), lowercase(search)))),
        ns.len() == 0 && contains_seq(lowercase(conns[i].group@), lowercase(search)) ==> index_range(
            conns.len(),
        ).filter(|k: usize| passes_filter(conns[k as int], lowercase(search), ns)).contains(
            i as usize,
        ),
{
    let pred = |k: usize| passes_filter(conns[k as int], lowercase(search), ns);
    let ir = index_range(conns.len());
    assert(ir[i] == i as usize);
    if pred(i as usize) {
        ir.lemma_filter_contains(pred, i);
    }
    if ir.filter(pred).contains(i as usize) {
        #[allow(deprecated)]
        ir.filter_lemma(pred);
        let j = choose|j: int| 0 <= j < ir.filter(pred).len() && ir.filter(pred)[j] == i as usize;
        assert(pred(ir.filter(pred)[j]));
    }
}

/// Indices of the connections matching the search query and namespace
/// filter, in order.
pub fn filtered_indices(conns: &Vec<SshConnection>, search: &str, namespace: &str) -> (r: Vec<
    usize,
>)
    ensures
        r@ == index_range(conns@.len()).filter(
            |i: usize| passes_filter(conns@[i as int], lowercase(search@), namespace@),
        ),
        search@.len() == 0 && namespace@.len() == 0 ==> r@ == index_range(conns@.len()),
{
    let ql = to_lowercase(search);
    let ghost pred = |i: usize| passes_filter(conns@[i as int], lowercase(search@), namespace@);
    let ghost all = search@.len() == 0 && namespace@.len() == 0;
    let n = conns.len();
    let mut r: Vec<usize> = Vec::new();
    let mut i: usize = 0;
    while i < n
        invariant
            n == conns@.len(),
            i <= n,
            ql@ == lowercase(search@),
            search@.len() == 0 ==> ql@.len() == 0,
            all == (search@.len() == 0 && namespace@.len() == 0),
            pred == (|i: usize| passes_filter(conns@[i as int], lowercase(search@), namespace@)),
            r@ == index_range(n as nat).take(i as int).filter(pred),
            all ==> r@ == index_range(n as nat).take(i as int),
        decreases n - i,
    {
        let c = &conns[i];
        let g = trim_str(c.group.as_str());
        let ln = to_lowercase(c.name.as_str());
        let lh = to_lowercase(c.host.as_str());
        let lu = to_lowercase(c.username.as_str());
        let lg = to_lowercase(c.group.as_str());
        let ok = passes_lowered_filter(
            g.as_str(),
            ln.as_str(),
            lh.as_str(),
            lu.as_str(),
            lg.as_str(),
            ql.as_str(),
            namespace,
        );
        proof {
            let s = index_range(n as nat).take(i + 1);
            assert(s.drop_last() =~= index_range(n as nat).take(i as int));
            assert(s.last() == i);
            assert(ok == pred(i));
            reveal_with_fuel(Seq::<_>::filter, 1);
            assert(s.filter(pred) == (if pred(s.last()) {
                s.drop_last().filter(pred).push(s.last())
            } else {
                s.drop_last().filter(pred)
            }));
            if all {
                assert(ok);
                assert(s =~= index_range(n as nat).take(i as int).push(i));
            }
        }
        if ok {
            r.push(i);
        }
        i += 1;
    }
    assert(index_range(n as nat).take(n as int) =~= index_range(n as nat));
    r
}

/// Whether every index in `indices` points into `conns`.
pub open spec fn indices_in_range(conns: Seq<SshConnection>, indices: Seq<usize>) -> bool {
    forall|k: int| 0 <= k < indices.len() ==> #[trigger] indices[k] < conns.len()
}

/// The favourites among `indices`, in order.
pub fn favourite_indices(conns: &Vec<SshConnection>, indices: &Vec<usize>) -> (r: Vec<usize>)
    requires
        indices_in_range(conns@, indices@),
    ensures
        r@ == indices@.filter(|i: usize| conns@[i as int].favorite),
{
    let ghost pred = |i: usize| conns@[i as int].favorite;
    let mut r: Vec<usize> = Vec::new();
    let mut k: usize = 0;
    while k < indices.len()
        invariant
            k <= indices@.len(),
            indices_in_range(conns@, indices@),
            pred == (|i: usize| conns@[i as int].favorite),
            r@ == indices@.take(k as int).filter(pred),
        decreases indices@.len() - k,
    {
        let i = indices[k];
        proof {
            assert(indices@.take(k + 1).drop_last() =~= indices@.take(k as int));
            assert(indices@.take(k + 1).last() == i);
            let s = indices@.take(k + 1);
            reveal_with_fuel(Seq::<_>::filter, 1);
            assert(s.filter(pred) == (if pred(s.last()) {
                s.drop_last().filter(pred).push(s.last())
            } else {
                s.drop_last().filter(pred)
            }));
        }
        if conns[i].favorite {
            r.push(i);
        }
        k += 1;
    }
    assert(indices@.take(k as int) =~= indices@);
    r
}

/// The indices among `indices` whose trimmed group is `group`, in order.
pub fn group_indices(conns: &Vec<SshConnection>, indices: &Vec<usize>, group: &str) -> (r: Vec<
    usize,
>)
    requires
        indices_in_range(conns@, indices@),
    ensures
        r@ == indices@.filter(|i: usize| trim(conns@[i as int].group@) == group@),
{
    let ghost pred = |i: usize| trim(conns@[i as int].group@) == group@;
    let gq = chars_of(group);
    let mut r: Vec<usize> = Vec::new();
    let mut k: usize = 0;
    while k < indices.len()
        invariant
            k <= indices@.len(),
            indices_in_range(conns@, indices@),
            gq@ == group@,
            pred == (|i: usize| trim(conns@[i as int].group@) == group@),
            r@ == indices@.take(k as int).filter(pred),
        decreases indices@.len() - k,
    {
        let i = indices[k];
        proof {
            assert(indices@.take(k + 1).drop_last() =~= indices@.take(k as int));
            assert(indices@.take(k + 1).last() == i);
            let s = indices@.take(k + 1);
            reveal_with_fuel(Seq::<_>::filter, 1);
            assert(s.filter(pred) == (if pred(s.last()) {
                s.drop_last().filter(pred).push(s.last())
            } else {
                s.drop_last().filter(pred)
            }));
        }
        let gc = chars_of(conns[i].group.as_str());
        let g = trim_chars(&gc);
        if chars_eq(&g, &gq) {
            r.push(i);
        }
        k += 1;
    }
    assert(indices@.take(k as int) =~= indices@);
    r
}

/// The indices among `indices` without a group, in order.
pub fn ungrouped_indices(conns: &Vec<SshConnection>, indices: &Vec<usize>) -> (r: Vec<usize>)
    requires
        indices_in_range(conns@, indices@),
    ensures
        r@ == indices@.filter(|i: usize| trim(conns@[i as int].group@).len() == 0),
{
    let ghost pred = |i: usize| trim(conns@[i as int].group@).len() == 0;
    let mut r: Vec<usize> = Vec::new();
    let mut k: usize = 0;
    while k < indices.len()
        invariant
            k <= indices@.len(),
            indices_in_range(conns@, indices@),
            pred == (|i: usize| trim(conns@[i as int].group@).len() == 0),
            r@ == indices@.take(k as int).filter(pred),
        decreases indices@.len() - k,
    {
        let i = indices[k];
        proof {
            assert(indices@.take(k + 1).drop_last() =~= indices@.take(k as int));
            assert(indices@.take(k + 1).last() == i);
            let s = indices@.take(k + 1);
            reveal_with_fuel(Seq::<_>::filter, 1);
            assert(s.filter(pred) == (if pred(s.last()) {
                s.drop_last().filter(pred).push(s.last())
            } else {
                s.drop_last().filter(pred)
            }));
        }
        let gc = chars_of(conns[i].group.as_str());
        let g = trim_chars(&gc);
        if g.len() == 0 {
            r.push(i);
        }
        k += 1;
    }
    assert(indices@.take(k as int) =~= indices@);
    r
}

/// Whether `g` is the trimmed group of some connection and not empty.
pub open spec fn is_group_of(conns: Seq<SshConnection>, g: Seq<char>) -> bool {
    g.len() > 0 && exists|i: int| 0 <= i < conns.len() && trim(conns[i].group@) == g
}

/// The distinct non-empty trimmed groups of the connections, in ascending
/// order (the namespace selector's choices).
pub fn collect_groups(conns: &Vec<SshConnection>) -> (r: Vec<String>)
    ensures
        forall|k: int, l: int|
            0 <= k < l < r@.len() ==> lex_lt(#[trigger] r@[k]@, #[trigger] r@[l]@),
        forall|k: int| 0 <= k < r@.len() ==> is_group_of(conns@, #[trigger] r@[k]@),
        forall|g: Seq<char>| is_group_of(conns@, g) ==> str_views(r@).contains(g),
{
    let mut gs: Vec<Vec<char>> = Vec::new();
    let mut i: usize = 0;
    while i < conns.len()
        invariant
            i <= conns@.len(),
            forall|k: int, l: int|
                0 <= k < l < gs@.len() ==> lex_lt(#[trigger] gs@[k]@, #[trigger] gs@[l]@),
            forall|k: int| 0 <= k < gs@.len() ==> is_group_of(conns@, #[trigger] gs@[k]@),
            forall|j: int|
                0 <= j < i && trim(#[trigger] conns@[j].group@).len() > 0 ==> exists|k: int|
                    0 <= k < gs@.len() && gs@[k]@ == trim(conns@[j].group@),
        decreases conns@.len() - i,
    {
        let gc = chars_of(conns[i].group.as_str());
        let g = trim_chars(&gc);
        if g.len() > 0 {
            // find the first stored group that does not come before g
            let mut p: usize = 0;
            while p < gs.len() && lex_less(&gs[p], &g)
                invariant
                    p <= gs@.len(),
                    forall|k: int| 0 <= k < p ==> lex_lt(#[trigger] gs@[k]@, g@),
                decreases gs@.len() - p,
            {
                p += 1;
            }
            let dup = p < gs.len() && chars_eq(&gs[p], &g);
            if !dup {
                let ghost before = gs@;
                proof {
                    if p < gs@.len() {
                        crate::text::lemma_lex_total(gs@[p as int]@, g@);
                    }
                }
                gs.insert(p, g);
                proof {
                    assert forall|k: int, l: int|
                        0 <= k < l < gs@.len() implies lex_lt(
                        #[trigger] gs@[k]@,
                        #[trigger] gs@[l]@,
                    ) by {
                        if l == p {
                            assert(gs@[k] == before[k]);
                        } else if k == p {
                            assert(gs@[l] == before[l - 1]);
                            if l - 1 > p {
                                crate::text::lemma_lex_transitive(g@, before[p as int]@, before[l - 1]@);
                            }
                        } else if k > p {
                            assert(gs@[k] == before[k - 1]);
                            assert(gs@[l] == before[l - 1]);
                        } else if l > p {
                            assert(gs@[k] == before[k]);
                            assert(gs@[l] == before[l - 1]);
                        } else {
                            assert(gs@[k] == before[k]);
                            assert(gs@[l] == before[l]);
                        }
                    }
                    assert forall|k: int| 0 <= k < gs@.len() implies is_group_of(
                        conns@,
                        #[trigger] gs@[k]@,
                    ) by {
                        if k < p {
                            assert(gs@[k] == before[k]);
                        } else if k > p {
                            assert(gs@[k] == before[k - 1]);
                        } else {
                            assert(trim(conns@[i as int].group@) == g@);
                        }
                    }
                    assert forall|j: int|
                        0 <= j < i + 1 && trim(#[trigger] conns@[j].group@).len() > 0 implies exists|
                        k: int,
                    |
                        0 <= k < gs@.len() && gs@[k]@ == trim(conns@[j].group@) by {
                        if j < i {
                            let k0 = choose|k: int|
                                0 <= k < before.len() && before[k]@ == trim(conns@[j].group@);
                            if k0 < p {
                                assert(gs@[k0] == before[k0]);
                            } else {
                                assert(gs@[k0 + 1] == before[k0]);
                            }
                        } else {
                            assert(gs@[p as int]@ == g@);
                        }
                    }
                }
            } else {
                proof {
                    assert forall|j: int|
                        0 <= j < i + 1 && trim(#[trigger] conns@[j].group@).len() > 0 implies exists|
                        k: int,
                    |
                        0 <= k < gs@.len() && gs@[k]@ == trim(conns@[j].group@) by {
                        if j == i {
                            assert(gs@[p as int]@ == g@);
                        }
                    }
                }
            }
        }
        i += 1;
    }
    let mut r: Vec<String> = Vec::new();
    let mut k: usize = 0;
    while k < gs.len()
        invariant
            k <= gs@.len(),
            r@.len() == k,
            forall|m: int| 0 <= m < k ==> #[trigger] r@[m]@ == gs@[m]@,
        decreases gs@.len() - k,
    {
        r.push(string_from_chars(&gs[k]));
        k += 1;
    }
    proof {
        assert forall|g: Seq<char>| is_group_of(conns@, g) implies str_views(r@).contains(g) by {
            let j = choose|j: int| 0 <= j < conns@.len() && trim(conns@[j].group@) == g;
            assert(trim(conns@[j].group@).len() > 0);
            let m = choose|m: int| 0 <= m < gs@.len() && gs@[m]@ == trim(conns@[j].group@);
            assert(str_views(r@)[m] == g);
        }
    }
    r
}


/// The connections among `indices` that the recent list may show: used at
/// least once and not favourites, in order.
pub open spec fn recent_candidates(conns: Seq<SshConnection>, indices: Seq<usize>) -> Seq<usize> {
    indices.filter(
        |i: usize| !conns[i as int].favorite && conns[i as int].last_used is Some,
    )
}

/// When connection `i` was last used.
pub open spec fn used_at(conns: Seq<SshConnection>, i: usize) -> Timestamp {
    conns[i as int].last_used.unwrap()
}

/// Whether candidate position `p` is listed before position `q`: used more
/// recently, or at the same time and earlier among the candidates.
pub open spec fn ranks_before(conns: Seq<SshConnection>, cand: Seq<usize>, p: int, q: int) -> bool {
    let a = used_at(conns, cand[p]);
    let b = used_at(conns, cand[q]);
    b.before(a) || (a == b && p < q)
}

/// Whether `r` lists the candidates at positions `pos` of `cand`, in rank
/// order, and leaves out only candidates ranked after all of them: the (at
/// most) five most recently used, most recent first, ties in candidate order.
pub open spec fn recent_order(conns: Seq<SshConnection>, cand: Seq<usize>, r: Seq<usize>, pos: Seq<int>) -> bool {
    &&& pos.len() == r.len()
    &&& r.len() == (if cand.len() < 5 {
        cand.len()
    } else {
        5
    })
    &&& forall|k: int|
        0 <= k < pos.len() ==> 0 <= #[trigger] pos[k] < cand.len() && r[k] == cand[pos[k]]
    &&& forall|k: int, l: int|
        0 <= k < l < pos.len() ==> ranks_before(conns, cand, #[trigger] pos[k], #[trigger] pos[l])
    &&& forall|q: int|
        0 <= q < cand.len() && !pos.contains(q) ==> forall|k: int|
            0 <= k < pos.len() ==> ranks_before(conns, cand, #[trigger] pos[k], q)
}

/// Whether `r` is the recent list of the candidates `cand`, as a stable sort
/// by time of use, newest first, followed by taking five gives.
pub open spec fn is_recent_list(conns: Seq<SshConnection>, cand: Seq<usize>, r: Seq<usize>) -> bool {
    exists|pos: Seq<int>| recent_order(conns, cand, r, pos)
}

proof fn lemma_ranks_transitive(conns: Seq<SshConnection>, cand: Seq<usize>, p: int, q: int, s: int)
    requires
        ranks_before(conns, cand, p, q),
        ranks_before(conns, cand, q, s),
    ensures
        ranks_before(conns, cand, p, s),
{
}

proof fn lemma_ranks_total(conns: Seq<SshConnection>, cand: Seq<usize>, p: int, q: int)
    requires
        p != q,
    ensures
        ranks_before(conns, cand, p, q) || ranks_before(conns, cand, q, p),
{
}

/// The recent list of the connections among `indices`: those used at least
/// once and not favourites, the most recently used first (ties keep their
/// order), at most five.
pub fn recent_indices(conns: &Vec<SshConnection>, indices: &Vec<usize>) -> (r: Vec<usize>)
    requires
        indices_in_range(conns@, indices@),
    ensures
        is_recent_list(conns@, recent_candidates(conns@, indices@), r@),
{
    let ghost pred = |i: usize| !conns@[i as int].favorite && conns@[i as int].last_used is Some;
    let mut cand: Vec<usize> = Vec::new();
    let mut k: usize = 0;
    while k < indices.len()
        invariant
            k <= indices@.len(),
            indices_in_range(conns@, indices@),
            pred == (|i: usize| !conns@[i as int].favorite && conns@[i as int].last_used is Some),
            cand@ == indices@.take(k as int).filter(pred),
            forall|j: int| 0 <= j < cand@.len() ==> (#[trigger] cand@[j]) < conns@.len()
                && conns@[cand@[j] as int].last_used is Some,
        decreases indices@.len() - k,
    {
        let i = indices[k];
        proof {
            let s = indices@.take(k + 1);
            assert(s.drop_last() =~= indices@.take(k as int));
            assert(s.last() == i);
            reveal_with_fuel(Seq::<_>::filter, 1);
        }
        if !conns[i].favorite && conns[i].last_used.is_some() {
            cand.push(i);
        }
        k += 1;
    }
    assert(indices@.take(k as int) =~= indices@);
    let ghost cs = cand@;
    assert(cs == recent_candidates(conns@, indices@));
    // insertion sort of candidate positions by rank
    let n = cand.len();
    let mut order: Vec<usize> = Vec::new();
    let mut t: usize = 0;
    while t < n
        invariant
            n == cand@.len() == cs.len(),
            cs == cand@,
            forall|j: int| 0 <= j < cs.len() ==> (#[trigger] cs[j]) < conns@.len()
                && conns@[cs[j] as int].last_used is Some,
            t <= n,
            order@.len() == t,
            forall|k: int| 0 <= k < order@.len() ==> #[trigger] order@[k] < t,
            forall|q: int| 0 <= q < t ==> #[trigger] order@.contains(q as usize),
            forall|k: int, l: int|
                0 <= k < l < order@.len() ==> ranks_before(
                    conns@,
                    cs,
                    #[trigger] order@[k] as int,
                    #[trigger] order@[l] as int,
                ),
        decreases n - t,
    {
        let mut j: usize = 0;
        while j < order.len() && !ranks_before_exec(conns, &cand, t, order[j])
            invariant
                n == cand@.len() == cs.len(),
                cs == cand@,
                forall|j: int| 0 <= j < cs.len() ==> (#[trigger] cs[j]) < conns@.len()
                    && conns@[cs[j] as int].last_used is Some,
                t < n,
                j <= order@.len(),
                forall|k: int| 0 <= k < order@.len() ==> #[trigger] order@[k] < t,
                forall|k: int| 0 <= k < j ==> ranks_before(conns@, cs, #[trigger] order@[k] as int, t as int),
            decreases order@.len() - j,
        {
            proof {
                lemma_ranks_total(conns@, cs, t as int, order@[j as int] as int);
            }
            j += 1;
        }
        let ghost before = order@;
        order.insert(j, t);
        proof {
            assert forall|k: int, l: int|
                0 <= k < l < order@.len() implies ranks_before(
                conns@,
                cs,
                #[trigger] order@[k] as int,
                #[trigger] order@[l] as int,
            ) by {
                if l == j {
                    assert(order@[k] == before[k]);
                } else if k == j {
                    assert(order@[l] == before[l - 1]);
                    if l - 1 > j {
                        lemma_ranks_transitive(conns@, cs, t as int, before[j as int] as int, before[l - 1] as int);
                    }
                } else if k > j {
                    assert(order@[k] == before[k - 1]);
                    assert(order@[l] == before[l - 1]);
                } else if l > j {
                    assert(order@[k] == before[k]);
                    assert(order@[l] == before[l - 1]);
                } else {
                    assert(order@[k] == before[k]);
                    assert(order@[l] == before[l]);
                }
            }
            assert forall|k: int| 0 <= k < order@.len() implies #[trigger] order@[k] < t + 1 by {
                if k < j {
                    assert(order@[k] == before[k]);
                } else if k > j {
                    assert(order@[k] == before[k - 1]);
                }
            }
            assert forall|q: int| 0 <= q < t + 1 implies #[trigger] order@.contains(q as usize) by {
                if q < t {
                    assert(before.contains(q as usize));
                    let m = choose|m: int| 0 <= m < before.len() && before[m] == q as usize;
                    if m < j {
                        assert(order@[m] == before[m]);
                    } else {
                        assert(order@[m + 1] == before[m]);
                    }
                } else {
                    assert(order@[j as int] == t);
                }
            }
        }
        t += 1;
    }
    let m: usize = if n < 5 {
        n
    } else {
        5
    };
    let mut r: Vec<usize> = Vec::new();
    let mut u: usize = 0;
    while u < m
        invariant
            m <= n == order@.len() == cs.len(),
            cs == cand@,
            forall|k: int| 0 <= k < order@.len() ==> #[trigger] order@[k] < n,
            forall|q: int| 0 <= q < n ==> #[trigger] order@.contains(q as usize),
            forall|k: int, l: int|
                0 <= k < l < order@.len() ==> ranks_before(
                    conns@,
                    cs,
                    #[trigger] order@[k] as int,
                    #[trigger] order@[l] as int,
                ),
            u <= m,
            r@.len() == u,
            forall|k: int| 0 <= k < u ==> #[trigger] r@[k] == cs[order@[k] as int],
        decreases m - u,
    {
        r.push(cand[order[u]]);
        u += 1;
    }
    proof {
        let pos = order@.take(m as int).map_values(|x: usize| x as int);
        assert forall|q: int| 0 <= q < cs.len() && !pos.contains(q) implies forall|k: int|
            0 <= k < pos.len() ==> ranks_before(conns@, cs, #[trigger] pos[k], q) by {
            assert(order@.contains(q as usize));
            let w = choose|w: int| 0 <= w < order@.len() && order@[w] == q as usize;
            if w < m {
                assert(pos[w] == q);
                assert(false);
            }
            assert forall|k: int| 0 <= k < pos.len() implies ranks_before(conns@, cs, #[trigger] pos[k], q) by {
                assert(pos[k] == order@[k] as int);
                assert(order@[w] as int == q);
            }
        }
        assert forall|k: int, l: int|
            0 <= k < l < pos.len() implies ranks_before(conns@, cs, #[trigger] pos[k], #[trigger] pos[l]) by {
            assert(pos[k] == order@[k] as int);
            assert(pos[l] == order@[l] as int);
        }
        assert(recent_order(conns@, cs, r@, pos));
        assert(is_recent_list(conns@, cs, r@));
    }
    r
}

/// A connection used after every other candidate heads the recent list.
pub proof fn lemma_latest_heads_recent(
    conns: Seq<SshConnection>,
    indices: Seq<usize>,
    r: Seq<usize>,
    i: usize,
)
    requires
        is_recent_list(conns, recent_candidates(conns, indices), r),
        recent_candidates(conns, indices).contains(i),
        forall|q: int|
            0 <= q < recent_candidates(conns, indices).len() ==> #[trigger] recent_candidates(
                conns,
                indices,
            )[q] == i || used_at(conns, recent_candidates(conns, indices)[q]).before(
                used_at(conns, i),
            ),
    ensures
        r.len() > 0,
        r[0] == i,
{
    let cand = recent_candidates(conns, indices);
    let pos = choose|pos: Seq<int>| recent_order(conns, cand, r, pos);
    assert(recent_order(conns, cand, r, pos));
    let p = choose|p: int| 0 <= p < cand.len() && cand[p] == i;
    assert(r.len() > 0);
    let q0 = pos[0];
    if cand[q0] != i {
        assert(used_at(conns, cand[q0]).before(used_at(conns, i)));
        if pos.contains(p) {
            let k = choose|k: int| 0 <= k < pos.len() && pos[k] == p;
            assert(k != 0);
            assert(ranks_before(conns, cand, pos[0], pos[k]));
        } else {
            assert(ranks_before(conns, cand, pos[0], p));
        }
        assert(false);
    }
}

/// Opening a connection puts it at the head of the recent list: once it is
/// stamped with a time after every other time of use, the recent list of
/// any indices holding it (not a favourite) starts with it.
pub proof fn lemma_stamped_heads_recent(
    before: Seq<SshConnection>,
    after: Seq<SshConnection>,
    indices: Seq<usize>,
    i: usize,
    now: Timestamp,
    r: Seq<usize>,
)
    requires
        i < before.len(),
        after.len() == before.len(),
        forall|j: int| 0 <= j < before.len() && j != i ==> after[j] == before[j],
        after[i as int].same_fields(before[i as int]),
        after[i as int].last_used == Some(now),
        !before[i as int].favorite,
        indices.contains(i),
        indices_in_range(before, indices),
        forall|j: int|
            0 <= j < indices.len() && indices[j] != i ==> match (#[trigger] before[indices[j] as int]).last_used {
                Some(t) => t.before(now),
                None => true,
            },
        is_recent_list(after, recent_candidates(after, indices), r),
    ensures
        r.len() > 0,
        r[0] == i,
{
    let pred = |k: usize| !after[k as int].favorite && after[k as int].last_used is Some;
    let cand = recent_candidates(after, indices);
    assert(cand == indices.filter(pred));
    let w = choose|w: int| 0 <= w < indices.len() && indices[w] == i;
    indices.lemma_filter_contains(pred, w);
    assert forall|q: int| 0 <= q < cand.len() implies #[trigger] cand[q] == i || used_at(
        after,
        cand[q],
    ).before(used_at(after, i)) by {
        indices.lemma_filter_pred(pred, q);
        assert(cand.contains(cand[q]));
        indices.lemma_filter_contains_rev(pred, cand[q]);
        let v = choose|v: int| 0 <= v < indices.len() && indices[v] == cand[q];
        if cand[q] != i {
            assert(after[cand[q] as int] == before[cand[q] as int]);
            assert(before[indices[v] as int].last_used is Some);
        }
    }
    lemma_latest_heads_recent(after, indices, r, i);
}

/// Whether candidate `p` is listed before candidate `q` in the recent list.
fn ranks_before_exec(conns: &Vec<SshConnection>, cand: &Vec<usize>, p: usize, q: usize) -> (r: bool)
    requires
        p < cand@.len(),
        q < cand@.len(),
        cand@[p as int] < conns@.len(),
        cand@[q as int] < conns@.len(),
        conns@[cand@[p as int] as int].last_used is Some,
        conns@[cand@[q as int] as int].last_used is Some,
    ensures
        r == ranks_before(conns@, cand@, p as int, q as int),
{
    let a = conns[cand[p]].last_used.unwrap();
    let b = conns[cand[q]].last_used.unwrap();
    b.is_before(&a) || (a.secs == b.secs && a.nanos == b.nanos && p < q)
}

/// Marks connection `i` as used at `now` and returns a copy of it, ready to
/// open.
pub fn stamp_last_used_at(conns: &mut Vec<SshConnection>, i: usize, now: Timestamp) -> (r:
    SshConnection)
    requires
        i < old(conns)@.len(),
    ensures
        final(conns)@.len() == old(conns)@.len(),
        forall|j: int| 0 <= j < old(conns)@.len() && j != i ==> final(conns)@[j] == old(conns)@[j],
        final(conns)@[i as int].same_fields(old(conns)@[i as int]),
        final(conns)@[i as int].last_used == Some(now),
        r.same_fields(old(conns)@[i as int]),
        r.last_used == Some(now),
{
    let mut c = conns[i].clone();
    c.last_used = Some(now);
    let r = c.clone();
    conns.set(i, c);
    r
}

/// Marks connection `i` as used now and returns a copy of it, ready to open.
pub fn stamp_last_used(conns: &mut Vec<SshConnection>, i: usize) -> (r: SshConnection)
    requires
        i < old(conns)@.len(),
    ensures
        final(conns)@.len() == old(conns)@.len(),
        forall|j: int| 0 <= j < old(conns)@.len() && j != i ==> final(conns)@[j] == old(conns)@[j],
        final(conns)@[i as int].same_fields(old(conns)@[i as int]),
        final(conns)@[i as int].last_used matches Some(t) && t.secs >= 0 && t.nanos
            < 2_000_000_000,
        r.same_fields(old(conns)@[i as int]),
        r.last_used == final(conns)@[i as int].last_used,
{
    let now = now_utc();
    stamp_last_used_at(conns, i, now)
}

} // verus!
