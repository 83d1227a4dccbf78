//! The orchestrator's decisions: which forwarding rules a new session keeps,
//! whether it is logged, what it mounts, how saved connections are updated,
//! and which tab is active after tabs open and close.
use std::collections::HashSet;
use vstd::prelude::*;

use crate::models::{local_ports_of, PortForward, SshConnection, SshMount};
use crate::text::{chars_of, dec_str, push_decimal, push_str, str_eq, string_from_chars, trim, trim_chars};

verus! {

/// The local ports that the live sessions' connections bind, connection by
/// connection.
pub open spec fn bound_ports_of(live: Seq<SshConnection>) -> Seq<u16> {
    live.map_values(|c: SshConnection| local_ports_of(c.port_forwards@)).flatten()
}

/// The set of local ports that the connections of the live sessions bind.
pub fn bound_ports(live: &Vec<SshConnection>) -> (r: HashSet<u16>)
    ensures
        r@ == bound_ports_of(live@).to_set(),
{
    broadcast use vstd::std_specs::hash::group_hash_axioms;

    let mut r: HashSet<u16> = HashSet::new();
    let mut i: usize = 0;
    while i < live.len()
        invariant
            i <= live@.len(),
            r@ == bound_ports_of(live@.take(i as int)).to_set(),
        decreases live@.len() - i,
    {
        let ports = live[i].local_ports();
        let ghost before = bound_ports_of(live@.take(i as int));
        let mut k: usize = 0;
        while k < ports.len()
            invariant
                k <= ports@.len(),
                r@ == (before + ports@.take(k as int)).to_set(),
            decreases ports@.len() - k,
        {
            let p = ports[k];
            r.insert(p);
            proof {
                let s = before + ports@.take(k as int);
                assert(before + ports@.take(k + 1) =~= s.push(p));
                assert(s.push(p).to_set() =~= s.to_set().insert(p)) by {
                    assert forall|x: u16| s.push(p).to_set().contains(x) <==> s.to_set().insert(
                        p,
                    ).contains(x) by {
                        if s.push(p).contains(x) && x != p {
                            let w = choose|w: int| 0 <= w < s.push(p).len() && s.push(p)[w] == x;
                            assert(s[w] == x);
                        }
                        if s.contains(x) {
                            let w = choose|w: int| 0 <= w < s.len() && s[w] == x;
                            assert(s.push(p)[w] == x);
                        }
                        if x == p {
                            assert(s.push(p)[s.len() as int] == p);
                        }
                    }
                }
            }
            k += 1;
        }
        proof {
            assert(ports@.take(k as int) =~= ports@);
            let ls = live@;
            let f = |c: SshConnection| local_ports_of(c.port_forwards@);
            assert(ls.take(i + 1) =~= ls.take(i as int).push(ls[i as int]));
            assert(ls.take(i + 1).map_values(f) =~= ls.take(i as int).map_values(f).push(
                f(ls[i as int]),
            ));
            ls.take(i as int).map_values(f).lemma_flatten_push(f(ls[i as int]));
        }
        i += 1;
    }
    assert(live@.take(i as int) =~= live@);
    r
}

/// Removes the forwarding rules whose local port is already bound, keeping
/// the others in order, so that a second tab of a connection opens cleanly.
pub fn drop_bound_forwards(conn: &mut SshConnection, bound: &HashSet<u16>)
    ensures
        final(conn).port_forwards@ == old(conn).port_forwards@.filter(
            |f: PortForward| !bound@.contains(f.local_port),
        ),
        forall|k: int|
            0 <= k < final(conn).port_forwards@.len() ==> !bound@.contains(
                (#[trigger] final(conn).port_forwards@[k]).local_port,
            ),
        final(conn).id == old(conn).id,
        final(conn).name == old(conn).name,
        final(conn).host == old(conn).host,
        final(conn).port == old(conn).port,
        final(conn).username == old(conn).username,
        final(conn).auth == old(conn).auth,
        final(conn).mounts@ == old(conn).mounts@,
        final(conn).persistent == old(conn).persistent,
        final(conn).tmux_session == old(conn).tmux_session,
        final(conn).log_session == old(conn).log_session,
        final(conn).save_password == old(conn).save_password,
        final(conn).favorite == old(conn).favorite,
        final(conn).last_used == old(conn).last_used,
        final(conn).description == old(conn).description,
        final(conn).group == old(conn).group,
{
    broadcast use vstd::std_specs::hash::group_hash_axioms;

    let ghost pred = |f: PortForward| !bound@.contains(f.local_port);
    let mut kept: Vec<PortForward> = Vec::new();
    let mut i: usize = 0;
    while i < conn.port_forwards.len()
        invariant
            i <= conn.port_forwards@.len(),
            pred == (|f: PortForward| !bound@.contains(f.local_port)),
            kept@ == conn.port_forwards@.take(i as int).filter(pred),
        decreases conn.port_forwards@.len() - i,
    {
        let f = &conn.port_forwards[i];
        let found = bound.contains(&f.local_port);
        proof {
            let s = conn.port_forwards@.take(i + 1);
            assert(s.drop_last() =~= conn.port_forwards@.take(i as int));
            assert(s.last() == *f);
            reveal_with_fuel(Seq::<_>::filter, 1);
        }
        if !found {
            kept.push(f.clone());
        }
        i += 1;
    }
    assert(conn.port_forwards@.take(i as int) =~= conn.port_forwards@);
    proof {
        assert forall|k: int| 0 <= k < kept@.len() implies !bound@.contains(
            (#[trigger] kept@[k]).local_port,
        ) by {
            conn.port_forwards@.lemma_filter_pred(pred, k);
        }
    }
    conn.port_forwards = kept;
}

/// Whether a session of `conn` is logged: the connection's own setting, or
/// the global one where it has none.
pub fn should_log(conn: &SshConnection, global: bool) -> (r: bool)
    ensures
        r == match conn.log_session {
            Some(b) => b,
            None => global,
        },
{
    match conn.log_session {
        Some(b) => b,
        None => global,
    }
}

/// Whether a mount is mounted when its connection opens: marked for
/// auto-mounting, with both paths given.
pub open spec fn mounts_on_connect(m: SshMount) -> bool {
    m.auto_mount && trim(m.remote_path@).len() > 0 && trim(m.local_path@).len() > 0
}

/// The indices of the mounts mounted when `conn` opens, in order.
pub fn auto_mount_indices(conn: &SshConnection) -> (r: Vec<usize>)
    ensures
        r@ == crate::ui::sidebar::index_range(conn.mounts@.len()).filter(
            |i: usize| mounts_on_connect(conn.mounts@[i as int]),
        ),
{
    let ghost pred = |i: usize| mounts_on_connect(conn.mounts@[i as int]);
    let n = conn.mounts.len();
    let mut r: Vec<usize> = Vec::new();
    let mut i: usize = 0;
    while i < n
        invariant
            n == conn.mounts@.len(),
            i <= n,
            pred == (|i: usize| mounts_on_connect(conn.mounts@[i as int])),
            r@ == crate::ui::sidebar::index_range(n as nat).take(i as int).filter(pred),
        decreases n - i,
    {
        let m = &conn.mounts[i];
        let rc = chars_of(m.remote_path.as_str());
        let rt = trim_chars(&rc);
        let lc = chars_of(m.local_path.as_str());
        let lt = trim_chars(&lc);
        proof {
            let s = crate::ui::sidebar::index_range(n as nat).take(i + 1);
            assert(s.drop_last() =~= crate::ui::sidebar::index_range(n as nat).take(i as int));
            assert(s.last() == i);
            reveal_with_fuel(Seq::<_>::filter, 1);
        }
        if m.auto_mount && rt.len() > 0 && lt.len() > 0 {
            r.push(i);
        }
        i += 1;
    }
    assert(crate::ui::sidebar::index_range(n as nat).take(n as int)
        =~= crate::ui::sidebar::index_range(n as nat));
    r
}

/// Position of the first connection whose id reads `id`, or -1.
pub open spec fn first_with_id(conns: Seq<SshConnection>, id: Seq<char>) -> int
    decreases conns.len(),
{
    if conns.len() == 0 {
        -1
    } else {
        let r = first_with_id(conns.drop_last(), id);
        if r >= 0 {
            r
        } else if conns.last().id@ == id {
            conns.len() - 1
        } else {
            -1
        }
    }
}

proof fn lemma_first_with_id(conns: Seq<SshConnection>, id: Seq<char>)
    ensures
        -1 <= first_with_id(conns, id) < conns.len(),
        first_with_id(conns, id) >= 0 ==> conns[first_with_id(conns, id)].id@ == id,
        forall|k: int|
            0 <= k < conns.len() && (first_with_id(conns, id) < 0 || k < first_with_id(conns, id))
                ==> (#[trigger] conns[k]).id@ != id,
    decreases conns.len(),
{
    if conns.len() > 0 {
        lemma_first_with_id(conns.drop_last(), id);
        assert forall|k: int|
            0 <= k < conns.len() && (first_with_id(conns, id) < 0 || k < first_with_id(conns, id))
                implies (#[trigger] conns[k]).id@ != id by {
            if k < conns.len() - 1 {
                assert(conns[k] == conns.drop_last()[k]);
            }
        }
    }
}

/// Saves `conn` into the list: it replaces the connection with the same id,
/// or is appended where there is none.
pub fn upsert_connection(conns: &mut Vec<SshConnection>, conn: SshConnection)
    ensures
        first_with_id(old(conns)@, conn.id@) >= 0 ==> final(conns)@ == old(conns)@.update(
            first_with_id(old(conns)@, conn.id@),
            conn,
        ),
        first_with_id(old(conns)@, conn.id@) < 0 ==> final(conns)@ == old(conns)@.push(conn),
{
    let n = conns.len();
    let mut i: usize = 0;
    proof {
        lemma_first_with_id(conns@, conn.id@);
    }
    while i < n
        invariant
            n == conns@.len(),
            conns@ == old(conns)@,
            i <= n,
            -1 <= first_with_id(conns@, conn.id@) < n,
            first_with_id(conns@, conn.id@) >= 0 ==> conns@[first_with_id(conns@, conn.id@)].id@
                == conn.id@,
            forall|k: int|
                0 <= k < n && (first_with_id(conns@, conn.id@) < 0 || k < first_with_id(
                    conns@,
                    conn.id@,
                )) ==> (#[trigger] conns@[k]).id@ != conn.id@,
            forall|k: int| 0 <= k < i ==> (#[trigger] conns@[k]).id@ != conn.id@,
        decreases n - i,
    {
        if str_eq(conns[i].id.as_str(), conn.id.as_str()) {
            conns.set(i, conn);
            return;
        }
        i += 1;
    }
    conns.push(conn);
}

/// After saving a connection, looking its id up finds exactly what was
/// saved.
pub proof fn lemma_upsert_then_lookup(
    before: Seq<SshConnection>,
    after: Seq<SshConnection>,
    conn: SshConnection,
)
    requires
        first_with_id(before, conn.id@) >= 0 ==> after == before.update(
            first_with_id(before, conn.id@),
            conn,
        ),
        first_with_id(before, conn.id@) < 0 ==> after == before.push(conn),
    ensures
        first_with_id(after, conn.id@) >= 0,
        after[first_with_id(after, conn.id@)] == conn,
        after.len() == before.len() + (if first_with_id(before, conn.id@) >= 0 {
            0int
        } else {
            1int
        }),
{
    lemma_first_with_id(before, conn.id@);
    lemma_first_with_id(after, conn.id@);
    let p = first_with_id(before, conn.id@);
    let q = first_with_id(after, conn.id@);
    if p >= 0 {
        if q < 0 || q > p {
            assert(after[p].id@ == conn.id@);
        }
        if q < p {
            assert(after[q] == before[q]);
        }
    } else {
        let m = before.len() as int;
        if q < 0 || q > m {
            assert(after[m].id@ == conn.id@);
        }
        if q < m {
            assert(after[q] == before[q]);
        }
    }
}

/// Whether a session with connection id `x` is open on the connection `id`.
pub open spec fn is_session_of(x: Option<String>, id: Seq<char>) -> bool {
    match x {
        Some(t) => t@ == id,
        None => false,
    }
}

/// Index of the first session open on the connection with id `id`, given
/// each session's connection id (`None` for a local shell).
pub fn find_session_for(session_conn_ids: &Vec<Option<String>>, id: &str) -> (r: Option<usize>)
    ensures
        match r {
            Some(k) => {
                &&& k < session_conn_ids@.len()
                &&& is_session_of(session_conn_ids@[k as int], id@)
                &&& forall|j: int|
                    0 <= j < k ==> !is_session_of(#[trigger] session_conn_ids@[j], id@)
            },
            None => forall|j: int|
                0 <= j < session_conn_ids@.len() ==> !is_session_of(
                    #[trigger] session_conn_ids@[j],
                    id@,
                ),
        },
{
    let mut i: usize = 0;
    while i < session_conn_ids.len()
        invariant
            i <= session_conn_ids@.len(),
            forall|j: int| 0 <= j < i ==> !is_session_of(#[trigger] session_conn_ids@[j], id@),
        decreases session_conn_ids@.len() - i,
    {
        match &session_conn_ids[i] {
            Some(s) => {
                if str_eq(s.as_str(), id) {
                    return Some(i);
                }
            },
            None => {},
        }
        i += 1;
    }
    None
}

/// The command typed into a local shell to install the user's key on the
/// server: `ssh-copy-id -p <port> <user>@<host>` and a carriage return.
pub open spec fn copy_id_command_of(conn: SshConnection) -> Seq<char> {
    "ssh-copy-id -p "@ + dec_str(conn.port as nat) + seq![' '] + conn.username@ + seq!['@']
        + conn.host@ + seq!['\r']
}

/// The command typed into a local shell to install the user's key on the
/// server.
pub fn ssh_copy_id_command(conn: &SshConnection) -> (r: String)
    ensures
        r@ == copy_id_command_of(*conn),
{
    let mut v = chars_of("ssh-copy-id -p ");
    push_decimal(&mut v, conn.port as u64);
    v.push(' ');
    push_str(&mut v, conn.username.as_str());
    v.push('@');
    push_str(&mut v, conn.host.as_str());
    v.push('\r');
    assert(v@ =~= copy_id_command_of(*conn));
    string_from_chars(&v)
}

/// Flips connection `i`'s favourite mark.
pub fn toggle_favorite(conns: &mut Vec<SshConnection>, i: usize)
    requires
        i < old(conns)@.len(),
    ensures
        final(conns)@.len() == old(conns)@.len(),
        forall|j: int| 0 <= j < old(conns)@.len() && j != i ==> final(conns)@[j] == old(conns)@[j],
        final(conns)@[i as int].same(
            (SshConnection { favorite: !old(conns)@[i as int].favorite, ..old(conns)@[i as int] }),
        ),
{
    let mut c = conns[i].clone();
    c.favorite = !c.favorite;
    conns.set(i, c);
}

/// The active tab once a tab has been closed and `remaining` tabs are left:
/// it stays, unless it now points past the last tab, which then becomes
/// active.
pub open spec fn active_after_close_of(active: usize, remaining: usize) -> usize {
    if active >= remaining && remaining > 0 {
        (remaining - 1) as usize
    } else {
        active
    }
}

/// The active tab once a tab has been closed and `remaining` tabs are left.
pub fn active_after_close(active: usize, remaining: usize) -> (r: usize)
    ensures
        r == active_after_close_of(active, remaining),
{
    if active >= remaining && remaining > 0 {
        remaining - 1
    } else {
        active
    }
}

/// The active tab index brought back into the `len` open tabs.
pub fn clamp_active(active: usize, len: usize) -> (r: usize)
    requires
        len > 0,
    ensures
        r == (if active >= len {
            (len - 1) as usize
        } else {
            active
        }),
        r < len,
{
    if active >= len {
        len - 1
    } else {
        active
    }
}

/// Closing a tab keeps the active tab among the remaining tabs: where the
/// active index pointed at one of the tabs before, it points at one after,
/// as long as any tab is left.
pub proof fn lemma_close_keeps_active_in_range(active: usize, before: usize)
    requires
        active < before,
        before > 1,
    ensures
        active_after_close_of(active, (before - 1) as usize) < before - 1,
{
}

/// The install hint for sshfs: macFUSE and sshfs-mac through Homebrew on
/// macOS, the `sshfs` package through apt elsewhere.
pub open spec fn sshfs_install_hint(macos: bool) -> Seq<char> {
    if macos {
        "brew install --cask macfuse && brew install gromgit/fuse/sshfs-mac"@
    } else {
        "sudo apt install sshfs"@
    }
}

/// The error shown for an auto-mount when sshfs is not installed.
pub open spec fn sshfs_missing_text(remote_path: Seq<char>, macos: bool) -> Seq<char> {
    "sshfs not installed — cannot mount "@ + remote_path + ". Install: "@ + sshfs_install_hint(macos)
}

/// The error shown for an auto-mount of `remote_path` when sshfs is not
/// installed, with the install hint for the platform.
pub fn sshfs_missing_message(remote_path: &str, macos: bool) -> (r: String)
    ensures
        r@ == sshfs_missing_text(remote_path@, macos),
{
    let mut v = chars_of("sshfs not installed — cannot mount ");
    push_str(&mut v, remote_path);
    push_str(&mut v, ". Install: ");
    if macos {
        push_str(&mut v, "brew install --cask macfuse && brew install gromgit/fuse/sshfs-mac");
    } else {
        push_str(&mut v, "sudo apt install sshfs");
    }
    assert(v@ =~= sshfs_missing_text(remote_path@, macos));
    string_from_chars(&v)
}

} // verus!
