//! The command preview read back by the SSH command import: the preview of a
//! form imports back to the form's user name, host, port and key file.
use vstd::prelude::*;

use crate::models::{forward_args, ForwardKind, PortForward};
use crate::ssh_parse::{
    find_char, inert_token, is_value_flag, lemma_find_char_bound, lemma_scan_inert_tail,
    lemma_scan_value_flag, parse_ssh, scan, strip_ssh,
};
use crate::text::{
    dec_str, has_no_ws, is_word, join, lemma_dec_str, lemma_join_append, lemma_join_cons,
    lemma_join_words_ends, lemma_parse_dec_str, lemma_split_join_words, lemma_trim_unchanged,
    parse_u16_or, split_ws, trim,
};
use crate::ui::dialog::{preview_parts, preview_tmux, preview_user, ssh_preview, ConnForm};

verus! {

/// The words of the command preview as `split_whitespace` reads them back:
/// its parts, with the quoted tmux command of a persistent connection split
/// at its spaces.
pub open spec fn preview_words(f: ConnForm) -> Seq<Seq<char>> {
    let p = preview_parts(f);
    if f.persistent {
        p.drop_last() + seq![
            seq!['"'] + "tmux"@,
            "new-session"@,
            "-A"@,
            "-s"@,
            preview_tmux(f) + seq!['"'],
        ]
    } else {
        p
    }
}

/// Whether the form's preview reads back as it was written: host, user name,
/// key file, the hosts of local forwarding rules and the tmux session name
/// hold no whitespace, the user name holds no `@`, and neither the user name
/// nor the tmux session name starts with `-`.
pub open spec fn preview_reimportable(f: ConnForm) -> bool {
    &&& trim(f.host@).len() > 0
    &&& has_no_ws(trim(f.host@))
    &&& has_no_ws(preview_user(f))
    &&& !preview_user(f).contains('@')
    &&& preview_user(f)[0] != '-'
    &&& (f.auth_label@ == "Key File"@ ==> has_no_ws(trim(f.key_path@)))
    &&& forall|k: int|
        0 <= k < f.port_forwards@.len() && (#[trigger] f.port_forwards@[k]).kind
            == ForwardKind::Local ==> has_no_ws(f.port_forwards@[k].remote_host@)
    &&& (f.persistent ==> has_no_ws(preview_tmux(f)) && preview_tmux(f)[0] != '-')
}

/// What importing the form's preview gives: the user name shown, the trimmed
/// host, the port, and the key file where the form uses one.
pub open spec fn preview_import(f: ConnForm) -> (Seq<char>, Seq<char>, u16, Option<Seq<char>>) {
    (
        preview_user(f),
        trim(f.host@),
        parse_u16_or(f.port@, 22),
        if f.auth_label@ == "Key File"@ && trim(f.key_path@).len() > 0 {
            Some(trim(f.key_path@))
        } else {
            None
        },
    )
}

proof fn lemma_forward_args_cons(fwds: Seq<PortForward>)
    requires
        fwds.len() > 0,
    ensures
        forward_args(fwds) == fwds[0].args_of() + forward_args(fwds.drop_first()),
{
    let m = fwds.map_values(|f: PortForward| f.args_of());
    assert(m.drop_first() =~= fwds.drop_first().map_values(|f: PortForward| f.args_of()));
    assert(m.first() == fwds[0].args_of());
}

proof fn lemma_dec_str_word(n: nat)
    ensures
        is_word(dec_str(n)),
{
    lemma_dec_str(n);
}

proof fn lemma_forward_args_words(fwds: Seq<PortForward>)
    requires
        forall|k: int|
            0 <= k < fwds.len() && (#[trigger] fwds[k]).kind == ForwardKind::Local ==> has_no_ws(
                fwds[k].remote_host@,
            ),
    ensures
        forall|k: int| 0 <= k < forward_args(fwds).len() ==> is_word(#[trigger] forward_args(fwds)[k]),
    decreases fwds.len(),
{
    if fwds.len() > 0 {
        lemma_forward_args_cons(fwds);
        let f = fwds[0];
        let rest = fwds.drop_first();
        assert forall|k: int|
            0 <= k < rest.len() && (#[trigger] rest[k]).kind == ForwardKind::Local implies has_no_ws(
            rest[k].remote_host@,
        ) by {
            assert(rest[k] == fwds[k + 1]);
        }
        lemma_forward_args_words(rest);
        let a = f.args_of();
        reveal_strlit("-L");
        reveal_strlit("-R");
        reveal_strlit("-D");
        reveal_strlit(":localhost:");
        lemma_dec_str_word(f.local_port as nat);
        lemma_dec_str_word(f.remote_port as nat);
        assert(is_word(a[0]));
        assert(is_word(a[1])) by {
            let v = a[1];
            match f.kind {
                ForwardKind::Local => {
                    assert(fwds[0].kind == ForwardKind::Local);
                    assert forall|i: int| 0 <= i < v.len() implies !crate::text::is_ws(#[trigger] v[i]) by {
                        let l = dec_str(f.local_port as nat);
                        let h = f.remote_host@;
                        if i < l.len() {
                            assert(v[i] == l[i]);
                        } else if i == l.len() {
                        } else if i < l.len() + 1 + h.len() {
                            assert(v[i] == h[i - l.len() - 1]);
                        } else if i == l.len() + 1 + h.len() {
                        } else {
                            assert(v[i] == dec_str(f.remote_port as nat)[i - l.len() - 2 - h.len()]);
                        }
                    }
                },
                ForwardKind::Remote => {
                    assert forall|i: int| 0 <= i < v.len() implies !crate::text::is_ws(#[trigger] v[i]) by {
                        let r = dec_str(f.remote_port as nat);
                        let m = ":localhost:"@;
                        if i < r.len() {
                            assert(v[i] == r[i]);
                        } else if i < r.len() + m.len() {
                            assert(v[i] == m[i - r.len()]);
                        } else {
                            assert(v[i] == dec_str(f.local_port as nat)[i - r.len() - m.len()]);
                        }
                    }
                },
                ForwardKind::Dynamic => {},
            }
        }
        let all = forward_args(fwds);
        assert forall|k: int| 0 <= k < all.len() implies is_word(#[trigger] all[k]) by {
            if k < 2 {
                assert(all[k] == a[k]);
            } else {
                assert(all[k] == forward_args(rest)[k - 2]);
            }
        }
    }
}

proof fn lemma_scan_skips_forwards(
    toks: Seq<Seq<char>>,
    i: int,
    fwds: Seq<PortForward>,
    port: u16,
    key: Option<Seq<char>>,
    dest: Option<Seq<char>>,
)
    requires
        0 <= i,
        i + forward_args(fwds).len() < toks.len(),
        toks.subrange(i, i + forward_args(fwds).len()) == forward_args(fwds),
    ensures
        scan(toks, i, port, key, dest) == scan(toks, i + forward_args(fwds).len(), port, key, dest),
    decreases fwds.len(),
{
    if fwds.len() > 0 {
        lemma_forward_args_cons(fwds);
        let a = fwds[0].args_of();
        let rest = forward_args(fwds.drop_first());
        let n = forward_args(fwds).len();
        assert(toks[i] == a[0]) by {
            assert(toks.subrange(i, i + n)[0] == forward_args(fwds)[0]);
        }
        reveal_strlit("-L");
        reveal_strlit("-R");
        reveal_strlit("-D");
        assert(is_value_flag(toks[i]));
        lemma_scan_value_flag(toks, i, port, key, dest);
        assert(toks.subrange(i + 2, i + 2 + rest.len()) =~= rest) by {
            assert forall|k: int| 0 <= k < rest.len() implies #[trigger] toks.subrange(
                i + 2,
                i + 2 + rest.len(),
            )[k] == rest[k] by {
                assert(toks.subrange(i, i + n)[k + 2] == forward_args(fwds)[k + 2]);
            }
        }
        lemma_scan_skips_forwards(toks, i + 2, fwds.drop_first(), port, key, dest);
    }
}

/// The tokens after `ssh` that the import scans, piece by piece.
spec fn tail_tokens(f: ConnForm) -> Seq<Seq<char>> {
    preview_words(f).drop_first()
}

proof fn lemma_preview_words_shape(f: ConnForm)
    requires
        trim(f.host@).len() > 0,
    ensures
        join(preview_parts(f), seq![' ']) == join(preview_words(f), seq![' ']),
        preview_words(f).len() > 1,
        preview_words(f)[0] == "ssh"@,
{
    let p = preview_parts(f);
    assert(p[0] == "ssh"@);
    if f.persistent {
        let q = p.last();
        let dl = p.drop_last();
        let w5 = seq![
            seq!['"'] + "tmux"@,
            "new-session"@,
            "-A"@,
            "-s"@,
            preview_tmux(f) + seq!['"'],
        ];
        assert(p =~= dl + seq![q]);
        lemma_join_append(dl, seq![q], seq![' ']);
        lemma_join_append(dl, w5, seq![' ']);
        reveal_strlit("tmux new-session -A -s ");
        reveal_strlit("tmux");
        reveal_strlit("new-session");
        reveal_strlit("-A");
        reveal_strlit("-s");
        assert(join(w5, seq![' ']) =~= q) by {
            reveal_with_fuel(join, 6);
            assert(w5.drop_last().drop_last().drop_last().drop_last() =~= seq![w5[0]]);
            assert(w5.drop_last().drop_last().drop_last() =~= seq![w5[0], w5[1]]);
            assert(w5.drop_last().drop_last() =~= seq![w5[0], w5[1], w5[2]]);
            assert(w5.drop_last() =~= seq![w5[0], w5[1], w5[2], w5[3]]);
        }
        assert(join(seq![q], seq![' ']) == q);
        assert(dl[0] == "ssh"@);
    }
}


spec fn port_part(f: ConnForm) -> Seq<Seq<char>> {
    let port = parse_u16_or(f.port@, 22);
    if port != 22 {
        seq!["-p"@, dec_str(port as nat)]
    } else {
        seq![]
    }
}

spec fn key_part(f: ConnForm) -> Seq<Seq<char>> {
    if f.auth_label@ == "Key File"@ && trim(f.key_path@).len() > 0 {
        seq!["-i"@, trim(f.key_path@)]
    } else {
        seq![]
    }
}

spec fn dest_of(f: ConnForm) -> Seq<char> {
    preview_user(f) + seq!['@'] + trim(f.host@)
}

spec fn tmux_words(f: ConnForm) -> Seq<Seq<char>> {
    seq![seq!['"'] + "tmux"@, "new-session"@, "-A"@, "-s"@, preview_tmux(f) + seq!['"']]
}

spec fn dest_part(f: ConnForm) -> Seq<Seq<char>> {
    if f.persistent {
        seq!["-t"@, dest_of(f)] + tmux_words(f)
    } else {
        seq![dest_of(f)]
    }
}

proof fn lemma_tail_tokens(f: ConnForm)
    ensures
        tail_tokens(f) == port_part(f) + key_part(f) + forward_args(f.port_forwards@) + dest_part(f),
{
    let t = port_part(f) + key_part(f) + forward_args(f.port_forwards@) + dest_part(f);
    let p = preview_parts(f);
    if f.persistent {
        assert(p.drop_last() =~= seq!["ssh"@] + port_part(f) + key_part(f) + forward_args(
            f.port_forwards@,
        ) + seq!["-t"@, dest_of(f)]);
    } else {
        assert(p =~= seq!["ssh"@] + t);
    }
    assert(preview_words(f) =~= seq!["ssh"@] + t);
    assert(tail_tokens(f) =~= t);
}


proof fn lemma_concat_words(a: Seq<Seq<char>>, b: Seq<Seq<char>>)
    requires
        forall|k: int| 0 <= k < a.len() ==> is_word(#[trigger] a[k]),
        forall|k: int| 0 <= k < b.len() ==> is_word(#[trigger] b[k]),
    ensures
        forall|k: int| 0 <= k < (a + b).len() ==> is_word(#[trigger] (a + b)[k]),
{
    assert forall|k: int| 0 <= k < (a + b).len() implies is_word(#[trigger] (a + b)[k]) by {
        if k < a.len() {
            assert((a + b)[k] == a[k]);
        } else {
            assert((a + b)[k] == b[k - a.len()]);
        }
    }
}

proof fn lemma_tail_words(f: ConnForm)
    requires
        preview_reimportable(f),
    ensures
        forall|k: int| 0 <= k < tail_tokens(f).len() ==> is_word(#[trigger] tail_tokens(f)[k]),
{
    lemma_tail_tokens(f);
    reveal_strlit("-p");
    reveal_strlit("-i");
    reveal_strlit("-t");
    reveal_strlit("tmux");
    reveal_strlit("new-session");
    reveal_strlit("-A");
    reveal_strlit("-s");
    lemma_dec_str_word(parse_u16_or(f.port@, 22) as nat);
    let pp = port_part(f);
    let kp = key_part(f);
    let fa = forward_args(f.port_forwards@);
    let dp = dest_part(f);
    assert forall|k: int| 0 <= k < pp.len() implies is_word(#[trigger] pp[k]) by {}
    assert forall|k: int| 0 <= k < kp.len() implies is_word(#[trigger] kp[k]) by {}
    lemma_forward_args_words(f.port_forwards@);
    let d = dest_of(f);
    let u = preview_user(f);
    let h = trim(f.host@);
    reveal_strlit("user");
    assert(u.len() > 0);
    assert(is_word(d)) by {
        assert forall|i: int| 0 <= i < d.len() implies !crate::text::is_ws(#[trigger] d[i]) by {
            if i < u.len() {
                assert(d[i] == u[i]);
            } else if i > u.len() {
                assert(d[i] == h[i - u.len() - 1]);
            }
        }
    }
    if f.persistent {
        let n = preview_tmux(f);
        reveal_strlit("shellkeeper-xxxx");
        assert(n.len() > 0);
        assert(is_word(n + seq!['"'])) by {
            assert forall|i: int| 0 <= i < (n + seq!['"']).len() implies !crate::text::is_ws(
                #[trigger] (n + seq!['"'])[i],
            ) by {
                if i < n.len() {
                    assert((n + seq!['"'])[i] == n[i]);
                }
            }
        }
        assert(is_word(seq!['"'] + "tmux"@)) by {
            let w = seq!['"'] + "tmux"@;
            assert forall|i: int| 0 <= i < w.len() implies !crate::text::is_ws(#[trigger] w[i]) by {
                if i > 0 {
                    assert(w[i] == "tmux"@[i - 1]);
                }
            }
        }
    }
    assert forall|k: int| 0 <= k < dp.len() implies is_word(#[trigger] dp[k]) by {}
    lemma_concat_words(pp, kp);
    lemma_concat_words(pp + kp, fa);
    lemma_concat_words(pp + kp + fa, dp);
}


proof fn lemma_scan_tail(f: ConnForm)
    requires
        preview_reimportable(f),
    ensures
        scan(tail_tokens(f), 0, 22, None, None) == (
            parse_u16_or(f.port@, 22),
            preview_import(f).3,
            Some(dest_of(f)),
        ),
{
    lemma_tail_tokens(f);
    let t = tail_tokens(f);
    let pp = port_part(f);
    let kp = key_part(f);
    let fa = forward_args(f.port_forwards@);
    let dp = dest_part(f);
    let port = parse_u16_or(f.port@, 22);
    let key = preview_import(f).3;
    reveal_strlit("-p");
    reveal_strlit("-i");
    reveal_strlit("-t");
    reveal_strlit("-A");
    reveal_strlit("-s");
    reveal_strlit("new-session");
    reveal_strlit("tmux");
    let np = pp.len() as int;
    let nk = kp.len() as int;
    let nf = fa.len() as int;
    assert(scan(t, 0, 22, None, None) == scan(t, np, port, None, None)) by {
        if port != 22 {
            assert(t[0] == "-p"@);
            assert(t[1] == dec_str(port as nat));
            assert("-p"@ =~= seq!['-', 'p']);
            lemma_parse_dec_str(port);
        }
    }
    assert(scan(t, np, port, None, None) == scan(t, np + nk, port, key, None)) by {
        if nk > 0 {
            assert(t[np] == "-i"@);
            assert(t[np + 1] == trim(f.key_path@));
            assert("-i"@ =~= seq!['-', 'i']);
            assert("-i"@ != seq!['-', 'p']) by {
                assert("-i"@[1] != seq!['-', 'p'][1]);
            }
        }
    }
    assert(t.subrange(np + nk, np + nk + nf) =~= fa);
    lemma_scan_skips_forwards(t, np + nk, f.port_forwards@, port, key, None);
    let i = np + nk + nf;
    let d = dest_of(f);
    reveal_strlit("user");
    reveal_strlit("shellkeeper-xxxx");
    assert(preview_user(f).len() > 0);
    assert(preview_tmux(f).len() > 0);
    assert(d[0] == preview_user(f)[0]);
    if f.persistent {
        assert(t[i] == "-t"@);
        assert(t[i + 1] == d);
        let tt = t[i];
        assert(tt.len() == 2 && tt[1] == 't');
        if tt == seq!['-', 'p'] {
            assert(tt[1] == 'p');
        }
        if tt == seq!['-', 'i'] {
            assert(tt[1] == 'i');
        }
        assert(scan(t, i, port, key, None) == scan(t, i + 1, port, key, None));
        assert(scan(t, i + 1, port, key, None) == scan(t, i + 2, port, key, Some(d)));
        let n = preview_tmux(f);
        assert forall|k: int| i + 2 <= k < t.len() implies inert_token(#[trigger] t[k]) by {
            assert(t[k] == tmux_words(f)[k - i - 2]);
            if k == i + 6 {
                assert(t[k][0] == n[0]);
            }
        }
        lemma_scan_inert_tail(t, i + 2, port, key, d);
    } else {
        assert(t[i] == d);
        assert(t.len() == i + 1);
        assert(scan(t, i, port, key, None) == scan(t, i + 1, port, key, Some(d)));
    }
}


/// The command preview of a form imports back to the form's user name, host,
/// port and key file, where these, the hosts of its local forwarding rules
/// and its tmux session name read back as single words.
pub proof fn lemma_preview_imports_back(f: ConnForm, default_user: Seq<char>)
    requires
        preview_reimportable(f),
    ensures
        parse_ssh(ssh_preview(f), default_user) == Some(preview_import(f)),
{
    lemma_preview_words_shape(f);
    lemma_tail_words(f);
    lemma_scan_tail(f);
    reveal_strlit("ssh");
    let w = preview_words(f);
    let t = tail_tokens(f);
    let sp = seq![' '];
    assert(w =~= seq![w[0]] + t);
    assert(t.len() > 0);
    assert forall|k: int| 0 <= k < w.len() implies is_word(#[trigger] w[k]) by {
        if k > 0 {
            assert(w[k] == t[k - 1]);
        }
    }
    lemma_join_cons(w[0], t, sp);
    let raw = ssh_preview(f);
    let jt = join(t, sp);
    assert(raw == join(w, sp));
    lemma_join_words_ends(w);
    lemma_trim_unchanged(raw);
    lemma_join_words_ends(t);
    lemma_trim_unchanged(jt);
    assert(raw == w[0] + sp + jt);
    assert(raw.len() >= 4);
    assert(raw[0] == 's' && raw[1] == 's' && raw[2] == 'h' && raw[3] == ' ');
    assert(raw.skip(4) =~= jt);
    assert(strip_ssh(trim(raw)) == Some(jt));
    lemma_split_join_words(t);
    assert(split_ws(jt) == t);
    let d = dest_of(f);
    let u = preview_user(f);
    reveal_strlit("user");
    assert(d[u.len() as int] == '@');
    lemma_find_char_bound(d, '@');
    let a = find_char(d, '@');
    if 0 <= a < u.len() {
        assert(u[a] == d[a]);
        assert(u.contains('@'));
    }
    assert(a == u.len());
    assert(d.take(a) =~= u);
    assert(d.skip(a + 1) =~= trim(f.host@));
}


} // verus!
