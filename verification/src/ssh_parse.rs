//! Parsing a raw SSH command line (`ssh -p 2222 -i key user@host`) into the
//! fields of a connection.
use vstd::prelude::*;

use crate::host::{expand_tilde, tilde_outcome};
use crate::text::{
    chars_of, parse_u16_exec, parse_u16_or, slice_chars, split_whitespace, split_ws,
    string_from_chars, trim, trim_chars, views,
};

verus! {

/// The parts of a parsed SSH command.
#[derive(Debug, Default)]
pub struct ParsedSsh {
    pub username: String,
    pub host: String,
    pub port: u16,
    pub key_path: Option<String>,
}

/// Whether `c` is `s` in either case.
pub open spec fn is_letter_s(c: char) -> bool {
    c == 's' || c == 'S'
}

/// Whether `c` is `h` in either case.
pub open spec fn is_letter_h(c: char) -> bool {
    c == 'h' || c == 'H'
}

/// The command without a leading `ssh ` (in any case), trimmed again; `None`
/// for the bare word `ssh`. `raw` is already trimmed.
pub open spec fn strip_ssh(raw: Seq<char>) -> Option<Seq<char>> {
    if raw.len() >= 4 && is_letter_s(raw[0]) && is_letter_s(raw[1]) && is_letter_h(raw[2])
        && raw[3] == ' ' {
        Some(trim(raw.skip(4)))
    } else if raw.len() == 3 && is_letter_s(raw[0]) && is_letter_s(raw[1]) && is_letter_h(
        raw[2],
    ) {
        None
    } else {
        Some(raw)
    }
}

/// The letters of the `ssh` options that take a value, which the parser skips.
pub open spec fn is_value_flag_letter(c: char) -> bool {
    c == 'l' || c == 'o' || c == 'b' || c == 'c' || c == 'D' || c == 'E' || c == 'e' || c
        == 'F' || c == 'I' || c == 'J' || c == 'L' || c == 'm' || c == 'O' || c == 'Q' || c
        == 'R' || c == 'S' || c == 'W' || c == 'w'
}

/// Whether `t` is one of the value-taking options whose value is skipped.
pub open spec fn is_value_flag(t: Seq<char>) -> bool {
    t.len() == 2 && t[0] == '-' && is_value_flag_letter(t[1])
}

/// Walks the tokens from index `i` on, with the port, key file and
/// destination found so far; returns them at the end.
///
/// `-p N` and `-pN` set the port (22 where `N` is no valid port), `-i F` and
/// `-iF` set the key file, value-taking options skip their value, other
/// options are ignored, and the first other token is the destination.
pub open spec fn scan(
    toks: Seq<Seq<char>>,
    i: int,
    port: u16,
    key: Option<Seq<char>>,
    dest: Option<Seq<char>>,
) -> (u16, Option<Seq<char>>, Option<Seq<char>>)
    decreases toks.len() - i,
{
    if i < 0 || i >= toks.len() {
        (port, key, dest)
    } else {
        let t = toks[i];
        if t.len() > 0 && t[0] == '-' {
            if t == seq!['-', 'p'] {
                if i + 1 < toks.len() {
                    scan(toks, i + 2, parse_u16_or(toks[i + 1], 22), key, dest)
                } else {
                    (port, key, dest)
                }
            } else if t == seq!['-', 'i'] {
                if i + 1 < toks.len() {
                    scan(toks, i + 2, port, Some(toks[i + 1]), dest)
                } else {
                    (port, key, dest)
                }
            } else if t.len() > 2 && t[1] == 'p' {
                scan(toks, i + 1, parse_u16_or(t.skip(2), 22), key, dest)
            } else if t.len() > 2 && t[1] == 'i' {
                scan(toks, i + 1, port, Some(t.skip(2)), dest)
            } else if is_value_flag(t) {
                if i + 1 < toks.len() {
                    scan(toks, i + 2, port, key, dest)
                } else {
                    (port, key, dest)
                }
            } else {
                scan(toks, i + 1, port, key, dest)
            }
        } else if dest is None {
            scan(toks, i + 1, port, key, Some(t))
        } else {
            scan(toks, i + 1, port, key, dest)
        }
    }
}

/// Whether a token leaves the scan's results alone once the destination is
/// known: no option, or a two-character option that takes no value and is
/// neither `-p` nor `-i`.
pub open spec fn inert_token(t: Seq<char>) -> bool {
    !(t.len() > 0 && t[0] == '-') || (t.len() == 2 && t[1] != 'p' && t[1] != 'i'
        && !is_value_flag_letter(t[1]))
}

/// Inert tokens after the destination change nothing.
pub proof fn lemma_scan_inert_tail(
    toks: Seq<Seq<char>>,
    i: int,
    port: u16,
    key: Option<Seq<char>>,
    d: Seq<char>,
)
    requires
        0 <= i <= toks.len(),
        forall|k: int| i <= k < toks.len() ==> inert_token(#[trigger] toks[k]),
    ensures
        scan(toks, i, port, key, Some(d)) == (port, key, Some(d)),
    decreases toks.len() - i,
{
    if i < toks.len() {
        let t = toks[i];
        assert(inert_token(t));
        if t.len() > 0 && t[0] == '-' {
            if t == seq!['-', 'p'] {
                assert(t[1] == 'p');
            }
            if t == seq!['-', 'i'] {
                assert(t[1] == 'i');
            }
        }
        lemma_scan_inert_tail(toks, i + 1, port, key, d);
    }
}

/// An option that takes a value is skipped together with its value.
pub proof fn lemma_scan_value_flag(
    toks: Seq<Seq<char>>,
    i: int,
    port: u16,
    key: Option<Seq<char>>,
    dest: Option<Seq<char>>,
)
    requires
        0 <= i,
        i + 1 < toks.len(),
        is_value_flag(toks[i]),
    ensures
        scan(toks, i, port, key, dest) == scan(toks, i + 2, port, key, dest),
{
    let t = toks[i];
    if t == seq!['-', 'p'] {
        assert(t[1] == 'p');
    }
    if t == seq!['-', 'i'] {
        assert(t[1] == 'i');
    }
}

/// Every `ssh` option that takes a value is skipped together with its value,
/// wherever it stands: the value is never taken for the destination, the
/// port or the key file. So `-X v d` gives the destination `d`, with the
/// port at 22 and no key file, for each such letter `X` and every value `v`.
/// The letters are those of `-l`, `-o`, `-b`, `-c`, `-D`, `-E`, `-e`, `-F`,
/// `-I`, `-J`, `-L`, `-m`, `-O`, `-Q`, `-R`, `-S`, `-W` and `-w`.
pub proof fn lemma_value_options_skip_their_value(
    toks: Seq<Seq<char>>,
    i: int,
    x: char,
    port: u16,
    key: Option<Seq<char>>,
    dest: Option<Seq<char>>,
    v: Seq<char>,
    d: Seq<char>,
)
    requires
        x == 'l' || x == 'o' || x == 'b' || x == 'c' || x == 'D' || x == 'E' || x == 'e' || x
            == 'F' || x == 'I' || x == 'J' || x == 'L' || x == 'm' || x == 'O' || x == 'Q' || x
            == 'R' || x == 'S' || x == 'W' || x == 'w',
        0 <= i,
        i + 1 < toks.len(),
        toks[i] == seq!['-', x],
        !(d.len() > 0 && d[0] == '-'),
    ensures
        scan(toks, i, port, key, dest) == scan(toks, i + 2, port, key, dest),
        scan(seq![seq!['-', x], v, d], 0, 22, None, None) == (22u16, None::<Seq<char>>, Some(d)),
{
    lemma_scan_value_flag(toks, i, port, key, dest);
    let t = seq![seq!['-', x], v, d];
    lemma_scan_value_flag(t, 0, 22, None, None);
    assert(t[2] == d);
    assert(scan(t, 3, 22, None, Some(d)) == (22u16, None::<Seq<char>>, Some(d)));
}

/// `-p N` sets the port to `N` (22 where `N` is no valid port) and `-i F` sets
/// the key file to `F`, each value taken from the next token; the first word
/// that is no option is the destination, and later words leave it alone. So
/// `-p N -i F d` gives the port `N`, the key file `F` and the destination `d`.
pub proof fn lemma_port_key_and_destination(
    toks: Seq<Seq<char>>,
    i: int,
    port: u16,
    key: Option<Seq<char>>,
    dest: Option<Seq<char>>,
    n: Seq<char>,
    f: Seq<char>,
    d: Seq<char>,
)
    requires
        0 <= i < toks.len(),
        !(d.len() > 0 && d[0] == '-'),
    ensures
        toks[i] == seq!['-', 'p'] && i + 1 < toks.len() ==> scan(toks, i, port, key, dest) == scan(
            toks,
            i + 2,
            parse_u16_or(toks[i + 1], 22),
            key,
            dest,
        ),
        toks[i] == seq!['-', 'i'] && i + 1 < toks.len() ==> scan(toks, i, port, key, dest) == scan(
            toks,
            i + 2,
            port,
            Some(toks[i + 1]),
            dest,
        ),
        !(toks[i].len() > 0 && toks[i][0] == '-') && dest is None ==> scan(toks, i, port, key, dest)
            == scan(toks, i + 1, port, key, Some(toks[i])),
        !(toks[i].len() > 0 && toks[i][0] == '-') && dest is Some ==> scan(toks, i, port, key, dest)
            == scan(toks, i + 1, port, key, dest),
        scan(seq![seq!['-', 'p'], n, seq!['-', 'i'], f, d], 0, 22, None, None) == (
            parse_u16_or(n, 22),
            Some(f),
            Some(d),
        ),
{
    let t = seq![seq!['-', 'p'], n, seq!['-', 'i'], f, d];
    assert(t[0] == seq!['-', 'p']);
    assert(t[2] == seq!['-', 'i']);
    assert(t[4] == d);
    assert(scan(t, 5, parse_u16_or(n, 22), Some(f), Some(d)) == (
        parse_u16_or(n, 22),
        Some(f),
        Some(d),
    ));
    assert(scan(t, 4, parse_u16_or(n, 22), Some(f), None) == (parse_u16_or(n, 22), Some(f), Some(d)));
    assert(scan(t, 2, parse_u16_or(n, 22), None, None) == (parse_u16_or(n, 22), Some(f), Some(d)));
}

/// Index of the first `c` in `s`, or -1.
pub open spec fn find_char(s: Seq<char>, c: char) -> int
    decreases s.len(),
{
    if s.len() == 0 {
        -1
    } else if s[0] == c {
        0
    } else {
        let r = find_char(s.drop_first(), c);
        if r < 0 {
            -1
        } else {
            r + 1
        }
    }
}

/// What a raw command parses to: user name, host, port and (unexpanded) key
/// file; `None` where no host can be found. `default_user` stands in where the
/// destination names no user.
pub open spec fn parse_ssh(raw: Seq<char>, default_user: Seq<char>) -> Option<
    (Seq<char>, Seq<char>, u16, Option<Seq<char>>),
> {
    let r = trim(raw);
    if r.len() == 0 {
        None
    } else {
        match strip_ssh(r) {
            None => None,
            Some(s) => {
                let toks = split_ws(s);
                if toks.len() == 0 {
                    None
                } else {
                    let st = scan(toks, 0, 22, None, None);
                    match st.2 {
                        None => None,
                        Some(d) => {
                            let a = find_char(d, '@');
                            let user = if a >= 0 {
                                d.take(a)
                            } else {
                                default_user
                            };
                            let host = if a >= 0 {
                                d.skip(a + 1)
                            } else {
                                d
                            };
                            if host.len() == 0 {
                                None
                            } else {
                                Some((user, host, st.0, st.1))
                            }
                        },
                    }
                }
            },
        }
    }
}

/// Whether `p` is the parse result that `parse_ssh` describes, the key file
/// having gone through home-directory expansion.
pub open spec fn parsed_as(
    p: ParsedSsh,
    spec: (Seq<char>, Seq<char>, u16, Option<Seq<char>>),
) -> bool {
    &&& p.username@ == spec.0
    &&& p.host@ == spec.1
    &&& p.port == spec.2
    &&& match spec.3 {
        None => p.key_path is None,
        Some(k) => p.key_path matches Some(kp) && tilde_outcome(k, kp@),
    }
}

pub proof fn lemma_find_char_bound(s: Seq<char>, c: char)
    ensures
        -1 <= find_char(s, c) < s.len(),
        find_char(s, c) >= 0 ==> s[find_char(s, c)] == c,
        forall|k: int| 0 <= k < s.len() && (find_char(s, c) < 0 || k < find_char(s, c)) ==> s[k] != c,
    decreases s.len(),
{
    if s.len() > 0 && s[0] != c {
        lemma_find_char_bound(s.drop_first(), c);
        assert forall|k: int|
            0 <= k < s.len() && (find_char(s, c) < 0 || k < find_char(s, c)) implies s[k] != c by {
            if k > 0 {
                assert(s[k] == s.drop_first()[k - 1]);
            }
        }
    }
}

/// Index of the first `c` in `s`, if any.
fn find_char_exec(s: &Vec<char>, c: char) -> (r: Option<usize>)
    ensures
        match r {
            None => find_char(s@, c) < 0,
            Some(k) => find_char(s@, c) == k,
        },
{
    let mut i: usize = 0;
    assert(s@.skip(0) =~= s@);
    while i < s.len()
        invariant
            i <= s@.len(),
            find_char(s@, c) == (if find_char(s@.skip(i as int), c) < 0 {
                -1
            } else {
                find_char(s@.skip(i as int), c) + i
            }),
        decreases s@.len() - i,
    {
        if s[i] == c {
            return Some(i);
        }
        assert(s@.skip(i as int).drop_first() =~= s@.skip(i + 1));
        i += 1;
    }
    assert(s@.skip(i as int).len() == 0);
    None
}

impl ParsedSsh {
    /// Parses a raw SSH command string. Accepted forms include `ssh user@host`,
    /// `ssh user@host -p 2222`, `ssh -p 2222 user@host`,
    /// `ssh -i ~/.ssh/key.pem user@host`, `user@host`, `host` and
    /// `ssh -p22 root@host`. Where the destination names no user,
    /// `default_user` is taken.
    pub fn parse(raw: &str, default_user: &str) -> (r: Option<ParsedSsh>)
        ensures
            match parse_ssh(raw@, default_user@) {
                None => r is None,
                Some(spec) => r matches Some(p) && parsed_as(p, spec),
            },
    {
        let rc = chars_of(raw);
        let r = trim_chars(&rc);
        if r.len() == 0 {
            return None;
        }
        let s: Vec<char>;
        if r.len() >= 4 && (r[0] == 's' || r[0] == 'S') && (r[1] == 's' || r[1] == 'S') && (r[2]
            == 'h' || r[2] == 'H') && r[3] == ' ' {
            let rest = slice_chars(&r, 4, r.len());
            assert(rest@ =~= r@.skip(4));
            s = trim_chars(&rest);
        } else if r.len() == 3 && (r[0] == 's' || r[0] == 'S') && (r[1] == 's' || r[1] == 'S')
            && (r[2] == 'h' || r[2] == 'H') {
            return None;
        } else {
            s = r;
        }
        assert(strip_ssh(trim(raw@)) == Some(s@));
        let toks = split_whitespace(&s);
        let ghost tv = views(toks@);
        assert(tv == split_ws(s@));
        if toks.len() == 0 {
            return None;
        }
        let n = toks.len();
        let mut port: u16 = 22;
        let mut key: Option<Vec<char>> = None;
        let mut dest: Option<Vec<char>> = None;
        let mut i: usize = 0;
        while i < n
            invariant
                n == toks@.len() == tv.len(),
                tv == views(toks@),
                i <= n,
                scan(tv, 0, 22, None, None) == scan(
                    tv,
                    i as int,
                    port,
                    match key {
                        None => None,
                        Some(k) => Some(k@),
                    },
                    match dest {
                        None => None,
                        Some(d) => Some(d@),
                    },
                ),
            decreases n - i,
        {
            let t = &toks[i];
            assert(t@ == tv[i as int]);
            if t.len() > 0 && t[0] == '-' {
                if t.len() == 2 && t[1] == 'p' {
                    assert(t@ =~= seq!['-', 'p']);
                    if i + 1 < n {
                        port = match parse_u16_exec(&toks[i + 1]) {
                            Some(v) => v,
                            None => 22,
                        };
                        i += 2;
                    } else {
                        i = n;
                    }
                } else if t.len() == 2 && t[1] == 'i' {
                    assert(t@ =~= seq!['-', 'i']);
                    if i + 1 < n {
                        let k = slice_chars(&toks[i + 1], 0, toks[i + 1].len());
                        assert(k@ =~= tv[i + 1]);
                        key = Some(k);
                        i += 2;
                    } else {
                        i = n;
                    }
                } else if t.len() > 2 && t[1] == 'p' {
                    assert(t@ != seq!['-', 'p']);
                    assert(t@ != seq!['-', 'i']);
                    let tail = slice_chars(t, 2, t.len());
                    assert(tail@ =~= t@.skip(2));
                    port = match parse_u16_exec(&tail) {
                        Some(v) => v,
                        None => 22,
                    };
                    i += 1;
                } else if t.len() > 2 && t[1] == 'i' {
                    assert(t@ != seq!['-', 'p']);
                    assert(t@ != seq!['-', 'i']);
                    let tail = slice_chars(t, 2, t.len());
                    assert(tail@ =~= t@.skip(2));
                    key = Some(tail);
                    i += 1;
                } else {
                    assert(t@ != seq!['-', 'p']);
                    assert(t@ != seq!['-', 'i']);
                    let c = if t.len() == 2 { t[1] } else { ' ' };
                    let vf = t.len() == 2 && (c == 'l' || c == 'o' || c == 'b' || c == 'c' || c
                        == 'D' || c == 'E' || c == 'e' || c == 'F' || c == 'I' || c == 'J' || c
                        == 'L' || c == 'm' || c == 'O' || c == 'Q' || c == 'R' || c == 'S' || c
                        == 'W' || c == 'w');
                    assert(vf == is_value_flag(t@));
                    if vf {
                        if i + 1 < n {
                            i += 2;
                        } else {
                            i = n;
                        }
                    } else {
                        i += 1;
                    }
                }
            } else {
                if dest.is_none() {
                    let d = slice_chars(t, 0, t.len());
                    assert(d@ =~= t@);
                    dest = Some(d);
                }
                i += 1;
            }
        }
        let d = match dest {
            None => {
                return None;
            },
            Some(d) => d,
        };
        let user: String;
        let hostc: Vec<char>;
        proof {
            lemma_find_char_bound(d@, '@');
        }
        match find_char_exec(&d, '@') {
            Some(au) => {
                let dl = d.len();
                assert(au < dl);
                let u = slice_chars(&d, 0, au);
                assert(u@ =~= d@.take(au as int));
                user = string_from_chars(&u);
                hostc = slice_chars(&d, au + 1, dl);
                assert(hostc@ =~= d@.skip(au + 1));
            },
            None => {
                user = default_user.to_owned();
                hostc = d;
            },
        }
        if hostc.len() == 0 {
            return None;
        }
        let key_path = match key {
            None => None,
            Some(k) => {
                let ks = string_from_chars(&k);
                Some(expand_tilde(ks.as_str()))
            },
        };
        Some(ParsedSsh { username: user, host: string_from_chars(&hostc), port, key_path })
    }
}

} // verus!
