//! The add / edit connection form: conversion between the form and a
//! connection, SSH command import, and the command preview.
use vstd::prelude::*;

use crate::host::{is_uuid_text, new_uuid_string, tilde_outcome};
use crate::models::{
    auth_view, forward_args, push_forward_args, AuthMethod, PortForward, SshConnection, SshMount,
};
use crate::ssh_parse::{parse_ssh, ParsedSsh};
use crate::text::{
    chars_eq_str, chars_of, dec_str, decimal_chars, join, join_strings, lemma_join_cons, parse_u16_or,
    parse_u16_or_exec, push_all, push_str, str_eq, str_views, string_from_chars, trim, trim_chars,
    trim_str,
};

verus! {

/// In-progress form data for adding or editing a connection.
pub struct ConnForm {
    pub id: String,
    pub name: String,
    pub host: String,
    pub port: String,
    pub username: String,
    pub auth_label: String,
    pub key_path: String,
    pub description: String,
    pub favorite: bool,
    pub ssh_cmd: String,
    pub ssh_cmd_err: String,
    pub port_forwards: Vec<PortForward>,
    pub save_password: bool,
    /// Typed password; never saved with the connection.
    pub password_input: String,
    pub group: String,
    pub persistent: bool,
    pub tmux_session: String,
    /// `None` follows the global logging setting; `Some` overrides it.
    pub log_session: Option<bool>,
    pub mounts: Vec<SshMount>,
}

impl Default for ConnForm {
    fn default() -> (r: Self)
        ensures
            r.is_blank(),
            r.favorite == false,
            r.save_password == false,
            r.persistent == false,
            r.log_session is None,
    {
        ConnForm {
            id: String::new(),
            name: String::new(),
            host: String::new(),
            port: String::new(),
            username: String::new(),
            auth_label: String::new(),
            key_path: String::new(),
            description: String::new(),
            favorite: false,
            ssh_cmd: String::new(),
            ssh_cmd_err: String::new(),
            port_forwards: Vec::new(),
            save_password: false,
            password_input: String::new(),
            group: String::new(),
            persistent: false,
            tmux_session: String::new(),
            log_session: None,
            mounts: Vec::new(),
        }
    }
}

/// The authentication a form's label and key path select: `Password`, a key
/// file with the trimmed path, or the agent for any other label.
pub open spec fn auth_selected(a: AuthMethod, label: Seq<char>, key_path: Seq<char>) -> bool {
    if label == "Password"@ {
        a == AuthMethod::Password
    } else if label == "Key File"@ {
        a matches AuthMethod::Key(p) && p@ == trim(key_path)
    } else {
        a == AuthMethod::Agent
    }
}

/// The label and key path a form shows for an authentication method.
pub open spec fn auth_fields(a: AuthMethod) -> (Seq<char>, Seq<char>) {
    match a {
        AuthMethod::Agent => ("SSH Agent"@, Seq::empty()),
        AuthMethod::Password => ("Password"@, Seq::empty()),
        AuthMethod::Key(p) => ("Key File"@, p@),
    }
}

/// The placeholder user name in the command preview.
pub open spec fn preview_user(f: ConnForm) -> Seq<char> {
    if trim(f.username@).len() == 0 {
        "user"@
    } else {
        trim(f.username@)
    }
}

/// The tmux session name in the command preview.
pub open spec fn preview_tmux(f: ConnForm) -> Seq<char> {
    if trim(f.tmux_session@).len() == 0 {
        "shellkeeper-xxxx"@
    } else {
        trim(f.tmux_session@)
    }
}

/// The words of the command preview, before they are joined by spaces.
pub open spec fn preview_parts(f: ConnForm) -> Seq<Seq<char>> {
    let port = parse_u16_or(f.port@, 22);
    let key = trim(f.key_path@);
    let dest = preview_user(f) + seq!['@'] + trim(f.host@);
    seq!["ssh"@] + (if port != 22 {
        seq!["-p"@, dec_str(port as nat)]
    } else {
        seq![]
    }) + (if f.auth_label@ == "Key File"@ && key.len() > 0 {
        seq!["-i"@, key]
    } else {
        seq![]
    }) + forward_args(f.port_forwards@) + (if f.persistent {
        seq![
            "-t"@,
            dest,
            seq!['"'] + "tmux new-session -A -s "@ + preview_tmux(f) + seq!['"'],
        ]
    } else {
        seq![dest]
    })
}

/// The SSH command the form would run, as previewed; empty while the host is
/// blank.
pub open spec fn ssh_preview(f: ConnForm) -> Seq<char> {
    if trim(f.host@).len() == 0 {
        seq![]
    } else {
        join(preview_parts(f), seq![' '])
    }
}

/// The message shown when an imported command cannot be parsed.
pub open spec fn import_error_text() -> Seq<char> {
    "Could not parse — use: ssh user@host [-p port] [-i key]"@
}

impl ConnForm {
    /// Whether every text field is empty and no rule or mount is listed.
    pub open spec fn is_blank(self) -> bool {
        &&& self.id@.len() == 0
        &&& self.name@.len() == 0
        &&& self.host@.len() == 0
        &&& self.port@.len() == 0
        &&& self.username@.len() == 0
        &&& self.auth_label@.len() == 0
        &&& self.key_path@.len() == 0
        &&& self.description@.len() == 0
        &&& self.ssh_cmd@.len() == 0
        &&& self.ssh_cmd_err@.len() == 0
        &&& self.port_forwards@.len() == 0
        &&& self.password_input@.len() == 0
        &&& self.group@.len() == 0
        &&& self.tmux_session@.len() == 0
        &&& self.mounts@.len() == 0
    }

    /// Whether the form shows the connection `c`, as `from_conn` fills it.
    pub open spec fn shows(self, c: SshConnection) -> bool {
        &&& self.id@ == c.id@
        &&& self.name@ == c.name@
        &&& self.host@ == c.host@
        &&& self.port@ == dec_str(c.port as nat)
        &&& self.username@ == c.username@
        &&& self.auth_label@ == auth_fields(c.auth).0
        &&& self.key_path@ == auth_fields(c.auth).1
        &&& self.description@ == c.description@
        &&& self.favorite == c.favorite
        &&& self.ssh_cmd@.len() == 0
        &&& self.ssh_cmd_err@.len() == 0
        &&& self.port_forwards@ == c.port_forwards@
        &&& self.save_password == c.save_password
        &&& self.password_input@.len() == 0
        &&& self.group@ == c.group@
        &&& self.persistent == c.persistent
        &&& self.tmux_session@ == c.tmux_session@
        &&& self.log_session == c.log_session
        &&& self.mounts@ == c.mounts@
    }

    /// Whether the form holds the required name and host.
    pub open spec fn is_complete(self) -> bool {
        trim(self.name@).len() > 0 && trim(self.host@).len() > 0
    }

    /// Whether `c` is the connection the form describes, as `to_connection`
    /// builds it: text trimmed, port parsed (22 where invalid), the
    /// authentication its label selects, a fresh UUID where the id is empty.
    pub open spec fn describes(self, c: SshConnection) -> bool {
        &&& (if self.id@.len() == 0 {
            is_uuid_text(c.id@)
        } else {
            c.id@ == self.id@
        })
        &&& c.name@ == trim(self.name@)
        &&& c.host@ == trim(self.host@)
        &&& c.port == parse_u16_or(self.port@, 22)
        &&& c.username@ == trim(self.username@)
        &&& auth_selected(c.auth, self.auth_label@, self.key_path@)
        &&& c.favorite == self.favorite
        &&& c.last_used is None
        &&& c.description@ == trim(self.description@)
        &&& c.port_forwards@ == self.port_forwards@
        &&& c.save_password == self.save_password
        &&& c.group@ == trim(self.group@)
        &&& c.persistent == self.persistent
        &&& c.tmux_session@ == trim(self.tmux_session@)
        &&& c.log_session == self.log_session
        &&& c.mounts@ == self.mounts@
    }

    /// The form for a new connection: the default port and user name, agent
    /// authentication, everything else empty.
    pub fn for_new_connection(default_port: u16, default_username: &str) -> (r: Self)
        ensures
            r.port@ == dec_str(default_port as nat),
            r.username@ == default_username@,
            r.auth_label@ == "SSH Agent"@,
            r.id@.len() == 0,
            r.name@.len() == 0,
            r.host@.len() == 0,
            r.key_path@.len() == 0,
            r.description@.len() == 0,
            r.ssh_cmd@.len() == 0,
            r.ssh_cmd_err@.len() == 0,
            r.port_forwards@.len() == 0,
            r.password_input@.len() == 0,
            r.group@.len() == 0,
            r.tmux_session@.len() == 0,
            r.mounts@.len() == 0,
            !r.favorite,
            !r.save_password,
            !r.persistent,
            r.log_session is None,
    {
        let mut f = ConnForm::default();
        let p = decimal_chars(default_port as u64);
        f.port = string_from_chars(&p);
        f.username = default_username.to_owned();
        f.auth_label = "SSH Agent".to_owned();
        f
    }

    /// Initialise the form from an existing connection (edit mode).
    pub fn from_conn(c: &SshConnection) -> (r: Self)
        ensures
            r.shows(*c),
    {
        let (auth_label, key_path) = match &c.auth {
            AuthMethod::Agent => ("SSH Agent".to_owned(), String::new()),
            AuthMethod::Password => ("Password".to_owned(), String::new()),
            AuthMethod::Key(p) => ("Key File".to_owned(), p.clone()),
        };
        let port = decimal_chars(c.port as u64);
        let fw = c.port_forwards.clone();
        let ms = c.mounts.clone();
        assert(fw@ =~= c.port_forwards@);
        assert(ms@ =~= c.mounts@);
        ConnForm {
            id: c.id.clone(),
            name: c.name.clone(),
            host: c.host.clone(),
            port: string_from_chars(&port),
            username: c.username.clone(),
            auth_label,
            key_path,
            description: c.description.clone(),
            favorite: c.favorite,
            ssh_cmd: String::new(),
            ssh_cmd_err: String::new(),
            port_forwards: fw,
            save_password: c.save_password,
            password_input: String::new(),
            group: c.group.clone(),
            persistent: c.persistent,
            tmux_session: c.tmux_session.clone(),
            log_session: c.log_session,
            mounts: ms,
        }
    }

    /// The connection the form describes; `None` while name or host is blank.
    pub fn to_connection(&self) -> (r: Option<SshConnection>)
        ensures
            r is Some <==> self.is_complete(),
            r matches Some(c) ==> self.describes(c),
    {
        let name = trim_str(self.name.as_str());
        let host = trim_str(self.host.as_str());
        if name.as_str().is_empty() || host.as_str().is_empty() {
            return None;
        }
        let pc = chars_of(self.port.as_str());
        let port = parse_u16_or_exec(&pc, 22);
        let auth = if str_eq(self.auth_label.as_str(), "Password") {
            AuthMethod::Password
        } else if str_eq(self.auth_label.as_str(), "Key File") {
            AuthMethod::Key(trim_str(self.key_path.as_str()))
        } else {
            AuthMethod::Agent
        };
        let id = if self.id.as_str().is_empty() {
            new_uuid_string()
        } else {
            self.id.clone()
        };
        let fw = self.port_forwards.clone();
        let ms = self.mounts.clone();
        assert(fw@ =~= self.port_forwards@);
        assert(ms@ =~= self.mounts@);
        Some(
            SshConnection {
                id,
                name,
                host,
                port,
                username: trim_str(self.username.as_str()),
                auth,
                favorite: self.favorite,
                last_used: None,
                description: trim_str(self.description.as_str()),
                port_forwards: fw,
                save_password: self.save_password,
                group: trim_str(self.group.as_str()),
                persistent: self.persistent,
                tmux_session: trim_str(self.tmux_session.as_str()),
                log_session: self.log_session,
                mounts: ms,
            },
        )
    }

    /// Whether the form is for a connection not saved yet.
    pub fn is_new(&self) -> (r: bool)
        ensures
            r == (self.id@.len() == 0),
    {
        self.id.as_str().is_empty()
    }
}


/// Saving a complete form, new or edited, gives a tidy connection that keeps
/// what the form holds: its name, host, user name, description, group (the
/// namespace) and tmux session trimmed, its flags, forwarding rules and
/// mounts as they are, the port it names (22 where it names none), the
/// authentication its label selects with the key path trimmed, no time of
/// last use, and the form's id, or a fresh one for a new connection.
pub proof fn lemma_saved_connection_keeps_form(f: ConnForm, c: SshConnection)
    requires
        f.is_complete(),
        f.describes(c),
    ensures
        c.is_tidy(),
        c.name@ == trim(f.name@),
        c.host@ == trim(f.host@),
        c.username@ == trim(f.username@),
        c.description@ == trim(f.description@),
        c.group@ == trim(f.group@),
        c.tmux_session@ == trim(f.tmux_session@),
        c.favorite == f.favorite,
        c.persistent == f.persistent,
        c.save_password == f.save_password,
        c.log_session == f.log_session,
        c.port_forwards@ == f.port_forwards@,
        c.mounts@ == f.mounts@,
        c.last_used is None,
        c.port == parse_u16_or(f.port@, 22),
        f.id@.len() > 0 ==> c.id@ == f.id@,
        c.id@.len() > 0,
        f.auth_label@ == "Password"@ ==> c.auth == AuthMethod::Password,
        f.auth_label@ == "Key File"@ ==> (c.auth matches AuthMethod::Key(p) && p@ == trim(
            f.key_path@,
        )),
        f.auth_label@ != "Password"@ && f.auth_label@ != "Key File"@ ==> c.auth
            == AuthMethod::Agent,
{
    crate::text::lemma_trim_idempotent(f.name@);
    crate::text::lemma_trim_idempotent(f.host@);
    crate::text::lemma_trim_idempotent(f.username@);
    crate::text::lemma_trim_idempotent(f.description@);
    crate::text::lemma_trim_idempotent(f.group@);
    crate::text::lemma_trim_idempotent(f.tmux_session@);
    crate::text::lemma_trim_idempotent(f.key_path@);
    reveal_strlit("Password");
    reveal_strlit("Key File");
    assert("Password"@[0] != "Key File"@[0]);
}

/// Editing a saved connection and saving the form unchanged gives the same
/// connection back, but for the time of last use, which is cleared.
///
/// `c` is tidy: it has an id, a name and a host, and its text fields and key
/// path carry no surrounding whitespace (every connection that saving a form
/// produces is so). `ConnForm::from_conn(&c)` returns a form `f` that shows
/// `c`; for such a form the lemma proves that the form is complete, so that
/// `f.to_connection()` returns `Some(d)`, and that every `d` the form describes,
/// which is what `to_connection` returns, equals `c` in every field but
/// `last_used`, which is `None`.
pub proof fn lemma_edit_round_trip(c: SshConnection, f: ConnForm, d: SshConnection)
    requires
        c.is_tidy(),
        f.shows(c),
        f.describes(d),
    ensures
        f.is_complete(),
        d.same_fields(c),
        d.last_used is None,
{
    crate::text::lemma_parse_dec_str(c.port);
    reveal_strlit("SSH Agent");
    reveal_strlit("Password");
    reveal_strlit("Key File");
    assert("SSH Agent"@[0] != "Password"@[0]);
    assert("SSH Agent"@[0] != "Key File"@[0]);
    assert("Password"@[0] != "Key File"@[0]);
    match c.auth {
        AuthMethod::Agent => {
            assert(f.auth_label@ != "Password"@);
            assert(f.auth_label@ != "Key File"@);
        },
        AuthMethod::Password => {},
        AuthMethod::Key(p) => {
            assert(f.auth_label@ != "Password"@);
        },
    }
}

/// The per-connection logging setting that follows `cur` when the user clicks
/// the toggle: global, then always on, then always off, then global again.
pub open spec fn next_log(cur: Option<bool>) -> Option<bool> {
    match cur {
        None => Some(true),
        Some(true) => Some(false),
        Some(false) => None,
    }
}

/// The label of the per-connection logging setting.
pub open spec fn log_label_of(cur: Option<bool>) -> Seq<char> {
    match cur {
        None => "Log: global"@,
        Some(true) => "Log: on"@,
        Some(false) => "Log: off"@,
    }
}

/// The logging setting after one click on the toggle.
pub fn next_log_setting(cur: Option<bool>) -> (r: Option<bool>)
    ensures
        r == next_log(cur),
{
    match cur {
        None => Some(true),
        Some(true) => Some(false),
        Some(false) => None,
    }
}

/// The label of the logging setting.
pub fn log_setting_label(cur: Option<bool>) -> (r: &'static str)
    ensures
        r@ == log_label_of(cur),
{
    match cur {
        None => "Log: global",
        Some(true) => "Log: on",
        Some(false) => "Log: off",
    }
}

/// The logging toggle goes from global to on, from on to off and from off
/// back to global, so three clicks bring it back where it was and every click
/// changes it; its label reads "Log: global", "Log: on" and "Log: off" for
/// the three settings, so every click changes the label too.
pub proof fn lemma_log_toggle_cycle(cur: Option<bool>)
    ensures
        next_log(cur) == match cur {
            None => Some(true),
            Some(true) => Some(false),
            Some(false) => None::<bool>,
        },
        next_log(next_log(next_log(cur))) == cur,
        next_log(cur) != cur,
        log_label_of(cur) == match cur {
            None => "Log: global"@,
            Some(true) => "Log: on"@,
            Some(false) => "Log: off"@,
        },
        log_label_of(next_log(cur)) != log_label_of(cur),
{
    reveal_strlit("Log: global");
    reveal_strlit("Log: on");
    reveal_strlit("Log: off");
    assert("Log: global"@[5] != "Log: on"@[5]);
    assert("Log: global"@[5] != "Log: off"@[5]);
    assert("Log: on"@.len() != "Log: off"@.len());
}

impl ConnForm {
    /// One click on the logging toggle: the form's logging setting moves to
    /// the next one and nothing else changes.
    pub fn toggle_log_session(&mut self)
        ensures
            *final(self) == (ConnForm { log_session: next_log(old(self).log_session), ..*old(self) }),
    {
        self.log_session = next_log_setting(self.log_session);
    }
}


/// The SSH command the form would run, with spaces between its words; empty
/// while the host is blank.
pub fn build_ssh_preview(form: &ConnForm) -> (r: String)
    ensures
        r@ == ssh_preview(*form),
{
    let hostc = chars_of(form.host.as_str());
    let host = trim_chars(&hostc);
    if host.len() == 0 {
        return String::new();
    }
    let mut parts: Vec<String> = Vec::new();
    parts.push("ssh".to_owned());
    let pc = chars_of(form.port.as_str());
    let port = parse_u16_or_exec(&pc, 22);
    if port != 22 {
        parts.push("-p".to_owned());
        let d = decimal_chars(port as u64);
        parts.push(string_from_chars(&d));
    }
    let ghost a1 = str_views(parts@);
    let kc = chars_of(form.key_path.as_str());
    let key = trim_chars(&kc);
    if str_eq(form.auth_label.as_str(), "Key File") && key.len() > 0 {
        parts.push("-i".to_owned());
        parts.push(string_from_chars(&key));
    }
    let ghost a2 = str_views(parts@);
    push_forward_args(&mut parts, &form.port_forwards);
    let ghost a3 = str_views(parts@);
    let uc = chars_of(form.username.as_str());
    let ut = trim_chars(&uc);
    let mut dest = if ut.len() == 0 {
        chars_of("user")
    } else {
        ut
    };
    assert(dest@ == preview_user(*form));
    dest.push('@');
    push_all(&mut dest, &host);
    if form.persistent {
        let tc = chars_of(form.tmux_session.as_str());
        let tt = trim_chars(&tc);
        let tmux = if tt.len() == 0 {
            chars_of("shellkeeper-xxxx")
        } else {
            tt
        };
        assert(tmux@ == preview_tmux(*form));
        parts.push("-t".to_owned());
        parts.push(string_from_chars(&dest));
        let mut cmd: Vec<char> = Vec::new();
        cmd.push('"');
        push_str(&mut cmd, "tmux new-session -A -s ");
        push_all(&mut cmd, &tmux);
        cmd.push('"');
        assert(cmd@ =~= seq!['"'] + "tmux new-session -A -s "@ + preview_tmux(*form) + seq!['"']);
        parts.push(string_from_chars(&cmd));
    } else {
        parts.push(string_from_chars(&dest));
    }
    proof {
        let f = *form;
        let p = parse_u16_or(f.port@, 22);
        assert(a1 =~= seq!["ssh"@] + (if p != 22 {
            seq!["-p"@, dec_str(p as nat)]
        } else {
            seq![]
        }));
        assert(dest@ =~= preview_user(f) + seq!['@'] + trim(f.host@));
        let k = trim(f.key_path@);
        assert(a2 =~= a1 + (if f.auth_label@ == "Key File"@ && k.len() > 0 {
            seq!["-i"@, k]
        } else {
            seq![]
        }));
        assert(a3 =~= a2 + forward_args(f.port_forwards@));
        assert(str_views(parts@) =~= preview_parts(f));
        reveal_strlit(" ");
        assert(" "@ =~= seq![' ']);
    }
    join_strings(&parts, " ")
}

/// The state of the quote-aware tokenizer after reading `s`: the finished
/// tokens, the token being read, and whether a `"` is open.
pub open spec fn tokenize_state(s: Seq<char>) -> (Seq<Seq<char>>, Seq<char>, bool)
    decreases s.len(),
{
    if s.len() == 0 {
        (seq![], seq![], false)
    } else {
        let st = tokenize_state(s.drop_last());
        let ch = s.last();
        if ch == '"' {
            (st.0, st.1.push(ch), !st.2)
        } else if ch == ' ' && !st.2 {
            if st.1.len() > 0 {
                (st.0.push(st.1), seq![], st.2)
            } else {
                st
            }
        } else {
            (st.0, st.1.push(ch), st.2)
        }
    }
}

/// The words of `s`, split at spaces outside double quotes; the quotes stay
/// in the words.
pub open spec fn tokenize(s: Seq<char>) -> Seq<Seq<char>> {
    let st = tokenize_state(s);
    if st.1.len() > 0 {
        st.0.push(st.1)
    } else {
        st.0
    }
}

/// Whether a preview option is printed on one line with its value.
pub open spec fn takes_value(t: Seq<char>) -> bool {
    t.len() == 2 && t[0] == '-' && (t[1] == 'p' || t[1] == 'i' || t[1] == 'L' || t[1] == 'R'
        || t[1] == 'D')
}

/// The preview lines from token `i` on: the program alone on the first line,
/// then each option with its value, or each other word, indented by two
/// spaces.
pub open spec fn preview_lines(toks: Seq<Seq<char>>, i: int) -> Seq<Seq<char>>
    decreases toks.len() - i,
{
    if i < 0 || i >= toks.len() {
        seq![]
    } else if i == 0 {
        seq![toks[0]] + preview_lines(toks, 1)
    } else if toks[i].len() > 0 && toks[i][0] == '-' && takes_value(toks[i]) && i + 1
        < toks.len() {
        seq!["  "@ + toks[i] + seq![' '] + toks[i + 1]] + preview_lines(toks, i + 2)
    } else {
        seq!["  "@ + toks[i]] + preview_lines(toks, i + 1)
    }
}

/// The command laid out one option per line, lines joined by ` \` and a
/// line break.
pub open spec fn formatted_preview(cmd: Seq<char>) -> Seq<char> {
    join(preview_lines(tokenize(cmd), 0), " \\\n"@)
}

/// The preview lines after the first, with their two-space indent taken off.
pub open spec fn line_bodies(lines: Seq<Seq<char>>) -> Seq<Seq<char>> {
    lines.map_values(|l: Seq<char>| l.skip(2))
}

proof fn lemma_preview_tail_rejoin(toks: Seq<Seq<char>>, i: int)
    requires
        1 <= i,
    ensures
        forall|k: int|
            0 <= k < preview_lines(toks, i).len() ==> (#[trigger] preview_lines(toks, i)[k]).take(2)
                == "  "@,
        i >= toks.len() ==> preview_lines(toks, i).len() == 0,
        i < toks.len() ==> preview_lines(toks, i).len() > 0 && join(
            line_bodies(preview_lines(toks, i)),
            seq![' '],
        ) == join(toks.skip(i), seq![' ']),
    decreases toks.len() - i,
{
    reveal_strlit("  ");
    let sp = seq![' '];
    if i < toks.len() {
        let t = toks[i];
        let ls = preview_lines(toks, i);
        assert(toks.skip(i) =~= seq![t] + toks.skip(i + 1));
        if t.len() > 0 && t[0] == '-' && takes_value(t) && i + 1 < toks.len() {
            let v = toks[i + 1];
            let l = "  "@ + t + seq![' '] + v;
            lemma_preview_tail_rejoin(toks, i + 2);
            let rest = preview_lines(toks, i + 2);
            assert(ls == seq![l] + rest);
            assert(l.skip(2) =~= t + sp + v);
            assert(line_bodies(ls) =~= seq![t + sp + v] + line_bodies(rest));
            assert(toks.skip(i + 1) =~= seq![v] + toks.skip(i + 2));
            if i + 2 < toks.len() {
                lemma_join_cons(t + sp + v, line_bodies(rest), sp);
                lemma_join_cons(t, toks.skip(i + 1), sp);
                lemma_join_cons(v, toks.skip(i + 2), sp);
                assert(t + sp + v + sp + join(toks.skip(i + 2), sp) =~= t + sp + (v + sp + join(
                    toks.skip(i + 2),
                    sp,
                )));
                assert(join(line_bodies(ls), sp) == t + sp + v + sp + join(line_bodies(rest), sp));
                assert(join(toks.skip(i), sp) == t + sp + join(toks.skip(i + 1), sp));
                assert(join(toks.skip(i + 1), sp) == v + sp + join(toks.skip(i + 2), sp));
            } else {
                assert(line_bodies(rest) =~= Seq::<Seq<char>>::empty());
                assert(line_bodies(ls) =~= seq![t + sp + v]);
                assert(toks.skip(i + 2) =~= Seq::<Seq<char>>::empty());
                assert(toks.skip(i) =~= seq![t, v]);
                assert(seq![t, v].drop_last() =~= seq![t]);
                assert(join(seq![t], sp) == t);
                assert(join(seq![t, v], sp) == join(seq![t], sp) + sp + v);
                assert(join(line_bodies(ls), sp) == t + sp + v);
            }
            assert forall|k: int| 0 <= k < ls.len() implies (#[trigger] ls[k]).take(2) == "  "@ by {
                if k == 0 {
                    assert(l.take(2) =~= "  "@);
                } else {
                    assert(ls[k] == rest[k - 1]);
                }
            }
        } else {
            let l = "  "@ + t;
            lemma_preview_tail_rejoin(toks, i + 1);
            let rest = preview_lines(toks, i + 1);
            assert(ls == seq![l] + rest);
            assert(l.skip(2) =~= t);
            assert(line_bodies(ls) =~= seq![t] + line_bodies(rest));
            if i + 1 < toks.len() {
                lemma_join_cons(t, line_bodies(rest), sp);
                lemma_join_cons(t, toks.skip(i + 1), sp);
                assert(join(line_bodies(ls), sp) == t + sp + join(line_bodies(rest), sp));
            } else {
                assert(line_bodies(rest) =~= Seq::<Seq<char>>::empty());
                assert(line_bodies(ls) =~= seq![t]);
                assert(toks.skip(i + 1) =~= Seq::<Seq<char>>::empty());
                assert(toks.skip(i) =~= seq![t]);
            }
            assert forall|k: int| 0 <= k < ls.len() implies (#[trigger] ls[k]).take(2) == "  "@ by {
                if k == 0 {
                    assert(l.take(2) =~= "  "@);
                } else {
                    assert(ls[k] == rest[k - 1]);
                }
            }
        }
    }
}

/// The formatted preview is the command's tokens laid out one per line (an
/// option with its value sharing a line): the lines are joined by ` \`
/// and a line break, every line after the first starts with two spaces, and
/// taking the line breaks and indents out gives the tokens back, joined by
/// spaces. A command without tokens formats as nothing.
pub proof fn lemma_formatted_preview_rejoins(cmd: Seq<char>)
    ensures
        formatted_preview(cmd) == join(preview_lines(tokenize(cmd), 0), " \\\n"@),
        tokenize(cmd).len() == 0 ==> formatted_preview(cmd).len() == 0,
        tokenize(cmd).len() > 0 ==> preview_lines(tokenize(cmd), 0)[0] == tokenize(cmd)[0],
        forall|k: int|
            1 <= k < preview_lines(tokenize(cmd), 0).len() ==> (#[trigger] preview_lines(
                tokenize(cmd),
                0,
            )[k]).take(2) == "  "@,
        tokenize(cmd).len() > 0 ==> join(
            seq![preview_lines(tokenize(cmd), 0)[0]] + line_bodies(
                preview_lines(tokenize(cmd), 0).drop_first(),
            ),
            seq![' '],
        ) == join(tokenize(cmd), seq![' ']),
{
    let toks = tokenize(cmd);
    let sp = seq![' '];
    if toks.len() > 0 {
        let ls = preview_lines(toks, 0);
        lemma_preview_tail_rejoin(toks, 1);
        let rest = preview_lines(toks, 1);
        assert(ls == seq![toks[0]] + rest);
        assert(ls.drop_first() =~= rest);
        assert forall|k: int| 1 <= k < ls.len() implies (#[trigger] ls[k]).take(2) == "  "@ by {
            assert(ls[k] == rest[k - 1]);
        }
        assert(toks =~= seq![toks[0]] + toks.skip(1));
        if toks.len() > 1 {
            lemma_join_cons(toks[0], line_bodies(rest), sp);
            lemma_join_cons(toks[0], toks.skip(1), sp);
        } else {
            assert(line_bodies(rest) =~= Seq::<Seq<char>>::empty());
            assert(seq![toks[0]] + line_bodies(rest) =~= seq![toks[0]]);
        }
    } else {
        assert(preview_lines(toks, 0) =~= Seq::<Seq<char>>::empty());
    }
}

/// Whether `s` holds no line break.
pub open spec fn free_of_line_feeds(s: Seq<char>) -> bool {
    forall|i: int| 0 <= i < s.len() ==> s[i] != '\n'
}

/// The line continuation that joins two preview lines, with the indent of
/// the second: a space, a backslash, a line break and two spaces.
pub open spec fn continuation() -> Seq<char> {
    seq![' ', '\\', '\n', ' ', ' ']
}

/// `s` with every line continuation replaced by one space, scanning from the
/// left as `str::replace` does.
pub open spec fn unbreak(s: Seq<char>) -> Seq<char>
    decreases s.len(),
{
    if s.len() == 0 {
        seq![]
    } else if s.len() >= 5 && s.take(5) == continuation() {
        seq![' '] + unbreak(s.skip(5))
    } else {
        seq![s[0]] + unbreak(s.skip(1))
    }
}

proof fn lemma_unbreak_plain_prefix(a: Seq<char>, rest: Seq<char>)
    requires
        free_of_line_feeds(a),
        rest.len() == 0 || rest[0] == ' ',
    ensures
        unbreak(a + rest) == a + unbreak(rest),
    decreases a.len(),
{
    if a.len() > 0 {
        let s = a + rest;
        if s.len() >= 5 {
            if a.len() >= 3 {
                assert(s.take(5)[2] == a[2]);
            } else if a.len() == 2 {
                assert(s.take(5)[2] == rest[0]);
            } else {
                assert(s.take(5)[1] == rest[0]);
            }
            assert(s.take(5) != continuation());
        }
        assert(s.skip(1) =~= a.skip(1) + rest);
        lemma_unbreak_plain_prefix(a.skip(1), rest);
        assert(s =~= seq![a[0]] + s.skip(1));
        assert(a =~= seq![a[0]] + a.skip(1));
    } else {
        assert(a + rest =~= rest);
    }
}

proof fn lemma_unbreak_continuation(x: Seq<char>)
    ensures
        unbreak(continuation() + x) == seq![' '] + unbreak(x),
{
    let s = continuation() + x;
    assert(s.take(5) =~= continuation());
    assert(s.skip(5) =~= x);
}

proof fn lemma_join_indented(ls: Seq<Seq<char>>)
    requires
        ls.len() > 0,
        ls[0].len() >= 2,
        ls[0].take(2) == seq![' ', ' '],
    ensures
        join(ls, seq![' ', '\\', '\n']) == seq![' ', ' '] + join(
            seq![ls[0].skip(2)] + ls.drop_first(),
            seq![' ', '\\', '\n'],
        ),
{
    let sep = seq![' ', '\\', '\n'];
    let b = ls[0].skip(2);
    assert(ls[0] =~= seq![' ', ' '] + b);
    assert(ls =~= seq![ls[0]] + ls.drop_first());
    if ls.len() > 1 {
        lemma_join_cons(ls[0], ls.drop_first(), sep);
        lemma_join_cons(b, ls.drop_first(), sep);
        assert(ls[0] + sep + join(ls.drop_first(), sep) =~= seq![' ', ' '] + (b + sep + join(
            ls.drop_first(),
            sep,
        )));
    } else {
        assert(seq![b] + ls.drop_first() =~= seq![b]);
        assert(join(ls, sep) == ls[0]);
    }
}

proof fn lemma_unbreak_lines(h: Seq<char>, ls: Seq<Seq<char>>)
    requires
        free_of_line_feeds(h),
        forall|k: int|
            0 <= k < ls.len() ==> (#[trigger] ls[k]).len() >= 2 && ls[k].take(2) == seq![' ', ' ']
                && free_of_line_feeds(ls[k].skip(2)),
    ensures
        unbreak(join(seq![h] + ls, seq![' ', '\\', '\n'])) == join(
            seq![h] + line_bodies(ls),
            seq![' '],
        ),
    decreases ls.len(),
{
    let sep = seq![' ', '\\', '\n'];
    let sp = seq![' '];
    if ls.len() == 0 {
        assert(seq![h] + ls =~= seq![h]);
        assert(seq![h] + line_bodies(ls) =~= seq![h]);
        lemma_unbreak_plain_prefix(h, seq![]);
        assert(h + Seq::<char>::empty() =~= h);
    } else {
        let b = ls[0].skip(2);
        let rest = ls.drop_first();
        lemma_join_cons(h, ls, sep);
        lemma_join_indented(ls);
        let x = join(seq![b] + rest, sep);
        assert(sep + (seq![' ', ' '] + x) =~= continuation() + x);
        lemma_unbreak_plain_prefix(h, continuation() + x);
        assert(h + sep + join(ls, sep) =~= h + (continuation() + x));
        lemma_unbreak_continuation(x);
        assert forall|k: int| 0 <= k < rest.len() implies (#[trigger] rest[k]).len() >= 2
            && rest[k].take(2) == seq![' ', ' '] && free_of_line_feeds(rest[k].skip(2)) by {
            assert(rest[k] == ls[k + 1]);
        }
        lemma_unbreak_lines(b, rest);
        assert(line_bodies(ls) =~= seq![b] + line_bodies(rest));
        lemma_join_cons(h, line_bodies(ls), sp);
        assert(h + sp + join(line_bodies(ls), sp) =~= h + (seq![' '] + unbreak(x)));
    }
}

proof fn lemma_tokens_free_of_line_feeds(s: Seq<char>)
    requires
        free_of_line_feeds(s),
    ensures
        forall|k: int|
            0 <= k < tokenize_state(s).0.len() ==> free_of_line_feeds(
                #[trigger] tokenize_state(s).0[k],
            ),
        free_of_line_feeds(tokenize_state(s).1),
    decreases s.len(),
{
    if s.len() > 0 {
        let p = s.drop_last();
        assert(free_of_line_feeds(p)) by {
            assert forall|i: int| 0 <= i < p.len() implies p[i] != '\n' by {
                assert(p[i] == s[i]);
            }
        }
        lemma_tokens_free_of_line_feeds(p);
        let st = tokenize_state(p);
        assert(s.last() == s[s.len() - 1]);
        assert forall|i: int| 0 <= i < st.1.len() + 1 implies #[trigger] st.1.push(s.last())[i]
            != '\n' by {
            if i < st.1.len() {
                assert(st.1.push(s.last())[i] == st.1[i]);
            }
        }
        assert forall|k: int| 0 <= k < st.0.len() + 1 implies free_of_line_feeds(
            #[trigger] st.0.push(st.1)[k],
        ) by {
            if k < st.0.len() {
                assert(st.0.push(st.1)[k] == st.0[k]);
            }
        }
    }
}

proof fn lemma_preview_tail_shape(toks: Seq<Seq<char>>, i: int)
    requires
        1 <= i,
        forall|k: int| 0 <= k < toks.len() ==> free_of_line_feeds(#[trigger] toks[k]),
    ensures
        forall|k: int|
            0 <= k < preview_lines(toks, i).len() ==> (#[trigger] preview_lines(toks, i)[k]).len()
                >= 2 && preview_lines(toks, i)[k].take(2) == seq![' ', ' '] && free_of_line_feeds(
                preview_lines(toks, i)[k].skip(2),
            ),
    decreases toks.len() - i,
{
    reveal_strlit("  ");
    if i < toks.len() {
        let t = toks[i];
        let ls = preview_lines(toks, i);
        if t.len() > 0 && t[0] == '-' && takes_value(t) && i + 1 < toks.len() {
            let v = toks[i + 1];
            let l = "  "@ + t + seq![' '] + v;
            lemma_preview_tail_shape(toks, i + 2);
            let rest = preview_lines(toks, i + 2);
            assert(ls == seq![l] + rest);
            assert(l.skip(2) =~= t + seq![' '] + v);
            assert(l.take(2) =~= seq![' ', ' ']);
            assert(free_of_line_feeds(l.skip(2))) by {
                assert forall|j: int| 0 <= j < l.skip(2).len() implies l.skip(2)[j] != '\n' by {
                    if j < t.len() {
                        assert(l.skip(2)[j] == t[j]);
                    } else if j > t.len() {
                        assert(l.skip(2)[j] == v[j - t.len() - 1]);
                    }
                }
            }
            assert forall|k: int| 0 <= k < ls.len() implies (#[trigger] ls[k]).len() >= 2
                && ls[k].take(2) == seq![' ', ' '] && free_of_line_feeds(ls[k].skip(2)) by {
                if k > 0 {
                    assert(ls[k] == rest[k - 1]);
                }
            }
        } else {
            let l = "  "@ + t;
            lemma_preview_tail_shape(toks, i + 1);
            let rest = preview_lines(toks, i + 1);
            assert(ls == seq![l] + rest);
            assert(l.skip(2) =~= t);
            assert(l.take(2) =~= seq![' ', ' ']);
            assert forall|k: int| 0 <= k < ls.len() implies (#[trigger] ls[k]).len() >= 2
                && ls[k].take(2) == seq![' ', ' '] && free_of_line_feeds(ls[k].skip(2)) by {
                if k > 0 {
                    assert(ls[k] == rest[k - 1]);
                }
            }
        }
    }
}

/// For a command on one line, replacing every line continuation of its
/// formatted preview (` \`, a line break and the two-space indent) by one
/// space gives back the command's tokens joined by spaces.
pub proof fn lemma_formatted_preview_unbreaks(cmd: Seq<char>)
    requires
        free_of_line_feeds(cmd),
    ensures
        unbreak(formatted_preview(cmd)) == join(tokenize(cmd), seq![' ']),
{
    let toks = tokenize(cmd);
    lemma_formatted_preview_rejoins(cmd);
    reveal_strlit(" \\\n");
    assert(" \\\n"@ =~= seq![' ', '\\', '\n']);
    if toks.len() > 0 {
        lemma_tokens_free_of_line_feeds(cmd);
        let st = tokenize_state(cmd);
        assert forall|k: int| 0 <= k < toks.len() implies free_of_line_feeds(#[trigger] toks[k]) by {
            if st.1.len() > 0 && k == st.0.len() {
                assert(toks[k] == st.1);
            } else {
                assert(toks[k] == st.0[k]);
            }
        }
        let ls = preview_lines(toks, 0);
        lemma_preview_tail_shape(toks, 1);
        assert(ls == seq![toks[0]] + preview_lines(toks, 1));
        assert(ls.drop_first() =~= preview_lines(toks, 1));
        assert(ls =~= seq![ls[0]] + ls.drop_first());
        lemma_unbreak_lines(toks[0], ls.drop_first());
    } else {
        assert(formatted_preview(cmd).len() == 0);
        assert(formatted_preview(cmd) =~= Seq::<char>::empty());
    }
}

/// Lays the command out with shell-style `\` line continuations, one option
/// (with its value) per line.
pub fn format_ssh_preview(cmd: &str) -> (r: String)
    ensures
        r@ == formatted_preview(cmd@),
{
    let cs = chars_of(cmd);
    let mut tokens: Vec<Vec<char>> = Vec::new();
    let mut cur: Vec<char> = Vec::new();
    let mut in_q = false;
    let mut i: usize = 0;
    while i < cs.len()
        invariant
            i <= cs@.len(),
            tokenize_state(cs@.take(i as int)) == (crate::text::views(tokens@), cur@, in_q),
        decreases cs@.len() - i,
    {
        let ch = cs[i];
        proof {
            assert(cs@.take(i + 1).drop_last() =~= cs@.take(i as int));
            assert(cs@.take(i + 1).last() == ch);
        }
        if ch == '"' {
            in_q = !in_q;
            cur.push(ch);
        } else if ch == ' ' && !in_q {
            if cur.len() > 0 {
                let ghost before = tokens@;
                tokens.push(cur);
                cur = Vec::new();
                assert(crate::text::views(tokens@) =~= crate::text::views(before).push(
                    tokens@.last()@,
                ));
            }
        } else {
            cur.push(ch);
        }
        i += 1;
    }
    assert(cs@.take(i as int) =~= cs@);
    if cur.len() > 0 {
        let ghost before = tokens@;
        tokens.push(cur);
        assert(crate::text::views(tokens@) =~= crate::text::views(before).push(
            tokens@.last()@,
        ));
    }
    let ghost tv = crate::text::views(tokens@);
    assert(tv == tokenize(cmd@));
    let n = tokens.len();
    let mut lines: Vec<Vec<char>> = Vec::new();
    let mut j: usize = 0;
    while j < n
        invariant
            n == tokens@.len() == tv.len(),
            tv == crate::text::views(tokens@),
            j <= n,
            preview_lines(tv, 0) == crate::text::views(lines@) + preview_lines(tv, j as int),
        decreases n - j,
    {
        let ghost before = lines@;
        let t = &tokens[j];
        assert(t@ == tv[j as int]);
        if j == 0 {
            let l = crate::text::slice_chars(t, 0, t.len());
            assert(l@ =~= t@);
            lines.push(l);
            j += 1;
        } else {
            let tv2 = t.len() == 2 && t[0] == '-' && (t[1] == 'p' || t[1] == 'i' || t[1] == 'L'
                || t[1] == 'R' || t[1] == 'D');
            assert(tv2 == takes_value(t@));
            if tv2 && j + 1 < n {
                let mut l = chars_of("  ");
                push_all(&mut l, t);
                l.push(' ');
                push_all(&mut l, &tokens[j + 1]);
                assert(l@ =~= "  "@ + tv[j as int] + seq![' '] + tv[j + 1]);
                lines.push(l);
                j += 2;
            } else {
                let mut l = chars_of("  ");
                push_all(&mut l, t);
                lines.push(l);
                j += 1;
            }
        }
        assert(crate::text::views(lines@) =~= crate::text::views(before).push(lines@.last()@));
    }
    assert(crate::text::views(lines@) + seq![] =~= crate::text::views(lines@));
    let sep = chars_of(" \\\n");
    let out = crate::text::join_chars(&lines, &sep);
    string_from_chars(&out)
}


impl ConnForm {
    /// Whether `self` and `o` agree on every field that importing a command
    /// leaves alone.
    pub open spec fn same_beyond_import(self, o: Self) -> bool {
        &&& self.id == o.id
        &&& self.description == o.description
        &&& self.favorite == o.favorite
        &&& self.ssh_cmd == o.ssh_cmd
        &&& self.port_forwards@ == o.port_forwards@
        &&& self.save_password == o.save_password
        &&& self.password_input == o.password_input
        &&& self.group == o.group
        &&& self.persistent == o.persistent
        &&& self.tmux_session == o.tmux_session
        &&& self.log_session == o.log_session
        &&& self.mounts@ == o.mounts@
    }

    /// Fills the form from the SSH command typed in `ssh_cmd`. Where it parses,
    /// host, user name and port are taken, a key file switches the form to key
    /// authentication, and an empty name becomes `user@host`; otherwise the
    /// error message is set and nothing else changes.
    pub fn import_ssh_command(&mut self, default_user: &str)
        ensures
            final(self).same_beyond_import(*old(self)),
            match parse_ssh(old(self).ssh_cmd@, default_user@) {
                None => {
                    &&& final(self).ssh_cmd_err@ == import_error_text()
                    &&& final(self).name == old(self).name
                    &&& final(self).host == old(self).host
                    &&& final(self).port == old(self).port
                    &&& final(self).username == old(self).username
                    &&& final(self).auth_label == old(self).auth_label
                    &&& final(self).key_path == old(self).key_path
                },
                Some(p) => {
                    &&& final(self).ssh_cmd_err@.len() == 0
                    &&& final(self).host@ == p.1
                    &&& final(self).username@ == p.0
                    &&& final(self).port@ == dec_str(p.2 as nat)
                    &&& match p.3 {
                        None => final(self).auth_label == old(self).auth_label
                            && final(self).key_path == old(self).key_path,
                        Some(k) => final(self).auth_label@ == "Key File"@ && tilde_outcome(
                            k,
                            final(self).key_path@,
                        ),
                    }
                    &&& final(self).name@ == (if old(self).name@.len() == 0 {
                        p.0 + seq!['@'] + p.1
                    } else {
                        old(self).name@
                    })
                },
            },
    {
        match ParsedSsh::parse(self.ssh_cmd.as_str(), default_user) {
            None => {
                self.ssh_cmd_err = "Could not parse — use: ssh user@host [-p port] [-i key]".to_owned();
            },
            Some(p) => {
                self.ssh_cmd_err = String::new();
                self.host = p.host.clone();
                self.username = p.username.clone();
                let pd = decimal_chars(p.port as u64);
                self.port = string_from_chars(&pd);
                match p.key_path {
                    Some(key) => {
                        self.key_path = key;
                        self.auth_label = "Key File".to_owned();
                    },
                    None => {},
                }
                if self.name.as_str().is_empty() {
                    let mut n = chars_of(p.username.as_str());
                    n.push('@');
                    push_str(&mut n, p.host.as_str());
                    self.name = string_from_chars(&n);
                }
            },
        }
    }
}

/// What saving a connection does to its password in the OS keyring.
pub enum KeyringAction {
    /// Store the typed password.
    Store,
    /// Delete the stored password.
    Delete,
    /// Leave the keyring alone.
    Keep,
}

/// What saving does to the keyring: store the typed password where saving
/// passwords is on and one was typed, delete the stored one where it is off,
/// and otherwise leave it.
pub fn keyring_on_save(save_password: bool, password_input: &str) -> (r: KeyringAction)
    ensures
        r == (if save_password && password_input@.len() > 0 {
            KeyringAction::Store
        } else if !save_password {
            KeyringAction::Delete
        } else {
            KeyringAction::Keep
        }),
{
    if save_password && !password_input.is_empty() {
        KeyringAction::Store
    } else if !save_password {
        KeyringAction::Delete
    } else {
        KeyringAction::Keep
    }
}

/// What unticking "save password" does, given the box before (`was_on`) and
/// after (`is_on`) the click and the form's id: whether the typed password is
/// cleared, and whether the stored one is deleted (only for a saved
/// connection, whose trimmed id is not empty).
pub fn save_password_toggled(was_on: bool, is_on: bool, id: &str) -> (r: (bool, bool))
    ensures
        r.0 == (was_on && !is_on),
        r.1 == (was_on && !is_on && trim(id@).len() > 0),
{
    let unticked = was_on && !is_on;
    let t = trim_str(id);
    (unticked, unticked && !t.as_str().is_empty())
}

/// The state of the connection dialog.
pub struct DialogState {
    pub open: bool,
    pub form: ConnForm,
    pub error: String,
}

impl Default for DialogState {
    fn default() -> (r: Self)
        ensures
            !r.open,
            r.form.is_blank(),
            r.error@.len() == 0,
    {
        DialogState { open: false, form: ConnForm::default(), error: String::new() }
    }
}

/// What the user asked of the dialog.
pub enum DialogEvent {
    Save(SshConnection),
    /// Run `ssh-copy-id` for this connection, then close the dialog.
    SshCopyId(SshConnection),
    Cancel,
}

/// The message shown when saving a form without name or host.
pub open spec fn required_fields_text() -> Seq<char> {
    "Name and Host are required."@
}

impl DialogState {
    /// The dialog for editing `c`.
    pub fn edit(c: &SshConnection) -> (r: Self)
        ensures
            r.open,
            r.form.shows(*c),
            r.error@.len() == 0,
    {
        DialogState { open: true, form: ConnForm::from_conn(c), error: String::new() }
    }

    /// The dialog for adding a connection with the configured defaults.
    pub fn add(default_port: u16, default_username: &str) -> (r: Self)
        ensures
            r.open,
            r.form.port@ == dec_str(default_port as nat),
            r.form.username@ == default_username@,
            r.form.auth_label@ == "SSH Agent"@,
            r.form.id@.len() == 0,
            r.form.name@.len() == 0,
            r.form.host@.len() == 0,
            r.error@.len() == 0,
    {
        DialogState {
            open: true,
            form: ConnForm::for_new_connection(default_port, default_username),
            error: String::new(),
        }
    }

    /// The dialog's title.
    pub fn title(&self) -> (r: &'static str)
        ensures
            r@ == (if self.form.id@.len() == 0 {
                "Add Connection"@
            } else {
                "Edit Connection"@
            }),
    {
        if self.form.is_new() {
            "Add Connection"
        } else {
            "Edit Connection"
        }
    }

    /// The Save button: the connection to save, or, while name or host is
    /// missing, no event and the error message set.
    pub fn save_request(&mut self) -> (r: Option<DialogEvent>)
        ensures
            final(self).open == old(self).open,
            final(self).form == old(self).form,
            old(self).form.is_complete() ==> final(self).error == old(self).error,
            old(self).form.is_complete() ==> (r matches Some(DialogEvent::Save(c))
                && old(self).form.describes(c)),
            !old(self).form.is_complete() ==> r is None && final(self).error@
                == required_fields_text(),
    {
        match self.form.to_connection() {
            None => {
                self.error = "Name and Host are required.".to_owned();
                None
            },
            Some(c) => Some(DialogEvent::Save(c)),
        }
    }

    /// The ssh-copy-id button, offered for saved connections only.
    pub fn copy_id_request(&self) -> (r: Option<DialogEvent>)
        ensures
            self.form.id@.len() > 0 && self.form.is_complete() <==> r is Some,
            r matches Some(e) ==> (e matches DialogEvent::SshCopyId(c) && self.form.describes(c)),
    {
        if self.form.is_new() {
            return None;
        }
        match self.form.to_connection() {
            None => None,
            Some(c) => Some(DialogEvent::SshCopyId(c)),
        }
    }
}

} // verus!
