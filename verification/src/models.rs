//! The saved connection model: authentication, port-forwarding rules, SSHFS
//! mounts and the connection itself, with the `ssh`/`sshfs` arguments built
//! from them.
use vstd::prelude::*;

use crate::host::{expand_tilde, new_uuid_string, tilde_outcome, is_uuid_text};
use crate::text::{
    byte_prefix, byte_prefix_exec, chars_of, utf8_len, dec_str, decimal_chars, has_byte_prefix, push_all,
    push_decimal, push_str, slice_views, str_eq, str_views, string_from_chars, trim, trim_chars,
};

verus! {

// ── Time ─────────────────────────────────────────────────────────────────────

/// A point in time: seconds since the Unix epoch (UTC) and the nanoseconds
/// past that second.
#[derive(Debug, Clone, Copy, PartialEq, Eq, Structural)]
pub struct Timestamp {
    pub secs: i64,
    pub nanos: u32,
}

impl Timestamp {
    /// Whether `self` comes strictly before `other`.
    pub open spec fn before(self, other: Self) -> bool {
        self.secs < other.secs || (self.secs == other.secs && self.nanos < other.nanos)
    }

    /// Whether `self` comes strictly before `other`.
    pub fn is_before(&self, other: &Self) -> (r: bool)
        ensures
            r == self.before(*other),
    {
        self.secs < other.secs || (self.secs == other.secs && self.nanos < other.nanos)
    }
}

// ── Auth ─────────────────────────────────────────────────────────────────────

/// How a connection authenticates.
#[derive(Debug, PartialEq)]
pub enum AuthMethod {
    /// Use the running SSH agent (default).
    Agent,
    /// Prompt for the password inside the terminal.
    Password,
    /// Path to a private-key file.
    Key(String),
}

impl Clone for AuthMethod {
    fn clone(&self) -> (r: Self)
        ensures
            r == *self,
    {
        match self {
            AuthMethod::Agent => AuthMethod::Agent,
            AuthMethod::Password => AuthMethod::Password,
            AuthMethod::Key(p) => AuthMethod::Key(p.clone()),
        }
    }
}

impl Default for AuthMethod {
    fn default() -> (r: Self)
        ensures
            r == AuthMethod::Agent,
    {
        AuthMethod::Agent
    }
}

/// The labels of the authentication choices, in the order the form lists them.
pub open spec fn auth_labels() -> Seq<Seq<char>> {
    seq!["SSH Agent"@, "Password"@, "Key File"@]
}

/// An authentication method with its key path taken by its view.
pub open spec fn auth_view(a: AuthMethod) -> Option<Option<Seq<char>>> {
    match a {
        AuthMethod::Agent => None,
        AuthMethod::Password => Some(None),
        AuthMethod::Key(p) => Some(Some(p@)),
    }
}

impl AuthMethod {
    /// The labels of the authentication choices.
    pub fn variants() -> (r: &'static [&'static str])
        ensures
            slice_views(r@) == auth_labels(),
    {
        let r: &'static [&'static str] = &["SSH Agent", "Password", "Key File"];
        assert(slice_views(r@) =~= auth_labels());
        r
    }
}

// ── Port forwarding ──────────────────────────────────────────────────────────

/// The three kinds of SSH port forwarding.
#[derive(Debug, Clone, Copy, PartialEq, Eq, Structural)]
pub enum ForwardKind {
    /// `-L local_port:remote_host:remote_port`
    Local,
    /// `-R remote_port:localhost:local_port`
    Remote,
    /// `-D local_port` (SOCKS5 proxy)
    Dynamic,
}

impl ForwardKind {
    /// The label shown for this kind.
    pub open spec fn label_of(self) -> Seq<char> {
        match self {
            ForwardKind::Local => "Local  -L"@,
            ForwardKind::Remote => "Remote -R"@,
            ForwardKind::Dynamic => "Dynamic -D (SOCKS5)"@,
        }
    }

    /// The kind a label selects; any unknown label selects `Local`.
    pub open spec fn from_label_of(s: Seq<char>) -> ForwardKind {
        if s == "Remote -R"@ {
            ForwardKind::Remote
        } else if s == "Dynamic -D (SOCKS5)"@ {
            ForwardKind::Dynamic
        } else {
            ForwardKind::Local
        }
    }

    /// The label shown for this kind.
    pub fn label(&self) -> (r: &'static str)
        ensures
            r@ == self.label_of(),
    {
        match self {
            ForwardKind::Local => "Local  -L",
            ForwardKind::Remote => "Remote -R",
            ForwardKind::Dynamic => "Dynamic -D (SOCKS5)",
        }
    }

    /// The labels of all kinds, in the order the form lists them.
    pub fn variants() -> (r: &'static [&'static str])
        ensures
            slice_views(r@) == seq![
                ForwardKind::Local.label_of(),
                ForwardKind::Remote.label_of(),
                ForwardKind::Dynamic.label_of(),
            ],
    {
        let r: &'static [&'static str] = &["Local  -L", "Remote -R", "Dynamic -D (SOCKS5)"];
        assert(slice_views(r@) =~= seq![
            ForwardKind::Local.label_of(),
            ForwardKind::Remote.label_of(),
            ForwardKind::Dynamic.label_of(),
        ]);
        r
    }

    /// The kind a label selects; any unknown label selects `Local`.
    pub fn from_label(s: &str) -> (r: Self)
        ensures
            r == Self::from_label_of(s@),
    {
        if str_eq(s, "Remote -R") {
            ForwardKind::Remote
        } else if str_eq(s, "Dynamic -D (SOCKS5)") {
            ForwardKind::Dynamic
        } else {
            ForwardKind::Local
        }
    }
}

/// The labels of the three kinds are pairwise different.
pub proof fn lemma_forward_labels_distinct()
    ensures
        ForwardKind::Local.label_of() != ForwardKind::Remote.label_of(),
        ForwardKind::Local.label_of() != ForwardKind::Dynamic.label_of(),
        ForwardKind::Remote.label_of() != ForwardKind::Dynamic.label_of(),
{
    reveal_strlit("Local  -L");
    reveal_strlit("Remote -R");
    reveal_strlit("Dynamic -D (SOCKS5)");
    assert(ForwardKind::Local.label_of()[0] != ForwardKind::Remote.label_of()[0]);
    assert(ForwardKind::Local.label_of()[0] != ForwardKind::Dynamic.label_of()[0]);
    assert(ForwardKind::Remote.label_of()[0] != ForwardKind::Dynamic.label_of()[0]);
}

/// Choosing a kind by its own label gives that kind back.
pub proof fn lemma_from_label_of_label(k: ForwardKind)
    ensures
        ForwardKind::from_label_of(k.label_of()) == k,
{
    lemma_forward_labels_distinct();
}

/// One port-forwarding rule.
#[derive(Debug)]
pub struct PortForward {
    pub kind: ForwardKind,
    /// Port on the local machine (always required).
    pub local_port: u16,
    /// Destination host (not used for Dynamic).
    pub remote_host: String,
    /// Destination port (not used for Dynamic).
    pub remote_port: u16,
}

impl Clone for PortForward {
    fn clone(&self) -> (r: Self)
        ensures
            r == *self,
    {
        PortForward {
            kind: self.kind,
            local_port: self.local_port,
            remote_host: self.remote_host.clone(),
            remote_port: self.remote_port,
        }
    }
}

impl PortForward {
    /// The `ssh` flag and its value for this rule.
    pub open spec fn args_of(self) -> Seq<Seq<char>> {
        match self.kind {
            ForwardKind::Local => seq![
                "-L"@,
                dec_str(self.local_port as nat) + seq![':'] + self.remote_host@ + seq![':']
                    + dec_str(self.remote_port as nat),
            ],
            ForwardKind::Remote => seq![
                "-R"@,
                dec_str(self.remote_port as nat) + ":localhost:"@ + dec_str(self.local_port as nat),
            ],
            ForwardKind::Dynamic => seq!["-D"@, dec_str(self.local_port as nat)],
        }
    }

    /// The one-line description shown in the UI.
    pub open spec fn summary_of(self) -> Seq<char> {
        match self.kind {
            ForwardKind::Local => "localhost:"@ + dec_str(self.local_port as nat) + " → "@
                + self.remote_host@ + seq![':'] + dec_str(self.remote_port as nat),
            ForwardKind::Remote => self.remote_host@ + seq![':'] + dec_str(self.remote_port as nat)
                + " ← localhost:"@ + dec_str(self.local_port as nat),
            ForwardKind::Dynamic => "SOCKS5 proxy on localhost:"@ + dec_str(self.local_port as nat),
        }
    }

    /// A fresh local rule: local port 8080 to port 80 of an empty host.
    pub fn new_local() -> (r: Self)
        ensures
            r.kind == ForwardKind::Local,
            r.local_port == 8080,
            r.remote_host@ == Seq::<char>::empty(),
            r.remote_port == 80,
    {
        PortForward {
            kind: ForwardKind::Local,
            local_port: 8080,
            remote_host: String::new(),
            remote_port: 80,
        }
    }

    /// The `ssh` flag(s) for this rule, e.g. `["-L", "8080:db:5432"]`.
    pub fn ssh_args(&self) -> (r: Vec<String>)
        ensures
            str_views(r@) == self.args_of(),
    {
        let mut r: Vec<String> = Vec::new();
        match self.kind {
            ForwardKind::Local => {
                r.push("-L".to_owned());
                let mut v = decimal_chars(self.local_port as u64);
                v.push(':');
                push_str(&mut v, self.remote_host.as_str());
                v.push(':');
                push_decimal(&mut v, self.remote_port as u64);
                assert(v@ =~= dec_str(self.local_port as nat) + seq![':'] + self.remote_host@
                    + seq![':'] + dec_str(self.remote_port as nat));
                r.push(string_from_chars(&v));
            },
            ForwardKind::Remote => {
                r.push("-R".to_owned());
                let mut v = decimal_chars(self.remote_port as u64);
                push_str(&mut v, ":localhost:");
                push_decimal(&mut v, self.local_port as u64);
                assert(v@ =~= dec_str(self.remote_port as nat) + ":localhost:"@ + dec_str(
                    self.local_port as nat,
                ));
                r.push(string_from_chars(&v));
            },
            ForwardKind::Dynamic => {
                r.push("-D".to_owned());
                let v = decimal_chars(self.local_port as u64);
                r.push(string_from_chars(&v));
            },
        }
        assert(str_views(r@) =~= self.args_of());
        r
    }

    /// Human-readable summary shown in the UI.
    pub fn summary(&self) -> (r: String)
        ensures
            r@ == self.summary_of(),
    {
        let mut v: Vec<char> = Vec::new();
        match self.kind {
            ForwardKind::Local => {
                push_str(&mut v, "localhost:");
                push_decimal(&mut v, self.local_port as u64);
                push_str(&mut v, " → ");
                push_str(&mut v, self.remote_host.as_str());
                v.push(':');
                push_decimal(&mut v, self.remote_port as u64);
            },
            ForwardKind::Remote => {
                push_str(&mut v, self.remote_host.as_str());
                v.push(':');
                push_decimal(&mut v, self.remote_port as u64);
                push_str(&mut v, " ← localhost:");
                push_decimal(&mut v, self.local_port as u64);
            },
            ForwardKind::Dynamic => {
                push_str(&mut v, "SOCKS5 proxy on localhost:");
                push_decimal(&mut v, self.local_port as u64);
            },
        }
        assert(v@ =~= self.summary_of());
        string_from_chars(&v)
    }
}


/// Appends the strings of `more` to `out`.
pub fn extend_strings(out: &mut Vec<String>, more: Vec<String>)
    ensures
        str_views(final(out)@) == str_views(old(out)@) + str_views(more@),
{
    let mut i: usize = 0;
    while i < more.len()
        invariant
            i <= more@.len(),
            str_views(out@) == str_views(old(out)@) + str_views(more@.take(i as int)),
        decreases more@.len() - i,
    {
        let ghost prev = out@;
        out.push(more[i].clone());
        proof {
            assert(more@.take(i + 1) =~= more@.take(i as int).push(more@[i as int]));
            assert(out@ =~= prev.push(more@[i as int]));
            assert(str_views(more@.take(i + 1)) =~= str_views(more@.take(i as int)).push(
                more@[i as int]@,
            ));
            assert(str_views(out@) =~= str_views(prev).push(more@[i as int]@));
        }
        i += 1;
    }
    assert(more@.take(more@.len() as int) =~= more@);
}


/// Appends the `ssh` arguments of the rules `fwds` to `args`.
pub fn push_forward_args(args: &mut Vec<String>, fwds: &Vec<PortForward>)
    ensures
        str_views(final(args)@) == str_views(old(args)@) + forward_args(fwds@),
{
    let ghost a1 = str_views(args@);
    let mut i: usize = 0;
    assert(fwds@.take(0) =~= Seq::<PortForward>::empty());
    assert(str_views(args@) =~= a1 + forward_args(fwds@.take(0)));
    while i < fwds.len()
        invariant
            i <= fwds@.len(),
            str_views(args@) == a1 + forward_args(fwds@.take(i as int)),
        decreases fwds@.len() - i,
    {
        let more = fwds[i].ssh_args();
        extend_strings(args, more);
        proof {
            let fs = fwds@;
            let f = |x: PortForward| x.args_of();
            assert(fs.take(i + 1) =~= fs.take(i as int).push(fs[i as int]));
            assert(fs.take(i + 1).map_values(f) =~= fs.take(i as int).map_values(f).push(
                fs[i as int].args_of(),
            ));
            fs.take(i as int).map_values(f).lemma_flatten_push(fs[i as int].args_of());
        }
        i += 1;
    }
    assert(fwds@.take(i as int) =~= fwds@);
}

// ── SSHFS mounts ─────────────────────────────────────────────────────────────

/// One SSHFS mount of a remote directory.
#[derive(Debug)]
pub struct SshMount {
    /// Remote path on the server (e.g. /var/www).
    pub remote_path: String,
    /// Local mountpoint (e.g. ~/mnt/prod-www).
    pub local_path: String,
    /// Mount automatically when the connection opens.
    pub auto_mount: bool,
}

impl Clone for SshMount {
    fn clone(&self) -> (r: Self)
        ensures
            r == *self,
    {
        SshMount {
            remote_path: self.remote_path.clone(),
            local_path: self.local_path.clone(),
            auto_mount: self.auto_mount,
        }
    }
}

impl SshMount {
    /// The tooltip text, given the expanded local path.
    pub open spec fn summary_with(self, local: Seq<char>) -> Seq<char> {
        self.remote_path@ + " → "@ + local
    }

    /// The `sshfs` arguments for mounting through `conn`, given the expanded
    /// local path.
    pub open spec fn sshfs_args_with(self, conn: SshConnection, local: Seq<char>) -> Seq<
        Seq<char>,
    > {
        seq![conn.username@ + seq!['@'] + conn.host@ + seq![':'] + self.remote_path@, local]
            + (if conn.port != 22 {
            seq!["-p"@, dec_str(conn.port as nat)]
        } else {
            seq![]
        }) + (match conn.auth {
            AuthMethod::Key(path) => seq!["-o"@, "IdentityFile="@ + path@],
            _ => seq![],
        }) + seq!["-o"@, "StrictHostKeyChecking=accept-new"@]
    }

    /// A fresh mount with empty paths, mounted automatically.
    pub fn new() -> (r: Self)
        ensures
            r.remote_path@ == Seq::<char>::empty(),
            r.local_path@ == Seq::<char>::empty(),
            r.auto_mount,
    {
        SshMount { remote_path: String::new(), local_path: String::new(), auto_mount: true }
    }

    /// Human-readable summary for tooltips: remote path, arrow, local path
    /// with `~` expanded.
    pub fn summary(&self) -> (r: String)
        ensures
            exists|local: Seq<char>|
                tilde_outcome(self.local_path@, local) && r@ == self.summary_with(local),
    {
        let local = expand_tilde(self.local_path.as_str());
        let mut v = chars_of(self.remote_path.as_str());
        push_str(&mut v, " → ");
        push_str(&mut v, local.as_str());
        assert(v@ =~= self.summary_with(local@));
        string_from_chars(&v)
    }

    /// The `sshfs` command arguments for this mount.
    pub fn sshfs_args(&self, conn: &SshConnection) -> (r: Vec<String>)
        ensures
            exists|local: Seq<char>|
                tilde_outcome(self.local_path@, local) && str_views(r@) == self.sshfs_args_with(
                    *conn,
                    local,
                ),
    {
        let local = expand_tilde(self.local_path.as_str());
        let ghost lv = local@;
        let mut first = chars_of(conn.username.as_str());
        first.push('@');
        push_str(&mut first, conn.host.as_str());
        first.push(':');
        push_str(&mut first, self.remote_path.as_str());
        let mut args: Vec<String> = Vec::new();
        args.push(string_from_chars(&first));
        args.push(local);
        let ghost a0 = str_views(args@);
        if conn.port != 22 {
            args.push("-p".to_owned());
            let d = decimal_chars(conn.port as u64);
            args.push(string_from_chars(&d));
        }
        let ghost a1 = str_views(args@);
        match &conn.auth {
            AuthMethod::Key(path) => {
                args.push("-o".to_owned());
                let mut o = chars_of("IdentityFile=");
                push_str(&mut o, path.as_str());
                args.push(string_from_chars(&o));
            },
            _ => {},
        }
        let ghost a2 = str_views(args@);
        args.push("-o".to_owned());
        args.push("StrictHostKeyChecking=accept-new".to_owned());
        proof {
            assert(first@ =~= conn.username@ + seq!['@'] + conn.host@ + seq![':']
                + self.remote_path@);
            assert(a0 =~= seq![first@, lv]);
            let p = if conn.port != 22 {
                seq!["-p"@, dec_str(conn.port as nat)]
            } else {
                seq![]
            };
            let k = match &conn.auth {
                AuthMethod::Key(path) => seq!["-o"@, "IdentityFile="@ + path@],
                _ => seq![],
            };
            assert(a1 =~= a0 + p);
            assert(a2 =~= a1 + k);
            assert(str_views(args@) =~= self.sshfs_args_with(*conn, lv));
        }
        args
    }

    /// The `fusermount3 -u <local_path>` arguments, with `~` expanded.
    pub fn unmount_args(&self) -> (r: Vec<String>)
        ensures
            exists|local: Seq<char>|
                tilde_outcome(self.local_path@, local) && str_views(r@) == seq!["-u"@, local],
    {
        let local = expand_tilde(self.local_path.as_str());
        let mut args: Vec<String> = Vec::new();
        args.push("-u".to_owned());
        args.push(local);
        assert(str_views(args@) =~= seq!["-u"@, args@[1]@]);
        args
    }
}

// ── Connection ───────────────────────────────────────────────────────────────

/// A saved SSH connection.
#[derive(Debug)]
pub struct SshConnection {
    pub id: String,
    pub name: String,
    pub host: String,
    pub port: u16,
    pub username: String,
    pub auth: AuthMethod,
    pub favorite: bool,
    pub last_used: Option<Timestamp>,
    pub description: String,
    pub port_forwards: Vec<PortForward>,
    /// Whether the user opted to save the password in the OS keyring.
    pub save_password: bool,
    /// SSHFS mounts for this connection.
    pub mounts: Vec<SshMount>,
    /// Namespace / group label. Empty = ungrouped.
    pub group: String,
    /// Override of the global session-logging setting; `None` follows it.
    pub log_session: Option<bool>,
    /// When true, the remote shell runs inside `tmux new-session -A -s <name>`
    /// so that it survives the app being closed.
    pub persistent: bool,
    /// Tmux session name (derived from the id when blank).
    pub tmux_session: String,
}

impl Clone for SshConnection {
    fn clone(&self) -> (r: Self)
        ensures
            r.same(*self),
    {
        let fw = self.port_forwards.clone();
        let ms = self.mounts.clone();
        assert(fw@ =~= self.port_forwards@);
        assert(ms@ =~= self.mounts@);
        SshConnection {
            id: self.id.clone(),
            name: self.name.clone(),
            host: self.host.clone(),
            port: self.port,
            username: self.username.clone(),
            auth: self.auth.clone(),
            favorite: self.favorite,
            last_used: self.last_used,
            description: self.description.clone(),
            port_forwards: fw,
            save_password: self.save_password,
            mounts: ms,
            group: self.group.clone(),
            log_session: self.log_session,
            persistent: self.persistent,
            tmux_session: self.tmux_session.clone(),
        }
    }
}

/// The local ports that forwarding rules bind: those of the `-L` and `-D`
/// rules, in order.
pub open spec fn local_ports_of(fwds: Seq<PortForward>) -> Seq<u16> {
    fwds.filter(|f: PortForward| f.kind != ForwardKind::Remote).map_values(
        |f: PortForward| f.local_port,
    )
}

/// The `ssh` arguments of a list of forwarding rules, in order.
pub open spec fn forward_args(fwds: Seq<PortForward>) -> Seq<Seq<char>> {
    fwds.map_values(|f: PortForward| f.args_of()).flatten()
}

impl SshConnection {
    /// Whether `self` and `o` hold the same data, field by field.
    pub open spec fn same(self, o: Self) -> bool {
        &&& self.id == o.id
        &&& self.name == o.name
        &&& self.host == o.host
        &&& self.port == o.port
        &&& self.username == o.username
        &&& self.auth == o.auth
        &&& self.favorite == o.favorite
        &&& self.last_used == o.last_used
        &&& self.description == o.description
        &&& self.port_forwards@ == o.port_forwards@
        &&& self.save_password == o.save_password
        &&& self.mounts@ == o.mounts@
        &&& self.group == o.group
        &&& self.log_session == o.log_session
        &&& self.persistent == o.persistent
        &&& self.tmux_session == o.tmux_session
    }

    /// Whether `self` and `o` hold the same text and settings, compared by
    /// their views, leaving the time of last use aside.
    pub open spec fn same_fields(self, o: Self) -> bool {
        &&& self.id@ == o.id@
        &&& self.name@ == o.name@
        &&& self.host@ == o.host@
        &&& self.port == o.port
        &&& self.username@ == o.username@
        &&& auth_view(self.auth) == auth_view(o.auth)
        &&& self.favorite == o.favorite
        &&& self.description@ == o.description@
        &&& self.port_forwards@ == o.port_forwards@
        &&& self.save_password == o.save_password
        &&& self.mounts@ == o.mounts@
        &&& self.group@ == o.group@
        &&& self.log_session == o.log_session
        &&& self.persistent == o.persistent
        &&& self.tmux_session@ == o.tmux_session@
    }

    /// Whether the connection has the shape that saving a form produces: an
    /// id, a name and a host, and no surrounding whitespace in its text.
    pub open spec fn is_tidy(self) -> bool {
        &&& self.id@.len() > 0
        &&& self.name@.len() > 0
        &&& self.host@.len() > 0
        &&& trim(self.name@) == self.name@
        &&& trim(self.host@) == self.host@
        &&& trim(self.username@) == self.username@
        &&& trim(self.description@) == self.description@
        &&& trim(self.group@) == self.group@
        &&& trim(self.tmux_session@) == self.tmux_session@
        &&& (self.auth matches AuthMethod::Key(p) ==> trim(p@) == p@)
    }

    /// `user@host`.
    pub open spec fn destination(self) -> Seq<char> {
        self.username@ + seq!['@'] + self.host@
    }

    /// Whether `tmux_name` can be computed: an explicit session name, or an
    /// id whose first eight bytes end on a character boundary.
    pub open spec fn tmux_name_ok(self) -> bool {
        trim(self.tmux_session@).len() > 0 || has_byte_prefix(self.id@, 8)
    }

    /// The tmux session name: the explicit one, or `shellkeeper-` followed by
    /// the first eight bytes of the id.
    pub open spec fn tmux_name_of(self) -> Seq<char> {
        if trim(self.tmux_session@).len() == 0 {
            "shellkeeper-"@ + byte_prefix(self.id@, 8)
        } else {
            self.tmux_session@
        }
    }

    /// The argument list for the `ssh` binary.
    pub open spec fn ssh_args_of(self) -> Seq<Seq<char>> {
        (if self.port != 22 {
            seq!["-p"@, dec_str(self.port as nat)]
        } else {
            seq![]
        }) + (match self.auth {
            AuthMethod::Key(path) => seq!["-i"@, path@],
            _ => seq![],
        }) + forward_args(self.port_forwards@) + seq![
            "-o"@,
            "StrictHostKeyChecking=accept-new"@,
        ] + (if self.persistent {
            seq!["-t"@, self.destination(), "tmux new-session -A -s "@ + self.tmux_name_of()]
        } else {
            seq![self.destination()]
        })
    }

    /// `host`, or `host:port` where the port is not 22.
    pub open spec fn display_host_of(self) -> Seq<char> {
        if self.port != 22 {
            self.host@ + seq![':'] + dec_str(self.port as nat)
        } else {
            self.host@
        }
    }

    /// `user@host[:port]`.
    pub open spec fn subtitle_of(self) -> Seq<char> {
        self.username@ + seq!['@'] + self.display_host_of()
    }

    /// The tmux session name: the explicit one, or `shellkeeper-` followed by
    /// the first eight bytes of the id.
    pub fn tmux_name(&self) -> (r: String)
        requires
            self.tmux_name_ok(),
        ensures
            r@ == self.tmux_name_of(),
    {
        let t = chars_of(self.tmux_session.as_str());
        let tt = trim_chars(&t);
        if tt.len() == 0 {
            let idc = chars_of(self.id.as_str());
            match byte_prefix_exec(&idc, 8) {
                Some(p) => {
                    let mut v = chars_of("shellkeeper-");
                    push_all(&mut v, &p);
                    string_from_chars(&v)
                },
                None => {
                    assert(false);
                    String::new()
                },
            }
        } else {
            self.tmux_session.clone()
        }
    }

    /// Whether the tmux session name can be computed.
    pub fn has_tmux_name(&self) -> (r: bool)
        ensures
            r == self.tmux_name_ok(),
    {
        let t = chars_of(self.tmux_session.as_str());
        let tt = trim_chars(&t);
        if tt.len() > 0 {
            return true;
        }
        let idc = chars_of(self.id.as_str());
        byte_prefix_exec(&idc, 8).is_some()
    }

    /// The argument list for the `ssh` binary.
    pub fn ssh_args(&self) -> (r: Vec<String>)
        requires
            self.persistent ==> self.tmux_name_ok(),
        ensures
            str_views(r@) == self.ssh_args_of(),
    {
        let mut args: Vec<String> = Vec::new();
        if self.port != 22 {
            args.push("-p".to_owned());
            let d = decimal_chars(self.port as u64);
            args.push(string_from_chars(&d));
        }
        let ghost a0 = str_views(args@);
        match &self.auth {
            AuthMethod::Key(path) => {
                args.push("-i".to_owned());
                args.push(path.clone());
            },
            _ => {},
        }
        let ghost a1 = str_views(args@);
        push_forward_args(&mut args, &self.port_forwards);
        let ghost a2 = str_views(args@);
        args.push("-o".to_owned());
        args.push("StrictHostKeyChecking=accept-new".to_owned());
        let ghost a3 = str_views(args@);
        let mut dest = chars_of(self.username.as_str());
        dest.push('@');
        push_str(&mut dest, self.host.as_str());
        assert(dest@ =~= self.destination());
        if self.persistent {
            args.push("-t".to_owned());
            args.push(string_from_chars(&dest));
            let name = self.tmux_name();
            let mut cmd = chars_of("tmux new-session -A -s ");
            push_str(&mut cmd, name.as_str());
            args.push(string_from_chars(&cmd));
        } else {
            args.push(string_from_chars(&dest));
        }
        proof {
            let p = if self.port != 22 {
                seq!["-p"@, dec_str(self.port as nat)]
            } else {
                seq![]
            };
            let k = match &self.auth {
                AuthMethod::Key(path) => seq!["-i"@, path@],
                _ => seq![],
            };
            assert(a0 =~= p);
            assert(a1 =~= a0 + k);
            assert(a3 =~= a2 + seq!["-o"@, "StrictHostKeyChecking=accept-new"@]);
            assert(str_views(args@) =~= self.ssh_args_of());
        }
        args
    }

    /// The local ports this connection binds, to detect conflicts: those of
    /// its `-L` and `-D` rules, in rule order. A `-R` rule binds a port on
    /// the server, not here.
    pub fn local_ports(&self) -> (r: Vec<u16>)
        ensures
            r@ == local_ports_of(self.port_forwards@),
    {
        let mut r: Vec<u16> = Vec::new();
        let mut i: usize = 0;
        while i < self.port_forwards.len()
            invariant
                i <= self.port_forwards@.len(),
                r@ == local_ports_of(self.port_forwards@.take(i as int)),
            decreases self.port_forwards@.len() - i,
        {
            let f = &self.port_forwards[i];
            proof {
                let s = self.port_forwards@.take(i + 1);
                assert(s.drop_last() =~= self.port_forwards@.take(i as int));
                assert(s.last() == *f);
                reveal_with_fuel(Seq::<_>::filter, 1);
            }
            if f.kind != ForwardKind::Remote {
                r.push(f.local_port);
            }
            i += 1;
            proof {
                let pred = |f: PortForward| f.kind != ForwardKind::Remote;
                let s = self.port_forwards@.take(i as int);
                if s.last().kind != ForwardKind::Remote {
                    assert(s.filter(pred) == s.drop_last().filter(pred).push(s.last()));
                    assert(s.filter(pred).map_values(|f: PortForward| f.local_port)
                        =~= s.drop_last().filter(pred).map_values(|f: PortForward| f.local_port).push(
                        s.last().local_port,
                    ));
                } else {
                    assert(s.filter(pred) == s.drop_last().filter(pred));
                }
            }
        }
        assert(self.port_forwards@.take(i as int) =~= self.port_forwards@);
        r
    }

    /// `host`, or `host:port` where the port is not 22.
    pub fn display_host(&self) -> (r: String)
        ensures
            r@ == self.display_host_of(),
    {
        if self.port != 22 {
            let mut v = chars_of(self.host.as_str());
            v.push(':');
            push_decimal(&mut v, self.port as u64);
            assert(v@ =~= self.display_host_of());
            string_from_chars(&v)
        } else {
            self.host.clone()
        }
    }

    /// One-line label shown below the name in the sidebar: `user@host[:port]`.
    pub fn subtitle(&self) -> (r: String)
        ensures
            r@ == self.subtitle_of(),
    {
        let mut v = chars_of(self.username.as_str());
        v.push('@');
        let d = self.display_host();
        push_str(&mut v, d.as_str());
        assert(v@ =~= self.subtitle_of());
        string_from_chars(&v)
    }
}


/// Eight ASCII characters take eight bytes.
proof fn lemma_ascii_utf8_len(s: Seq<char>)
    requires
        forall|i: int| 0 <= i < s.len() ==> (#[trigger] s[i] as u32) < 0x80,
    ensures
        utf8_len(s) == s.len(),
    decreases s.len(),
{
    if s.len() > 0 {
        assert forall|i: int| 0 <= i < s.drop_first().len() implies (#[trigger] s.drop_first()[i] as u32) < 0x80 by {
            assert(s.drop_first()[i] == s[i + 1]);
        }
        lemma_ascii_utf8_len(s.drop_first());
    }
}

/// A UUID's first eight characters are eight bytes, so a connection with a
/// generated id can always derive its tmux session name.
pub proof fn lemma_uuid_has_tmux_prefix(id: Seq<char>)
    requires
        is_uuid_text(id),
    ensures
        has_byte_prefix(id, 8),
{
    let p = id.take(8);
    assert forall|i: int| 0 <= i < p.len() implies (#[trigger] p[i] as u32) < 0x80 by {
        assert(p[i] == id[i]);
        assert(crate::host::is_lower_hex(id[i]));
    }
    lemma_ascii_utf8_len(p);
    assert(0 <= 8 <= id.len() && utf8_len(id.take(8)) == 8);
}

impl SshConnection {
    /// A new connection with a fresh id, port 22, the given user name, agent
    /// authentication, and nothing else set.
    pub fn with_defaults(username: String) -> (r: Self)
        ensures
            is_uuid_text(r.id@),
            r.tmux_name_ok(),
            r.name@.len() == 0,
            r.host@.len() == 0,
            r.port == 22,
            r.username == username,
            r.auth == AuthMethod::Agent,
            !r.favorite,
            r.last_used is None,
            r.description@.len() == 0,
            r.port_forwards@.len() == 0,
            !r.save_password,
            r.mounts@.len() == 0,
            r.group@.len() == 0,
            r.log_session is None,
            !r.persistent,
            r.tmux_session@.len() == 0,
    {
        let id = new_uuid_string();
        proof {
            lemma_uuid_has_tmux_prefix(id@);
        }
        SshConnection {
            id,
            name: String::new(),
            host: String::new(),
            port: 22,
            username,
            auth: AuthMethod::Agent,
            favorite: false,
            last_used: None,
            description: String::new(),
            port_forwards: Vec::new(),
            save_password: false,
            mounts: Vec::new(),
            group: String::new(),
            log_session: None,
            persistent: false,
            tmux_session: String::new(),
        }
    }
}

/// The `ssh` arguments of a list of forwarding rules are two per rule, in the
/// rules' order: the rule's flag, then its value.
pub proof fn lemma_forward_args_pairs(fw: Seq<PortForward>)
    ensures
        forward_args(fw).len() == 2 * fw.len(),
        forall|k: int|
            0 <= k < fw.len() ==> forward_args(fw)[2 * k] == (#[trigger] fw[k]).args_of()[0]
                && forward_args(fw)[2 * k + 1] == fw[k].args_of()[1],
    decreases fw.len(),
{
    if fw.len() > 0 {
        let p = fw.drop_last();
        lemma_forward_args_pairs(p);
        let f = |x: PortForward| x.args_of();
        assert(fw =~= p.push(fw.last()));
        assert(fw.map_values(f) =~= p.map_values(f).push(fw.last().args_of()));
        p.map_values(f).lemma_flatten_push(fw.last().args_of());
        let l = fw.last().args_of();
        assert(l.len() == 2);
        assert forall|k: int| 0 <= k < fw.len() implies forward_args(fw)[2 * k] == (
        #[trigger] fw[k]).args_of()[0] && forward_args(fw)[2 * k + 1] == fw[k].args_of()[1] by {
            if k < p.len() {
                assert(fw[k] == p[k]);
            }
        }
    } else {
        assert(fw.map_values(|x: PortForward| x.args_of()) =~= Seq::<Seq<Seq<char>>>::empty());
    }
}

/// The layout of a connection's `ssh` arguments: the port option where the
/// port is not 22, the key option for a key file, then the arguments of every
/// forwarding rule in the rules' order, whether or not the session is
/// persistent, then `-o StrictHostKeyChecking=accept-new`, and last the
/// destination, or for a persistent session `-t`, the destination and the
/// tmux command that attaches to (or creates) the session.
pub proof fn lemma_ssh_args_layout(c: SshConnection)
    ensures
        ({
            let n = (if c.port != 22 {
                2int
            } else {
                0int
            }) + (if c.auth is Key {
                2int
            } else {
                0int
            });
            let fa = forward_args(c.port_forwards@);
            let m = n + 2 * c.port_forwards@.len();
            let a = c.ssh_args_of();
            &&& a.len() == m + (if c.persistent {
                5int
            } else {
                3int
            })
            &&& a.subrange(n, m) == fa
            &&& forall|k: int|
                0 <= k < c.port_forwards@.len() ==> a[n + 2 * k] == (
                #[trigger] c.port_forwards@[k]).args_of()[0] && a[n + 2 * k + 1]
                    == c.port_forwards@[k].args_of()[1]
            &&& a[m] == "-o"@
            &&& a[m + 1] == "StrictHostKeyChecking=accept-new"@
            &&& (c.port != 22 ==> a[0] == "-p"@ && a[1] == dec_str(c.port as nat))
            &&& (c.auth matches AuthMethod::Key(p) ==> a[n - 2] == "-i"@ && a[n - 1] == p@)
            &&& (c.persistent ==> a[m + 2] == "-t"@ && a[m + 3] == c.destination() && a[m + 4]
                == "tmux new-session -A -s "@ + c.tmux_name_of())
            &&& (!c.persistent ==> a[m + 2] == c.destination())
        }),
{
    lemma_forward_args_pairs(c.port_forwards@);
    let n = (if c.port != 22 {
        2int
    } else {
        0int
    }) + (if c.auth is Key {
        2int
    } else {
        0int
    });
    let pp: Seq<Seq<char>> = if c.port != 22 {
        seq!["-p"@, dec_str(c.port as nat)]
    } else {
        seq![]
    };
    let kp: Seq<Seq<char>> = match c.auth {
        AuthMethod::Key(path) => seq!["-i"@, path@],
        _ => seq![],
    };
    let fa = forward_args(c.port_forwards@);
    let o = seq!["-o"@, "StrictHostKeyChecking=accept-new"@];
    let tail: Seq<Seq<char>> = if c.persistent {
        seq!["-t"@, c.destination(), "tmux new-session -A -s "@ + c.tmux_name_of()]
    } else {
        seq![c.destination()]
    };
    let a = c.ssh_args_of();
    assert(a == pp + kp + fa + o + tail);
    assert((pp + kp).len() == n);
    assert(a.subrange(n, n + fa.len()) =~= fa);
    assert forall|k: int| 0 <= k < c.port_forwards@.len() implies a[n + 2 * k] == (
    #[trigger] c.port_forwards@[k]).args_of()[0] && a[n + 2 * k + 1]
        == c.port_forwards@[k].args_of()[1] by {
        assert(a[n + 2 * k] == fa[2 * k]);
        assert(a[n + 2 * k + 1] == fa[2 * k + 1]);
    }
}

/// The `sshfs` arguments of a mount: first `user@host:remote`, then the local
/// mount point, then `-p` and the port where it is not 22, then the key file
/// as `-o IdentityFile=<path>` for key authentication, and last
/// `-o StrictHostKeyChecking=accept-new`.
pub proof fn lemma_sshfs_args_layout(m: SshMount, conn: SshConnection, local: Seq<char>)
    ensures
        ({
            let a = m.sshfs_args_with(conn, local);
            let n = 2 + (if conn.port != 22 {
                2int
            } else {
                0int
            }) + (if conn.auth is Key {
                2int
            } else {
                0int
            });
            &&& a.len() == n + 2
            &&& a[0] == conn.username@ + seq!['@'] + conn.host@ + seq![':'] + m.remote_path@
            &&& a[1] == local
            &&& (conn.port != 22 ==> a[2] == "-p"@ && a[3] == dec_str(conn.port as nat))
            &&& (conn.auth matches AuthMethod::Key(p) ==> a[n - 2] == "-o"@ && a[n - 1]
                == "IdentityFile="@ + p@)
            &&& a[n] == "-o"@
            &&& a[n + 1] == "StrictHostKeyChecking=accept-new"@
        }),
{
}

} // verus!
