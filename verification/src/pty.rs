//! Decisions behind a terminal session: which program runs, with which
//! arguments, how the tab and the log directory are named, which shell a
//! local tab starts.
use vstd::prelude::*;

use crate::models::{AuthMethod, SshConnection};
use crate::text::{
    chars_of, is_alphanumeric, is_alphanumeric_char, join, join_strings, lowercase, push_str,
    str_views, string_from_chars, to_lowercase, trim, trim_chars,
};

verus! {

/// The character a log directory name keeps for `c`: letters, digits, `-`
/// and `_` stay, anything else becomes `_`.
pub open spec fn safe_char(c: char) -> char {
    if is_alphanumeric(c) || c == '-' || c == '_' {
        c
    } else {
        '_'
    }
}

/// `s` made safe as a directory name: unsafe characters replaced by `_`,
/// then lowercased.
pub open spec fn sanitized(s: Seq<char>) -> Seq<char> {
    lowercase(s.map_values(|c: char| safe_char(c)))
}

/// `s` made safe as a directory name.
pub fn sanitize_name(s: &str) -> (r: String)
    ensures
        r@ == sanitized(s@),
{
    let cs = chars_of(s);
    let mut out: Vec<char> = Vec::new();
    let mut i: usize = 0;
    while i < cs.len()
        invariant
            i <= cs@.len(),
            out@ == cs@.take(i as int).map_values(|c: char| safe_char(c)),
        decreases cs@.len() - i,
    {
        let c = cs[i];
        let k = if is_alphanumeric_char(c) || c == '-' || c == '_' {
            c
        } else {
            '_'
        };
        out.push(k);
        i += 1;
        assert(out@ =~= cs@.take(i as int).map_values(|c: char| safe_char(c)));
    }
    assert(cs@.take(i as int) =~= cs@);
    let m = string_from_chars(&out);
    to_lowercase(m.as_str())
}

/// The shell a local tab starts: the configured override where it is set
/// (trimmed) and names an existing file, else `$SHELL`, else `/bin/bash`.
pub open spec fn shell_choice(
    override_path: Seq<char>,
    override_exists: bool,
    env_shell: Option<Seq<char>>,
) -> Seq<char> {
    if trim(override_path).len() > 0 && override_exists {
        trim(override_path)
    } else {
        match env_shell {
            Some(s) => s,
            None => "/bin/bash"@,
        }
    }
}

/// The shell a local tab starts. `override_exists` tells whether the trimmed
/// override names an existing file; `env_shell` is `$SHELL`, if set.
pub fn resolve_shell(override_path: &str, override_exists: bool, env_shell: Option<String>) -> (r:
    String)
    ensures
        r@ == shell_choice(
            override_path@,
            override_exists,
            match env_shell {
                Some(s) => Some(s@),
                None => None,
            },
        ),
{
    let oc = chars_of(override_path);
    let ot = trim_chars(&oc);
    if ot.len() > 0 && override_exists {
        return string_from_chars(&ot);
    }
    match env_shell {
        Some(s) => s,
        None => "/bin/bash".to_owned(),
    }
}

/// Whether opening `conn` looks up a password saved in the keyring: it asks
/// for password authentication with the password saved.
pub open spec fn uses_saved_password(conn: SshConnection) -> bool {
    conn.save_password && conn.auth == AuthMethod::Password
}

/// Whether opening `conn` looks up a password saved in the keyring.
pub fn wants_saved_password(conn: &SshConnection) -> (r: bool)
    ensures
        r == uses_saved_password(*conn),
{
    conn.save_password && match conn.auth {
        AuthMethod::Password => true,
        _ => false,
    }
}

/// The program and arguments that open `conn`: `ssh` with the connection's
/// arguments, or, with a saved password, `sshpass -p <password> ssh` with
/// them.
pub open spec fn launch_of(conn: SshConnection, saved_password: Option<Seq<char>>) -> (
    Seq<char>,
    Seq<Seq<char>>,
) {
    match saved_password {
        Some(p) => ("sshpass"@, seq!["-p"@, p, "ssh"@] + conn.ssh_args_of()),
        None => ("ssh"@, conn.ssh_args_of()),
    }
}

/// The program and arguments that open `conn`.
pub fn ssh_launch(conn: &SshConnection, saved_password: Option<String>) -> (r: (String, Vec<
    String,
>))
    requires
        conn.persistent ==> conn.tmux_name_ok(),
    ensures
        r.0@ == launch_of(
            *conn,
            match saved_password {
                Some(p) => Some(p@),
                None => None,
            },
        ).0,
        str_views(r.1@) == launch_of(
            *conn,
            match saved_password {
                Some(p) => Some(p@),
                None => None,
            },
        ).1,
{
    match saved_password {
        Some(p) => {
            let mut args: Vec<String> = Vec::new();
            args.push("-p".to_owned());
            args.push(p);
            args.push("ssh".to_owned());
            let rest = conn.ssh_args();
            crate::models::extend_strings(&mut args, rest);
            ("sshpass".to_owned(), args)
        },
        None => ("ssh".to_owned(), conn.ssh_args()),
    }
}

/// The command shown while connecting: `ssh` and the arguments, spaced.
pub open spec fn command_line_of(conn: SshConnection) -> Seq<char> {
    "ssh "@ + join(conn.ssh_args_of(), seq![' '])
}

/// The command shown while connecting.
pub fn ssh_command_line(conn: &SshConnection) -> (r: String)
    requires
        conn.persistent ==> conn.tmux_name_ok(),
    ensures
        r@ == command_line_of(*conn),
{
    let args = conn.ssh_args();
    let j = join_strings(&args, " ");
    let mut v = chars_of("ssh ");
    push_str(&mut v, j.as_str());
    proof {
        reveal_strlit(" ");
        assert(" "@ =~= seq![' ']);
    }
    string_from_chars(&v)
}

/// A tab's label: the connection's name, or `Local` for a local shell.
pub fn tab_label(conn: Option<&SshConnection>) -> (r: String)
    ensures
        r@ == match conn {
            Some(c) => c.name@,
            None => "Local"@,
        },
{
    match conn {
        Some(c) => c.name.clone(),
        None => "Local".to_owned(),
    }
}

/// The directory under the log directory that a session logs into: the
/// sanitized connection name, or `local` for a local shell.
pub fn log_dir_name(conn: Option<&SshConnection>) -> (r: String)
    ensures
        r@ == match conn {
            Some(c) => sanitized(c.name@),
            None => "local"@,
        },
{
    match conn {
        Some(c) => sanitize_name(c.name.as_str()),
        None => "local".to_owned(),
    }
}

/// Where a session's log goes below the log directory: the directory named
/// for the connection (`log_dir_name`) and, in it, the file named by the time
/// stamp followed by `.log`.
pub fn log_file_parts(conn: Option<&SshConnection>, stamp: &str) -> (r: (String, String))
    ensures
        r.0@ == match conn {
            Some(c) => sanitized(c.name@),
            None => "local"@,
        },
        r.1@ == stamp@ + ".log"@,
{
    let dir = log_dir_name(conn);
    let mut f = chars_of(stamp);
    push_str(&mut f, ".log");
    (dir, string_from_chars(&f))
}

/// Opening a connection with a saved password runs `sshpass -p <password>
/// ssh` followed by exactly the arguments that plain `ssh` gets without one,
/// and the command shown while connecting is `ssh` and those arguments.
pub proof fn lemma_saved_password_wraps_ssh(conn: SshConnection, p: Seq<char>)
    ensures
        launch_of(conn, None).0 == "ssh"@,
        launch_of(conn, None).1 == conn.ssh_args_of(),
        launch_of(conn, Some(p)).0 == "sshpass"@,
        launch_of(conn, Some(p)).1 == seq!["-p"@, p, "ssh"@] + launch_of(conn, None).1,
        command_line_of(conn) == "ssh "@ + join(launch_of(conn, None).1, seq![' ']),
{
}

} // verus!
