use shellkeeper::models::{AuthMethod, ForwardKind, PortForward, SshConnection, SshMount, Timestamp};
use shellkeeper::pty::{
    log_file_parts,
    log_dir_name, resolve_shell, sanitize_name, ssh_command_line, ssh_launch, tab_label,
    wants_saved_password,
};

const ID: &str = "0123abcd-0000-4000-8000-000000000000";

fn conn(name: &str, host: &str, port: u16, user: &str) -> SshConnection {
    SshConnection {
        id: ID.to_string(),
        name: name.to_string(),
        host: host.to_string(),
        port,
        username: user.to_string(),
        auth: AuthMethod::Agent,
        favorite: false,
        last_used: None,
        description: String::new(),
        port_forwards: vec![],
        save_password: false,
        mounts: vec![],
        group: String::new(),
        log_session: None,
        persistent: false,
        tmux_session: String::new(),
    }
}

fn fwd(kind: ForwardKind, local: u16, host: &str, remote: u16) -> PortForward {
    PortForward { kind, local_port: local, remote_host: host.to_string(), remote_port: remote }
}

#[test]
fn local_forward_args_and_summary() {
    let f = fwd(ForwardKind::Local, 8080, "db", 5432);
    assert_eq!(f.ssh_args(), vec!["-L".to_string(), "8080:db:5432".to_string()]);
    assert_eq!(f.summary(), "localhost:8080 → db:5432");
}

#[test]
fn remote_forward_args_and_summary() {
    let f = fwd(ForwardKind::Remote, 3000, "box", 9000);
    assert_eq!(f.ssh_args(), vec!["-R".to_string(), "9000:localhost:3000".to_string()]);
    assert_eq!(f.summary(), "box:9000 ← localhost:3000");
}

#[test]
fn dynamic_forward_args_and_summary() {
    let f = fwd(ForwardKind::Dynamic, 1080, "", 0);
    assert_eq!(f.ssh_args(), vec!["-D".to_string(), "1080".to_string()]);
    assert_eq!(f.summary(), "SOCKS5 proxy on localhost:1080");
}

#[test]
fn new_local_forward_defaults() {
    let f = PortForward::new_local();
    assert_eq!(f.kind, ForwardKind::Local);
    assert_eq!(f.local_port, 8080);
    assert_eq!(f.remote_host, "");
    assert_eq!(f.remote_port, 80);
}

#[test]
fn forward_kind_labels_round_trip() {
    for k in [ForwardKind::Local, ForwardKind::Remote, ForwardKind::Dynamic] {
        assert_eq!(ForwardKind::from_label(k.label()), k);
    }
    assert_eq!(ForwardKind::from_label("something else"), ForwardKind::Local);
    assert_eq!(ForwardKind::variants(), &["Local  -L", "Remote -R", "Dynamic -D (SOCKS5)"]);
}

#[test]
fn auth_variants_and_default() {
    assert_eq!(AuthMethod::variants(), &["SSH Agent", "Password", "Key File"]);
    assert_eq!(AuthMethod::default(), AuthMethod::Agent);
}

#[test]
fn ssh_args_with_port_key_and_forward() {
    let mut c = conn("prod", "example.com", 2222, "alice");
    c.auth = AuthMethod::Key("~/.ssh/id".to_string());
    c.port_forwards = vec![fwd(ForwardKind::Local, 8080, "db", 5432)];
    let expected: Vec<String> = [
        "-p", "2222", "-i", "~/.ssh/id", "-L", "8080:db:5432", "-o",
        "StrictHostKeyChecking=accept-new", "alice@example.com",
    ]
    .iter()
    .map(|s| s.to_string())
    .collect();
    assert_eq!(c.ssh_args(), expected);
}

#[test]
fn ssh_args_persistent_uses_tmux() {
    let mut c = conn("prod", "example.com", 22, "alice");
    c.persistent = true;
    let expected: Vec<String> = [
        "-o", "StrictHostKeyChecking=accept-new", "-t", "alice@example.com",
        "tmux new-session -A -s shellkeeper-0123abcd",
    ]
    .iter()
    .map(|s| s.to_string())
    .collect();
    assert_eq!(c.ssh_args(), expected);
}

#[test]
fn tmux_name_explicit_or_derived() {
    let mut c = conn("prod", "example.com", 22, "alice");
    assert_eq!(c.tmux_name(), "shellkeeper-0123abcd");
    c.tmux_session = "work".to_string();
    assert_eq!(c.tmux_name(), "work");
    c.tmux_session = "   ".to_string();
    assert_eq!(c.tmux_name(), "shellkeeper-0123abcd");
}

#[test]
fn display_host_and_subtitle() {
    let c = conn("prod", "example.com", 22, "alice");
    assert_eq!(c.display_host(), "example.com");
    assert_eq!(c.subtitle(), "alice@example.com");
    let d = conn("prod", "example.com", 2222, "alice");
    assert_eq!(d.display_host(), "example.com:2222");
    assert_eq!(d.subtitle(), "alice@example.com:2222");
}

#[test]
fn local_ports_in_rule_order() {
    let mut c = conn("prod", "example.com", 22, "alice");
    c.port_forwards = vec![
        fwd(ForwardKind::Local, 8080, "db", 5432),
        fwd(ForwardKind::Dynamic, 1080, "", 0),
    ];
    assert_eq!(c.local_ports(), vec![8080, 1080]);
}

#[test]
fn with_defaults_has_uuid_and_tmux_name() {
    let c = SshConnection::with_defaults("bob".to_string());
    assert_eq!(c.id.len(), 36);
    for (i, ch) in c.id.chars().enumerate() {
        if i == 8 || i == 13 || i == 18 || i == 23 {
            assert_eq!(ch, '-');
        } else {
            assert!(ch.is_ascii_hexdigit() && !ch.is_ascii_uppercase());
        }
    }
    assert_eq!(c.port, 22);
    assert_eq!(c.username, "bob");
    assert_eq!(c.auth, AuthMethod::Agent);
    assert_eq!(c.tmux_name(), format!("shellkeeper-{}", &c.id[..8]));
    let d = SshConnection::with_defaults("bob".to_string());
    assert_ne!(c.id, d.id);
}

#[test]
fn sshfs_args_with_port_and_key() {
    let mut c = conn("prod", "example.com", 2222, "alice");
    c.auth = AuthMethod::Key("/k".to_string());
    let m = SshMount {
        remote_path: "/var/www".to_string(),
        local_path: "/mnt/www".to_string(),
        auto_mount: true,
    };
    let expected: Vec<String> = [
        "alice@example.com:/var/www", "/mnt/www", "-p", "2222", "-o", "IdentityFile=/k", "-o",
        "StrictHostKeyChecking=accept-new",
    ]
    .iter()
    .map(|s| s.to_string())
    .collect();
    assert_eq!(m.sshfs_args(&c), expected);
    assert_eq!(m.unmount_args(), vec!["-u".to_string(), "/mnt/www".to_string()]);
    assert_eq!(m.summary(), "/var/www → /mnt/www");
}

#[test]
fn mount_summary_expands_home() {
    let m = SshMount {
        remote_path: "/srv".to_string(),
        local_path: "~/mnt/srv".to_string(),
        auto_mount: false,
    };
    let s = m.summary();
    assert!(s.starts_with("/srv → "));
    assert!(!s.contains('~'));
    assert!(s.ends_with("/mnt/srv"));
    let u = m.unmount_args();
    assert!(!u[1].starts_with('~'));
}

#[test]
fn new_mount_defaults() {
    let m = SshMount::new();
    assert_eq!(m.remote_path, "");
    assert_eq!(m.local_path, "");
    assert!(m.auto_mount);
}

#[test]
fn timestamp_order() {
    let a = Timestamp { secs: 10, nanos: 5 };
    let b = Timestamp { secs: 10, nanos: 6 };
    let c = Timestamp { secs: 11, nanos: 0 };
    assert!(a.is_before(&b));
    assert!(b.is_before(&c));
    assert!(!b.is_before(&a));
    assert!(!a.is_before(&a));
}

#[test]
fn sanitize_replaces_and_lowercases() {
    assert_eq!(sanitize_name("My Server!"), "my_server_");
    assert_eq!(sanitize_name("Prod-DB_2"), "prod-db_2");
    assert_eq!(sanitize_name("Élan/1"), "élan_1");
}

#[test]
fn resolve_shell_choices() {
    assert_eq!(resolve_shell("  /bin/zsh ", true, Some("/bin/sh".to_string())), "/bin/zsh");
    assert_eq!(resolve_shell("/nope", false, Some("/bin/sh".to_string())), "/bin/sh");
    assert_eq!(resolve_shell("   ", true, None), "/bin/bash");
}

#[test]
fn launch_with_and_without_saved_password() {
    let mut c = conn("prod", "example.com", 22, "alice");
    assert!(!wants_saved_password(&c));
    let (prog, args) = ssh_launch(&c, None);
    assert_eq!(prog, "ssh");
    assert_eq!(args, c.ssh_args());
    c.auth = AuthMethod::Password;
    c.save_password = true;
    assert!(wants_saved_password(&c));
    let (prog, args) = ssh_launch(&c, Some("pw".to_string()));
    assert_eq!(prog, "sshpass");
    let mut expected = vec!["-p".to_string(), "pw".to_string(), "ssh".to_string()];
    expected.extend(c.ssh_args());
    assert_eq!(args, expected);
}

#[test]
fn command_line_and_labels() {
    let c = conn("Prod DB", "example.com", 22, "alice");
    assert_eq!(ssh_command_line(&c), "ssh -o StrictHostKeyChecking=accept-new alice@example.com");
    assert_eq!(tab_label(Some(&c)), "Prod DB");
    assert_eq!(tab_label(None), "Local");
    assert_eq!(log_dir_name(Some(&c)), "prod_db");
    assert_eq!(log_dir_name(None), "local");
}

#[test]
fn tmux_name_availability() {
    let mut c = conn("prod", "example.com", 22, "alice");
    assert!(c.has_tmux_name());
    c.id = "short".to_string();
    assert!(!c.has_tmux_name());
    c.tmux_session = "work".to_string();
    assert!(c.has_tmux_name());
    c.tmux_session = String::new();
    c.id = "ééééé".to_string();
    assert!(c.has_tmux_name());
    c.id = "aéééé".to_string();
    assert!(!c.has_tmux_name());
}

#[test]
fn remote_rules_bind_no_local_port() {
    let mut c = conn("prod", "example.com", 22, "alice");
    c.port_forwards = vec![
        fwd(ForwardKind::Remote, 3000, "box", 9000),
        fwd(ForwardKind::Local, 8080, "db", 5432),
        fwd(ForwardKind::Remote, 8081, "box", 9001),
        fwd(ForwardKind::Dynamic, 1080, "", 0),
    ];
    assert_eq!(c.local_ports(), vec![8080, 1080]);
    let mut only_remote = conn("r", "h", 22, "u");
    only_remote.port_forwards = vec![fwd(ForwardKind::Remote, 3000, "box", 9000)];
    assert_eq!(only_remote.local_ports(), Vec::<u16>::new());
}

#[test]
fn log_file_location() {
    let c = conn("Prod DB", "example.com", 22, "alice");
    let (d, f) = log_file_parts(Some(&c), "2024-01-02_03-04-05");
    assert_eq!(d, "prod_db");
    assert_eq!(f, "2024-01-02_03-04-05.log");
    let (d, f) = log_file_parts(None, "t");
    assert_eq!(d, "local");
    assert_eq!(f, "t.log");
}
