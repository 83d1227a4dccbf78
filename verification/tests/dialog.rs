use shellkeeper::models::{AuthMethod, ForwardKind, PortForward, SshConnection, Timestamp};
use shellkeeper::ui::dialog::{
    keyring_on_save, save_password_toggled, KeyringAction,
    build_ssh_preview, format_ssh_preview, log_setting_label, next_log_setting, ConnForm,
    DialogEvent, DialogState,
};

fn conn() -> SshConnection {
    SshConnection {
        id: "0123abcd-0000-4000-8000-000000000000".to_string(),
        name: "prod".to_string(),
        host: "example.com".to_string(),
        port: 2222,
        username: "alice".to_string(),
        auth: AuthMethod::Key("/home/alice/.ssh/id".to_string()),
        favorite: true,
        last_used: Some(Timestamp { secs: 1_700_000_000, nanos: 1 }),
        description: "main box".to_string(),
        port_forwards: vec![PortForward {
            kind: ForwardKind::Remote,
            local_port: 3000,
            remote_host: "localhost".to_string(),
            remote_port: 9000,
        }],
        save_password: false,
        mounts: vec![],
        group: "work".to_string(),
        log_session: Some(true),
        persistent: true,
        tmux_session: "main".to_string(),
    }
}

#[test]
fn edit_then_save_gives_the_connection_back() {
    let c = conn();
    let f = ConnForm::from_conn(&c);
    assert_eq!(f.port, "2222");
    assert_eq!(f.auth_label, "Key File");
    assert_eq!(f.key_path, "/home/alice/.ssh/id");
    let d = f.to_connection().expect("complete form");
    assert_eq!(d.id, c.id);
    assert_eq!(d.name, c.name);
    assert_eq!(d.host, c.host);
    assert_eq!(d.port, c.port);
    assert_eq!(d.username, c.username);
    assert_eq!(d.auth, c.auth);
    assert_eq!(d.favorite, c.favorite);
    assert_eq!(d.description, c.description);
    assert_eq!(d.port_forwards.len(), 1);
    assert_eq!(d.port_forwards[0].remote_port, 9000);
    assert_eq!(d.group, c.group);
    assert_eq!(d.log_session, c.log_session);
    assert_eq!(d.persistent, c.persistent);
    assert_eq!(d.tmux_session, c.tmux_session);
    assert_eq!(d.last_used, None);
}

#[test]
fn to_connection_trims_and_defaults() {
    let mut f = ConnForm::default();
    f.name = "  A ".to_string();
    f.host = " h ".to_string();
    f.port = "abc".to_string();
    f.username = " bob ".to_string();
    f.auth_label = "Key File".to_string();
    f.key_path = " /k ".to_string();
    let c = f.to_connection().unwrap();
    assert_eq!(c.name, "A");
    assert_eq!(c.host, "h");
    assert_eq!(c.port, 22);
    assert_eq!(c.username, "bob");
    assert_eq!(c.auth, AuthMethod::Key("/k".to_string()));
    assert_eq!(c.id.len(), 36);
    f.auth_label = "Password".to_string();
    assert_eq!(f.to_connection().unwrap().auth, AuthMethod::Password);
    f.auth_label = "anything".to_string();
    assert_eq!(f.to_connection().unwrap().auth, AuthMethod::Agent);
    f.port = "65535".to_string();
    assert_eq!(f.to_connection().unwrap().port, 65535);
    f.port = "65536".to_string();
    assert_eq!(f.to_connection().unwrap().port, 22);
}

#[test]
fn to_connection_needs_name_and_host() {
    let mut f = ConnForm::default();
    f.name = "A".to_string();
    f.host = "   ".to_string();
    assert!(f.to_connection().is_none());
    f.host = "h".to_string();
    f.name = "".to_string();
    assert!(f.to_connection().is_none());
}

#[test]
fn new_connection_form() {
    let f = ConnForm::for_new_connection(2200, "root");
    assert_eq!(f.port, "2200");
    assert_eq!(f.username, "root");
    assert_eq!(f.auth_label, "SSH Agent");
    assert!(f.is_new());
    assert!(!ConnForm::from_conn(&conn()).is_new());
}

#[test]
fn preview_empty_without_host() {
    let f = ConnForm::for_new_connection(22, "root");
    assert_eq!(build_ssh_preview(&f), "");
}

#[test]
fn preview_with_options() {
    let mut f = ConnForm::for_new_connection(2222, "");
    f.host = " example.com ".to_string();
    f.auth_label = "Key File".to_string();
    f.key_path = "~/.ssh/id".to_string();
    f.port_forwards = vec![PortForward {
        kind: ForwardKind::Local,
        local_port: 8080,
        remote_host: "db".to_string(),
        remote_port: 5432,
    }];
    assert_eq!(build_ssh_preview(&f), "ssh -p 2222 -i ~/.ssh/id -L 8080:db:5432 user@example.com");
    f.persistent = true;
    f.port = "22".to_string();
    f.username = "bob".to_string();
    assert_eq!(
        build_ssh_preview(&f),
        "ssh -i ~/.ssh/id -L 8080:db:5432 -t bob@example.com \"tmux new-session -A -s shellkeeper-xxxx\""
    );
}

#[test]
fn formatted_preview_lines() {
    assert_eq!(
        format_ssh_preview("ssh -p 2222 -i k user@h"),
        "ssh \\\n  -p 2222 \\\n  -i k \\\n  user@h"
    );
    assert_eq!(
        format_ssh_preview("ssh -t u@h \"tmux new-session -A -s x\""),
        "ssh \\\n  -t \\\n  u@h \\\n  \"tmux new-session -A -s x\""
    );
    assert_eq!(format_ssh_preview(""), "");
    assert_eq!(format_ssh_preview("ssh  -p"), "ssh \\\n  -p");
}

#[test]
fn import_fills_the_form() {
    let mut f = ConnForm::default();
    f.ssh_cmd = "ssh -p 2200 bob@host -i /keys/id".to_string();
    f.import_ssh_command("root");
    assert_eq!(f.ssh_cmd_err, "");
    assert_eq!(f.host, "host");
    assert_eq!(f.username, "bob");
    assert_eq!(f.port, "2200");
    assert_eq!(f.auth_label, "Key File");
    assert_eq!(f.key_path, "/keys/id");
    assert_eq!(f.name, "bob@host");
}

#[test]
fn import_keeps_name_and_expands_key() {
    let mut f = ConnForm::default();
    f.name = "mine".to_string();
    f.ssh_cmd = "ssh -i ~/.ssh/id host".to_string();
    f.import_ssh_command("root");
    assert_eq!(f.name, "mine");
    assert_eq!(f.username, "root");
    assert!(!f.key_path.starts_with('~'));
    assert!(f.key_path.ends_with("/.ssh/id"));
}

#[test]
fn import_error_leaves_form() {
    let mut f = ConnForm::default();
    f.host = "kept".to_string();
    f.ssh_cmd = "".to_string();
    f.import_ssh_command("root");
    assert_eq!(f.ssh_cmd_err, "Could not parse — use: ssh user@host [-p port] [-i key]");
    assert_eq!(f.host, "kept");
}

#[test]
fn log_toggle_cycles() {
    assert_eq!(next_log_setting(None), Some(true));
    assert_eq!(next_log_setting(Some(true)), Some(false));
    assert_eq!(next_log_setting(Some(false)), None);
    for cur in [None, Some(true), Some(false)] {
        assert_eq!(next_log_setting(next_log_setting(next_log_setting(cur))), cur);
    }
    assert_eq!(log_setting_label(None), "Log: global");
    assert_eq!(log_setting_label(Some(true)), "Log: on");
    assert_eq!(log_setting_label(Some(false)), "Log: off");
}

#[test]
fn form_log_toggle_changes_only_the_setting() {
    let mut f = ConnForm::from_conn(&conn());
    let before_name = f.name.clone();
    let start = f.log_session;
    f.toggle_log_session();
    assert_eq!(f.log_session, next_log_setting(start));
    assert_ne!(f.log_session, start);
    f.toggle_log_session();
    f.toggle_log_session();
    assert_eq!(f.log_session, start);
    assert_eq!(f.name, before_name);
    let mut g = ConnForm::default();
    assert_eq!(g.log_session, None);
    g.toggle_log_session();
    assert_eq!(g.log_session, Some(true));
    assert_eq!(log_setting_label(g.log_session), "Log: on");
}

#[test]
fn formatted_preview_unbreaks_to_the_tokens() {
    let cmd = "ssh -p 2222 -i \"my key\" -L 8080:localhost:80 alice@example.com";
    let out = format_ssh_preview(cmd);
    assert_eq!(out.replace(" \\\n  ", " "), "ssh -p 2222 -i \"my key\" -L 8080:localhost:80 alice@example.com");
    let spaced = "  ssh   -v   host  ";
    assert_eq!(format_ssh_preview(spaced).replace(" \\\n  ", " "), "ssh -v host");
    assert_eq!(format_ssh_preview("   "), "");
}

#[test]
fn dialog_titles_and_requests() {
    let mut d = DialogState::add(22, "root");
    assert!(d.open);
    assert_eq!(d.title(), "Add Connection");
    assert!(d.copy_id_request().is_none());
    assert!(d.save_request().is_none());
    assert_eq!(d.error, "Name and Host are required.");
    d.form.name = "n".to_string();
    d.form.host = "h".to_string();
    match d.save_request() {
        Some(DialogEvent::Save(c)) => {
            assert_eq!(c.name, "n");
            assert_eq!(c.port, 22);
        }
        _ => panic!("expected a save"),
    }
    let e = DialogState::edit(&conn());
    assert_eq!(e.title(), "Edit Connection");
    match e.copy_id_request() {
        Some(DialogEvent::SshCopyId(c)) => assert_eq!(c.host, "example.com"),
        _ => panic!("expected ssh-copy-id"),
    }
    let z = DialogState::default();
    assert!(!z.open);
}

#[test]
fn import_readme_example() {
    let mut f = ConnForm::default();
    f.ssh_cmd = "ssh -p 2222 -i key.pem user@host".to_string();
    f.import_ssh_command("root");
    assert_eq!(f.host, "host");
    assert_eq!(f.username, "user");
    assert_eq!(f.port, "2222");
    assert_eq!(f.auth_label, "Key File");
    assert_eq!(f.key_path, "key.pem");
    assert_eq!(f.name, "user@host");
    assert_eq!(build_ssh_preview(&f), "ssh -p 2222 -i key.pem user@host");
}

#[test]
fn preview_imports_back() {
    let mut f = ConnForm::for_new_connection(2222, "bob");
    f.host = " example.com ".to_string();
    f.auth_label = "Key File".to_string();
    f.key_path = "/keys/id".to_string();
    f.port_forwards = vec![
        PortForward { kind: ForwardKind::Local, local_port: 8080, remote_host: "db".to_string(), remote_port: 5432 },
        PortForward { kind: ForwardKind::Dynamic, local_port: 1080, remote_host: String::new(), remote_port: 0 },
    ];
    f.persistent = true;
    f.tmux_session = "work".to_string();
    let preview = build_ssh_preview(&f);
    let mut g = ConnForm::default();
    g.ssh_cmd = preview;
    g.import_ssh_command("root");
    assert_eq!(g.ssh_cmd_err, "");
    assert_eq!(g.host, "example.com");
    assert_eq!(g.username, "bob");
    assert_eq!(g.port, "2222");
    assert_eq!(g.key_path, "/keys/id");
    // without a user name the preview says `user`, which reads back
    let mut h = ConnForm::for_new_connection(22, "");
    h.host = "box".to_string();
    let mut k = ConnForm::default();
    k.ssh_cmd = build_ssh_preview(&h);
    k.import_ssh_command("root");
    assert_eq!(k.username, "user");
    assert_eq!(k.port, "22");
    assert_eq!(k.host, "box");
}

#[test]
fn keyring_actions() {
    assert!(matches!(keyring_on_save(true, "pw"), KeyringAction::Store));
    assert!(matches!(keyring_on_save(true, ""), KeyringAction::Keep));
    assert!(matches!(keyring_on_save(false, "pw"), KeyringAction::Delete));
    assert!(matches!(keyring_on_save(false, ""), KeyringAction::Delete));
    assert_eq!(save_password_toggled(true, false, "abc"), (true, true));
    assert_eq!(save_password_toggled(true, false, "  "), (true, false));
    assert_eq!(save_password_toggled(false, true, "abc"), (false, false));
    assert_eq!(save_password_toggled(true, true, "abc"), (false, false));
}

#[test]
fn formatted_preview_rejoins_tokens() {
    let cmd = "ssh -p 2222 -i ~/.ssh/id -L 8080:db:5432 -t bob@host \"tmux new-session -A -s x\"";
    let formatted = format_ssh_preview(cmd);
    for line in formatted.split(" \\\n").skip(1) {
        assert!(line.starts_with("  "));
    }
    assert_eq!(formatted.replace(" \\\n  ", " "), cmd);
}
