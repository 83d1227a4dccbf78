use std::collections::HashSet;

use shellkeeper::app::{
    active_after_close, auto_mount_indices, bound_ports, clamp_active, drop_bound_forwards,
    find_session_for, should_log, ssh_copy_id_command, sshfs_missing_message, toggle_favorite, upsert_connection,
};
use shellkeeper::colors::{indexed, term_rgb, TermColor};
use shellkeeper::config::{default_port, default_scrollback, default_theme};
use shellkeeper::models::{AuthMethod, ForwardKind, PortForward, SshConnection, SshMount};
use shellkeeper::theme::{theme_description, theme_label, ThemePalette};

fn conn(id: &str, name: &str) -> SshConnection {
    SshConnection {
        id: id.to_string(),
        name: name.to_string(),
        host: "example.com".to_string(),
        port: 22,
        username: "alice".to_string(),
        auth: AuthMethod::Agent,
        favorite: false,
        last_used: None,
        description: String::new(),
        port_forwards: vec![],
        save_password: false,
        mounts: vec![],
        group: String::new(),
        log_session: None,
        persistent: false,
        tmux_session: String::new(),
    }
}

fn local(port: u16) -> PortForward {
    PortForward {
        kind: ForwardKind::Local,
        local_port: port,
        remote_host: "db".to_string(),
        remote_port: 5432,
    }
}

fn mount(remote: &str, local: &str, auto: bool) -> SshMount {
    SshMount { remote_path: remote.to_string(), local_path: local.to_string(), auto_mount: auto }
}

#[test]
fn bound_ports_collects_every_local_port() {
    let mut a = conn("a", "A");
    a.port_forwards = vec![local(8080), local(3000)];
    let mut b = conn("b", "B");
    b.port_forwards = vec![local(9000), local(8080)];
    let expected: HashSet<u16> = [8080, 3000, 9000].into_iter().collect();
    assert_eq!(bound_ports(&vec![a, b]), expected);
    assert!(bound_ports(&vec![]).is_empty());
}

#[test]
fn drop_bound_forwards_keeps_free_ports() {
    let mut c = conn("a", "A");
    c.port_forwards = vec![local(8080), local(9090), local(7070)];
    let bound: HashSet<u16> = [8080, 7070].into_iter().collect();
    drop_bound_forwards(&mut c, &bound);
    let ports: Vec<u16> = c.port_forwards.iter().map(|f| f.local_port).collect();
    assert_eq!(ports, vec![9090]);
    assert_eq!(c.name, "A");
}

#[test]
fn logging_follows_override_then_global() {
    let mut c = conn("a", "A");
    assert!(should_log(&c, true));
    assert!(!should_log(&c, false));
    c.log_session = Some(false);
    assert!(!should_log(&c, true));
    c.log_session = Some(true);
    assert!(should_log(&c, false));
}

#[test]
fn auto_mounts_need_flag_and_both_paths() {
    let mut c = conn("a", "A");
    c.mounts = vec![
        mount("/a", "/b", true),
        mount("/a", "/b", false),
        mount("  ", "/c", true),
        mount("/d", "/e", true),
        mount("/f", "", true),
    ];
    assert_eq!(auto_mount_indices(&c), vec![0, 3]);
}

#[test]
fn upsert_replaces_or_appends() {
    let mut v = vec![conn("a", "A"), conn("b", "B")];
    upsert_connection(&mut v, conn("b", "B2"));
    assert_eq!(v.len(), 2);
    assert_eq!(v[1].name, "B2");
    upsert_connection(&mut v, conn("c", "C"));
    assert_eq!(v.len(), 3);
    assert_eq!(v[2].name, "C");
    let pos = v.iter().position(|c| c.id == "c").unwrap();
    assert_eq!(v[pos].name, "C");
}

#[test]
fn session_lookup_by_connection_id() {
    let ids = vec![None, Some("x".to_string()), Some("y".to_string()), Some("y".to_string())];
    assert_eq!(find_session_for(&ids, "y"), Some(2));
    assert_eq!(find_session_for(&ids, "x"), Some(1));
    assert_eq!(find_session_for(&ids, "z"), None);
}

#[test]
fn copy_id_command_text() {
    let mut c = conn("a", "A");
    c.port = 2222;
    assert_eq!(ssh_copy_id_command(&c), "ssh-copy-id -p 2222 alice@example.com\r");
}

#[test]
fn toggle_favorite_flips_one() {
    let mut v = vec![conn("a", "A"), conn("b", "B")];
    toggle_favorite(&mut v, 1);
    assert!(!v[0].favorite);
    assert!(v[1].favorite);
    assert_eq!(v[1].name, "B");
    toggle_favorite(&mut v, 1);
    assert!(!v[1].favorite);
}

#[test]
fn active_tab_after_close() {
    assert_eq!(active_after_close(3, 3), 2);
    assert_eq!(active_after_close(1, 3), 1);
    assert_eq!(active_after_close(0, 0), 0);
    assert_eq!(clamp_active(5, 3), 2);
    assert_eq!(clamp_active(1, 3), 1);
    // closing any tab of several leaves the active index on a tab
    for before in 2..6usize {
        for active in 0..before {
            assert!(active_after_close(active, before - 1) < before - 1);
        }
    }
}

#[test]
fn palette_colours() {
    assert_eq!(indexed(1, false), (170, 0, 0));
    assert_eq!(indexed(1, true), (255, 85, 85));
    assert_eq!(indexed(9, false), (255, 85, 85));
    assert_eq!(indexed(16, false), (0, 0, 0));
    assert_eq!(indexed(196, false), (255, 0, 0));
    assert_eq!(indexed(21, false), (0, 0, 255));
    assert_eq!(indexed(232, false), (8, 8, 8));
    assert_eq!(indexed(255, false), (238, 238, 238));
    for i in 0..8u8 {
        assert_eq!(indexed(i, true), indexed(i + 8, false));
    }
    for i in 8..=255u8 {
        assert_eq!(indexed(i, true), indexed(i, false));
    }
}

#[test]
fn cell_colour_conversion() {
    assert_eq!(term_rgb(TermColor::Default, true, false), (204, 204, 204));
    assert_eq!(term_rgb(TermColor::Default, false, false), (18, 18, 18));
    assert_eq!(term_rgb(TermColor::Rgb(1, 2, 3), true, true), (1, 2, 3));
    assert_eq!(term_rgb(TermColor::Idx(2), true, true), (85, 255, 85));
}

#[test]
fn themes_by_name() {
    for name in ["cyberpunk", "dark", "dracula", "light"] {
        assert_eq!(ThemePalette::from_name(name).name, name);
    }
    assert_eq!(ThemePalette::from_name("nope").name, "cyberpunk");
    let all = ThemePalette::all();
    let names: Vec<&str> = all.iter().map(|p| p.name).collect();
    assert_eq!(names, vec!["cyberpunk", "dark", "dracula", "light"]);
    let l = ThemePalette::light();
    assert_eq!((l.panel.r, l.panel.g, l.panel.b, l.panel.a), (255, 255, 255, 255));
    let c = ThemePalette::cyberpunk();
    assert_eq!((c.cyan.r, c.cyan.g, c.cyan.b), (0, 255, 220));
    assert_eq!(theme_label("dark"), "◑  Dark");
    assert_eq!(theme_label("other"), "⚡  Cyberpunk");
    assert_eq!(theme_description("light"), "Clean light mode");
}

#[test]
fn configuration_defaults() {
    assert_eq!(default_theme(), "cyberpunk");
    assert_eq!(default_scrollback(), 5000);
    assert_eq!(default_port(), 22);
}

#[test]
fn remote_rule_of_live_session_frees_its_port() {
    let mut live = conn("a", "A");
    live.port_forwards = vec![PortForward {
        kind: ForwardKind::Remote,
        local_port: 8080,
        remote_host: "localhost".to_string(),
        remote_port: 9000,
    }];
    let bound = bound_ports(&vec![live]);
    assert!(bound.is_empty());
    let mut c = conn("b", "B");
    c.port_forwards = vec![local(8080)];
    drop_bound_forwards(&mut c, &bound);
    assert_eq!(c.port_forwards.len(), 1);
}

#[test]
fn sshfs_missing_message_names_the_path_and_the_install() {
    assert_eq!(
        sshfs_missing_message("/var/log", false),
        "sshfs not installed — cannot mount /var/log. Install: sudo apt install sshfs"
    );
    assert_eq!(
        sshfs_missing_message("~/data", true),
        "sshfs not installed — cannot mount ~/data. Install: brew install --cask macfuse && brew install gromgit/fuse/sshfs-mac"
    );
}
