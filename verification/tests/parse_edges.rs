use shellkeeper::ssh_parse::ParsedSsh;

#[test]
fn parse_refuses_commands_without_host() {
    assert!(ParsedSsh::parse("", "root").is_none());
    assert!(ParsedSsh::parse("   ", "root").is_none());
    assert!(ParsedSsh::parse("ssh", "root").is_none());
    assert!(ParsedSsh::parse("SSH", "root").is_none());
    assert!(ParsedSsh::parse("ssh -p 2222", "root").is_none());
    assert!(ParsedSsh::parse("ssh user@", "root").is_none());
}

#[test]
fn parse_options_and_defaults() {
    let r = ParsedSsh::parse("SSH -o StrictHostKeyChecking=no -L 80:db:80 -v admin@box ls -la", "root").unwrap();
    assert_eq!(r.username, "admin");
    assert_eq!(r.host, "box");
    assert_eq!(r.port, 22);
    assert!(r.key_path.is_none());

    let r = ParsedSsh::parse("box -p notaport", "me").unwrap();
    assert_eq!(r.username, "me");
    assert_eq!(r.host, "box");
    assert_eq!(r.port, 22);

    let r = ParsedSsh::parse("ssh -i/k/id -p+2200 a@b@c", "me").unwrap();
    assert_eq!(r.key_path.as_deref(), Some("/k/id"));
    assert_eq!(r.port, 2200);
    assert_eq!(r.username, "a");
    assert_eq!(r.host, "b@c");
}

#[test]
fn parse_without_ssh_word_takes_first_token() {
    let r = ParsedSsh::parse("ssh\t-p 2 h", "me").unwrap();
    assert_eq!(r.host, "ssh");
    assert_eq!(r.port, 2);
}
