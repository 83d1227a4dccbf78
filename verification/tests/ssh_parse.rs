use shellkeeper::ssh_parse::ParsedSsh;

fn p(s: &str) -> ParsedSsh {
    ParsedSsh::parse(s, "root").expect("should parse")
}

#[test]
fn basic() {
    let r = p("ssh root@10.0.0.1");
    assert_eq!(r.host, "10.0.0.1");
    assert_eq!(r.username, "root");
    assert_eq!(r.port, 22);
}

#[test]
fn with_port_after() {
    let r = p("ssh user@host -p 2222");
    assert_eq!(r.port, 2222);
}

#[test]
fn with_port_before() {
    let r = p("ssh -p 2222 user@host");
    assert_eq!(r.port, 2222);
}

#[test]
fn with_key() {
    let r = p("ssh -i ~/.ssh/id_rsa user@host");
    assert!(r.key_path.is_some());
    assert!(r.key_path.unwrap().contains("id_rsa"));
}

#[test]
fn no_ssh_prefix() {
    let r = p("admin@192.168.1.100");
    assert_eq!(r.username, "admin");
    assert_eq!(r.host, "192.168.1.100");
}

#[test]
fn host_only() {
    let r = p("myserver.lan");
    assert_eq!(r.host, "myserver.lan");
}

#[test]
fn port_glued() {
    let r = p("ssh -p22 root@host");
    assert_eq!(r.port, 22);
}

#[test]
fn full_complex() {
    let r = p("ssh -p 4422 -i ~/.ssh/prod.pem deploy@prod.example.com");
    assert_eq!(r.host, "prod.example.com");
    assert_eq!(r.username, "deploy");
    assert_eq!(r.port, 4422);
    assert!(r.key_path.unwrap().contains("prod.pem"));
}
