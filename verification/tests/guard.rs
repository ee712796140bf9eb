use webtools::guard::{allow_private, check_domain, check_resolved, is_blocked_ip, validate_url, Ip, Target};

fn v4(a: u8, b: u8, c: u8, d: u8) -> bool {
    is_blocked_ip(&Ip::V4([a, b, c, d]))
}

fn v6(s: [u16; 8]) -> bool {
    is_blocked_ip(&Ip::V6(s))
}

#[test]
fn blocks_loopback_and_private_and_metadata() {
    assert!(v4(127, 0, 0, 1));
    assert!(v4(10, 0, 0, 1));
    assert!(v4(172, 16, 5, 4));
    assert!(v4(192, 168, 1, 1));
    assert!(v4(169, 254, 169, 254));
    assert!(v4(100, 64, 0, 1));
    assert!(v4(0, 0, 0, 0));
    assert!(v4(255, 255, 255, 255));
    assert!(v4(224, 0, 0, 1));
    assert!(v4(240, 0, 0, 1));
}

#[test]
fn blocks_ipv6_local_and_mapped() {
    assert!(v6([0, 0, 0, 0, 0, 0, 0, 1]));
    assert!(v6([0, 0, 0, 0, 0, 0, 0, 0]));
    assert!(v6([0xfe80, 0, 0, 0, 0, 0, 0, 1]));
    assert!(v6([0xfc00, 0, 0, 0, 0, 0, 0, 1]));
    assert!(v6([0, 0, 0, 0, 0, 0xffff, 0x7f00, 0x0001]));
    assert!(v6([0, 0, 0, 0, 0, 0xffff, 0xa9fe, 0xa9fe]));
}

#[test]
fn allows_public() {
    assert!(!v4(1, 1, 1, 1));
    assert!(!v4(8, 8, 8, 8));
    assert!(!v4(93, 184, 216, 34));
    assert!(!v6([0x2606, 0x4700, 0x4700, 0, 0, 0, 0, 0x1111]));
}

#[test]
fn rejects_non_http_scheme() {
    assert!(validate_url("file:///etc/passwd", false).is_err());
    assert!(validate_url("ftp://example.com/x", false).is_err());
}

#[test]
fn rejects_literal_metadata_ip_url() {
    let err = validate_url("http://169.254.169.254/latest/meta-data/", false).err().unwrap();
    assert_eq!(err.message(), "blocked URL: host IP 169.254.169.254 is not public");
}

#[test]
fn rejects_localhost_name() {
    assert!(validate_url("http://localhost:8080/admin", false).is_err());
    assert!(check_domain("api.LOCALHOST").is_err());
    assert!(check_domain("localhost.example.com").is_ok());
}

#[test]
fn a_public_name_is_left_to_resolve_on_its_port() {
    match validate_url("https://example.com/x", false) {
        Ok(Target::Resolve { domain, port }) => {
            assert_eq!(domain, "example.com");
            assert_eq!(port, 443);
        }
        _ => panic!("expected a name to resolve"),
    }
    assert!(matches!(validate_url("http://93.184.216.34/", false), Ok(Target::Public)));
    assert!(matches!(validate_url("http://127.0.0.1:8080/", true), Ok(Target::Unchecked)));
    assert!(validate_url("file:///etc/passwd", true).is_err());
    assert!(validate_url("ftp://example.com/x", true).is_err());
}

#[test]
fn every_resolved_address_must_be_public() {
    let shown = vec!["1.1.1.1".to_string(), "10.0.0.1".to_string()];
    let addrs = vec![Ip::V4([1, 1, 1, 1]), Ip::V4([10, 0, 0, 1])];
    let err = check_resolved("mixed.test", &addrs, &shown).err().unwrap();
    assert_eq!(err.0, "`mixed.test` resolves to non-public IP 10.0.0.1");
    assert!(check_resolved("ok.test", &addrs[..1], &shown[..1]).is_ok());
    let none: Vec<Ip> = Vec::new();
    let err = check_resolved("void.test", &none, &[]).err().unwrap();
    assert_eq!(err.0, "`void.test` resolved to no addresses");
}

#[test]
fn the_guard_switch_takes_only_its_exact_spellings() {
    assert!(allow_private(Some("1")));
    assert!(allow_private(Some("TRUE")));
    assert!(!allow_private(Some("True")));
    assert!(!allow_private(None));
}
