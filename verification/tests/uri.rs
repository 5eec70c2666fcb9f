use base64::engine::general_purpose::URL_SAFE_NO_PAD;
use base64::Engine;
use syncmob::engine::guard::{ConnGuard, HANDSHAKES_PER_MINUTE, MINUTE};
use syncmob::engine::uri::{
    ipv4_text, pairing_host, pairing_link, parse_number, parse_port, split_params, url_escape,
    url_unescape, PairingError,
};
use syncmob::engine::{parse_pairing_uri, PairingTarget};
use syncmob::proto::DEFAULT_TCP_PORT;
use syncmob::util::IpAddr;

fn v4(a: u8, b: u8, c: u8, d: u8) -> IpAddr {
    IpAddr::V4(u32::from_be_bytes([a, b, c, d]))
}

/// Reads a dotted IPv4 address.
fn read_host(s: &str) -> Option<IpAddr> {
    let parts: Vec<u8> = s.split('.').filter_map(|p| p.parse().ok()).collect();
    if parts.len() == 4 {
        Some(v4(parts[0], parts[1], parts[2], parts[3]))
    } else {
        None
    }
}

fn parse(uri: &str) -> Result<PairingTarget, PairingError> {
    let host = pairing_host(uri).and_then(|h| read_host(&h));
    parse_pairing_uri(uri, host)
}

#[test]
fn pairing_uri_roundtrip() {
    let pk = vec![9u8; 32];
    let uri = format!(
        "syncmob://pair?v=1&pk={}&port=45821&host=192.168.1.7&name={}",
        URL_SAFE_NO_PAD.encode(&pk),
        url_escape("Мой ПК")
    );
    let t = parse(&uri).unwrap();
    assert_eq!(t.public_key, pk);
    assert_eq!(t.port, 45821);
    assert_eq!(t.host, v4(192, 168, 1, 7));
    assert_eq!(t.name, "Мой ПК");
}

#[test]
fn pairing_uri_rejects_garbage() {
    assert!(parse("https://evil.example/pair?pk=AAAA").is_err());
    assert!(parse("syncmob://pair?host=192.168.1.7").is_err());
    // Wrong key length must be refused, not truncated or padded.
    let short = URL_SAFE_NO_PAD.encode([1u8; 16]);
    assert!(parse(&format!("syncmob://pair?pk={short}&host=10.0.0.1")).is_err());
}

#[test]
fn url_escaping_roundtrips() {
    for s in ["Мой ПК", "a b&c=d", "plain", "100%"] {
        assert_eq!(url_unescape(&url_escape(s)), s);
    }
}

#[test]
fn connection_guard_limits_bursts() {
    let mut g = ConnGuard::new();
    let ip = v4(192, 168, 0, 2);
    let allowed = (0..100).filter(|_| g.allow(ip, 7)).count();
    assert_eq!(allowed, HANDSHAKES_PER_MINUTE as usize);
    assert!(g.allow(v4(192, 168, 0, 3), 7));
    assert!(!g.allow(ip, MINUTE - 1));
    assert!(g.allow(ip, MINUTE + 7));
}

#[test]
fn each_fault_of_a_link_is_told() {
    let pk = URL_SAFE_NO_PAD.encode([9u8; 32]);
    assert!(matches!(parse("pair?pk=x"), Err(PairingError::NotALink)));
    assert!(matches!(
        parse("syncmob://pair?pk=***&host=10.0.0.1"),
        Err(PairingError::NoKey)
    ));
    let short = URL_SAFE_NO_PAD.encode([1u8; 16]);
    assert!(matches!(
        parse(&format!("syncmob://pair?pk={short}&host=10.0.0.1")),
        Err(PairingError::KeyLength)
    ));
    assert!(matches!(
        parse(&format!("syncmob://pair?pk={pk}&host=nowhere")),
        Err(PairingError::NoHost)
    ));
    let t = parse(&format!("syncmob://pair?pk={pk}&host=10.0.0.1&port=0")).unwrap();
    assert_eq!(t.port, DEFAULT_TCP_PORT);
    assert_eq!(t.name, "");
    assert_eq!(PairingError::NoHost.text(), "в ссылке нет адреса");
}

#[test]
fn links_are_read_back() {
    let pk = [5u8; 32];
    for name in ["ПК", "a=b&c", "", "x y"] {
        let addr = u32::from_be_bytes([192, 168, 7, 250]);
        let uri = pairing_link(&pk, 4711, Some(addr), name);
        let t = parse(&uri).unwrap();
        assert_eq!(t.public_key, pk.to_vec());
        assert_eq!((t.host, t.port, t.name.as_str()), (IpAddr::V4(addr), 4711, name));
    }
    assert!(pairing_link(&pk, 1, None, "n").contains("&host=0.0.0.0&"));
    assert_eq!(
        pairing_link(&[0u8; 3], 80, Some(0x0a00_0001), "n"),
        "syncmob://pair?v=1&pk=AAAA&port=80&host=10.0.0.1&name=n"
    );
}

#[test]
fn escapes_are_those_of_bytes() {
    assert_eq!(url_escape("a-_.~Z9"), "a-_.~Z9");
    assert_eq!(url_escape("é /"), "%C3%A9%20%2F");
    assert_eq!(url_unescape("%C3%A9+%zz%4"), "é+%zz%4");
    assert_eq!(url_unescape("%ff"), "\u{fffd}");
    assert_eq!(url_unescape("plain%41"), "plainA");
}

#[test]
fn percent_signs_without_two_digits_are_kept() {
    for s in ["%", "%a", "%a\u{44f}", "%\u{44f}", "%aé", "%%", "%г%", "100% от"] {
        assert_eq!(url_unescape(s), s);
    }
    let t = parse(&format!(
        "syncmob://pair?pk={}&host=10.0.0.1&name=%a\u{44f}%20b",
        URL_SAFE_NO_PAD.encode([9u8; 32])
    ))
    .unwrap();
    assert_eq!(t.name, "%a\u{44f} b");
    assert!(matches!(parse("syncmob://pair?name=%a\u{44f}"), Err(PairingError::NoKey)));
}

#[test]
fn numbers_are_read_like_rust_does() {
    for s in ["0", "80", "+80", "00080", "65535", "65536", "", "+", "-1", "8 0", "99999999999"] {
        assert_eq!(parse_port(s), s.parse::<u16>().ok(), "{s}");
        assert_eq!(parse_number(s, u64::MAX), s.parse::<u64>().ok(), "{s}");
    }
    for s in ["18446744073709551615", "18446744073709551616", "99999999999999999999999"] {
        assert_eq!(parse_number(s, u64::MAX), s.parse::<u64>().ok(), "{s}");
    }
    assert_eq!(parse_number("11", 10), None);
}

#[test]
fn parameters_are_split_once() {
    let ps = split_params("a=1&b&c=x=y&&a=2");
    let expect = [("a", "1"), ("b", ""), ("c", "x=y"), ("", ""), ("a", "2")];
    assert_eq!(ps.len(), expect.len());
    for (p, e) in ps.iter().zip(expect) {
        assert_eq!((p.0.as_str(), p.1.as_str()), e);
    }
    assert_eq!(
        pairing_host("syncmob://pair?host=1&host=2"),
        Some("2".to_string())
    );
    assert_eq!(ipv4_text(0xc0a8_01ff), "192.168.1.255");
}
