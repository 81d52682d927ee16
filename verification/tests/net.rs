use ongrow_server::net::{
    console_addr, first_address, get_servers, parse_bind_address, server_lookup_text,
    server_names, tcp_listen_target, IpAddr, ListenOn, SocketAddr, IPV4_LOCALHOST,
};

fn v4(a: u8, b: u8, c: u8, d: u8) -> IpAddr {
    IpAddr::V4(u32::from_be_bytes([a, b, c, d]))
}

fn parsed(text: &str) -> Option<IpAddr> {
    parse_bind_address(text).ok().flatten()
}

#[test]
fn parses_bind_address() {
    assert_eq!(parse_bind_address("").unwrap(), None);
    assert_eq!(
        parse_bind_address("127.0.0.1").unwrap(),
        Some(IpAddr::V4(IPV4_LOCALHOST))
    );
    assert_eq!(parse_bind_address("::1").unwrap(), Some(IpAddr::V6(1)));
    assert!(parse_bind_address("not-an-ip").is_err());
}

#[test]
fn white_space_around_a_bind_address_does_not_count() {
    assert_eq!(parse_bind_address(" \t\r\n").unwrap(), None);
    assert_eq!(parsed("\u{a0}\u{3000} 10.0.0.7\u{85}\n"), Some(v4(10, 0, 0, 7)));
    let error = parse_bind_address("  10.0.0 .7 ").unwrap_err();
    assert_eq!(error.value, "10.0.0 .7");
    assert_eq!(error.message(), "Invalid bind address: 10.0.0 .7");
}

#[test]
fn ipv4_literals_are_read() {
    for (text, bits) in [
        ("0.0.0.0", 0x0000_0000),
        ("255.255.255.255", 0xffff_ffff),
        ("192.0.2.1", 0xc000_0201),
    ] {
        assert_eq!(parsed(text), Some(IpAddr::V4(bits)), "{}", text);
    }
}

#[test]
fn ipv6_literals_are_read() {
    for (text, bits) in [
        ("::", 0x0000_0000_0000_0000_0000_0000_0000_0000),
        ("1::", 0x0001_0000_0000_0000_0000_0000_0000_0000),
        ("::1", 0x0000_0000_0000_0000_0000_0000_0000_0001),
        ("1::2", 0x0001_0000_0000_0000_0000_0000_0000_0002),
        ("1:2:3:4:5:6:7:8", 0x0001_0002_0003_0004_0005_0006_0007_0008),
        ("1:2:3:4:5:6:7::", 0x0001_0002_0003_0004_0005_0006_0007_0000),
        ("::2:3:4:5:6:7:8", 0x0000_0002_0003_0004_0005_0006_0007_0008),
        ("1:2:3:4::6:7:8", 0x0001_0002_0003_0004_0000_0006_0007_0008),
        ("2001:db8::1", 0x2001_0db8_0000_0000_0000_0000_0000_0001),
        ("2001:DB8::aBcD", 0x2001_0db8_0000_0000_0000_0000_0000_abcd),
        ("::0001", 0x0000_0000_0000_0000_0000_0000_0000_0001),
        ("::1.2.3.4", 0x0000_0000_0000_0000_0000_0000_0102_0304),
        ("::ffff:192.0.2.128", 0x0000_0000_0000_0000_0000_ffff_c000_0280),
        ("1:2:3:4:5:6:1.2.3.4", 0x0001_0002_0003_0004_0005_0006_0102_0304),
        ("1:2:3:4:5::1.2.3.4", 0x0001_0002_0003_0004_0005_0000_0102_0304),
        ("ffff:ffff:ffff:ffff:ffff:ffff:ffff:ffff", 0xffff_ffff_ffff_ffff_ffff_ffff_ffff_ffff),
        ("::ffff", 0x0000_0000_0000_0000_0000_0000_0000_ffff),
        ("0:0:0:0:0:0:0:0", 0x0000_0000_0000_0000_0000_0000_0000_0000),
    ] {
        assert_eq!(parsed(text), Some(IpAddr::V6(bits)), "{}", text);
    }
}

#[test]
fn other_texts_are_no_addresses() {
    for text in [
        "1.2.3",
        "1.2.3.4.5",
        "1.2.3.256",
        "01.2.3.4",
        "1.2.3.04",
        "1.2.3.00",
        "1..2.3",
        ".1.2.3",
        "1.2.3.",
        "1.2.3.-4",
        "1.2.3.+4",
        "1.2.3.4a",
        "1234.1.1.1",
        ":",
        ":::",
        "1::2::3",
        "1:2:3:4:5:6:7",
        "1:2:3:4:5:6:7:8:9",
        "1:2:3:4::5:6:7:8",
        "1:2:3:4:5:6:7:8::",
        "::1:2:3:4:5:6:7:8",
        "12345::",
        "::g",
        "::00001",
        "1:2:3:4:5:6:7:1.2.3.4",
        "1:2:3:4:5:6::1.2.3.4",
        "1.2.3.4::",
        "::1.2.3.4:5",
        "::1.2.3",
        "::01.2.3.4",
        ":1",
        "1:",
        "1:::2",
        "::1%eth0",
        "[::1]",
        "fe80::1%1",
        "1:2:3:4:5:6:7:",
        ":1:2:3:4:5:6:7",
        "::1:",
        "1.2.3.4:80",
        "\u{661}.2.3.4",
        "1 .2.3.4",
        "0x1.2.3.4",
        "1::1::",
        "a.b.c.d",
        "::a.b.c.d",
        "000.0.0.0",
        "1.2.3.4:",
        "::.",
        "1:2.3.4.5::",
        "1:2:3:4:5:6:7:0.0.0.0",
    ] {
        assert_eq!(parse_bind_address(text).unwrap_err().value, text);
    }
}

#[test]
fn console_addr_only_when_bind_does_not_cover_ipv4_localhost() {
    for bind_addr in [
        None,
        Some(IpAddr::V4(0)),
        Some(IpAddr::V6(0)),
        Some(IpAddr::V4(IPV4_LOCALHOST)),
    ] {
        assert_eq!(console_addr(bind_addr, 21117), None);
    }
    for bind_addr in [
        Some(v4(192, 0, 2, 1)),
        parse_bind_address("2001:db8::1").unwrap(),
        Some(IpAddr::V6(1)),
    ] {
        assert_eq!(
            console_addr(bind_addr, 21117),
            Some(SocketAddr {
                ip: IpAddr::V4(IPV4_LOCALHOST),
                port: 21117
            })
        );
    }
}

#[test]
fn listens_on_the_bind_address_or_on_any() {
    let ip = IpAddr::V4(IPV4_LOCALHOST);
    assert_eq!(
        tcp_listen_target(Some(ip), 7),
        ListenOn::Address(SocketAddr { ip, port: 7 })
    );
    assert_eq!(tcp_listen_target(None, 7), ListenOn::AnyAddress(7));
}

#[test]
fn names_are_looked_up_with_a_port() {
    assert_eq!(server_lookup_text("example.com"), "example.com:0");
    assert_eq!(server_lookup_text("example.com:21116"), "example.com:21116");
    assert_eq!(server_lookup_text(""), ":0");
    assert_eq!(server_lookup_text("::1"), "::1");
}

#[test]
fn first_resolved_address_counts() {
    let first = SocketAddr { ip: v4(1, 2, 3, 4), port: 5 };
    let second = SocketAddr { ip: IpAddr::V6(1), port: 6 };
    assert_eq!(first_address(&vec![first, second]), Some(first));
    assert_eq!(first_address(&vec![]), None);
}

#[test]
fn servers_are_the_valid_names_of_a_list() {
    assert_eq!(server_names("a,,b:1,"), vec!["a", "b:1"]);
    assert_eq!(get_servers("a,,b:1,", &vec![true, true]), vec!["a", "b:1"]);
    assert_eq!(get_servers("a,,b:1,", &vec![false, true]), vec!["b:1"]);
    assert_eq!(get_servers("a,b,c", &vec![true, false, true]), vec!["a", "c"]);
    assert!(server_names("").is_empty());
    assert!(server_names(",,").is_empty());
    assert!(get_servers("", &vec![]).is_empty());
}
