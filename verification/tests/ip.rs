use vortexwall::ip::{parse_all, IpAddr};

fn reads(text: &str, ip: IpAddr) {
    assert_eq!(IpAddr::parse(text), Some(ip), "{text}");
}

fn v6(g: [u16; 8]) -> IpAddr {
    IpAddr::V6(g)
}

#[test]
fn reads_ipv4() {
    reads("198.51.100.7", IpAddr::V4([198, 51, 100, 7]));
    reads("0.0.0.0", IpAddr::V4([0, 0, 0, 0]));
    reads("255.255.255.255", IpAddr::V4([255, 255, 255, 255]));
}

#[test]
fn refuses_what_is_no_ipv4() {
    for text in [
        "", "1.2.3", "1.2.3.4.5", "256.1.1.1", "1.2.3.04", "01.2.3.4", "1.2.3.", ".1.2.3", "1..2.3",
        "1.2.3.4 ", " 1.2.3.4", "1.2.3.1000", "1.2.3.-4", "a.b.c.d", "1.2.3.4/24", "1.2.3.4:22",
        "1.2.3.\u{0664}", "localhost", "00.0.0.0",
    ] {
        assert_eq!(IpAddr::parse(text), None, "{text}");
    }
}

#[test]
fn reads_ipv6() {
    reads("1:2:3:4:5:6:7:8", v6([1, 2, 3, 4, 5, 6, 7, 8]));
    reads("::", v6([0; 8]));
    reads("::1", v6([0, 0, 0, 0, 0, 0, 0, 1]));
    reads("1::", v6([1, 0, 0, 0, 0, 0, 0, 0]));
    reads("2001:DB8::aB", v6([0x2001, 0xdb8, 0, 0, 0, 0, 0, 0xab]));
    reads("1:2:3:4:5:6:7::", v6([1, 2, 3, 4, 5, 6, 7, 0]));
    reads("::2:3:4:5:6:7:8", v6([0, 2, 3, 4, 5, 6, 7, 8]));
    reads("1:2:3::5:6:7:8", v6([1, 2, 3, 0, 5, 6, 7, 8]));
    reads("0001:0002::0008", v6([1, 2, 0, 0, 0, 0, 0, 8]));
    reads("::ffff:192.0.2.1", v6([0, 0, 0, 0, 0, 0xffff, 0xc000, 0x0201]));
    reads("1:2:3:4:5:6:7.8.9.10", v6([1, 2, 3, 4, 5, 6, 0x0708, 0x090a]));
    reads("::1.2.3.4", v6([0, 0, 0, 0, 0, 0, 0x0102, 0x0304]));
    reads("1:2:3:4:5::1.2.3.4", v6([1, 2, 3, 4, 5, 0, 0x0102, 0x0304]));
}

#[test]
fn refuses_what_is_no_ipv6() {
    for text in [
        ":", ":::", "1:2:3:4:5:6:7", "1:2:3:4:5:6:7:8:9", "1:2:3:4:5:6:7:8::", "::1:2:3:4:5:6:7:8",
        "1::2::3", "12345::", "g::", "1:2:3:4:5:6:7:", ":1:2:3:4:5:6:7", "1:2:3:4:5:6:7:1.2.3.4",
        "1:2:3:4:5:6::1.2.3.4", "1.2.3.4::", "::1.2.3.4:5", "::1.2.3", "::1.2.3.400", "fe80::1%eth0",
        "[::1]", "::1/128", "1:::2", "deadbeef", "::ffff:01.2.3.4",
    ] {
        assert_eq!(IpAddr::parse(text), None, "{text}");
    }
}

#[test]
fn writes_addresses() {
    for (ip, text) in [
        (IpAddr::V4([198, 51, 100, 7]), "198.51.100.7"),
        (IpAddr::V4([0, 10, 99, 255]), "0.10.99.255"),
        (v6([0; 8]), "::"),
        (v6([0, 0, 0, 0, 0, 0, 0, 1]), "::1"),
        (v6([1, 0, 0, 0, 0, 0, 0, 0]), "1::"),
        (v6([0x2001, 0xdb8, 0, 0, 0, 0, 0, 0xab]), "2001:db8::ab"),
        (v6([1, 2, 3, 4, 5, 6, 7, 8]), "1:2:3:4:5:6:7:8"),
        (v6([1, 0, 3, 4, 5, 6, 7, 8]), "1:0:3:4:5:6:7:8"),
        (v6([0, 0, 3, 4, 5, 0, 0, 8]), "::3:4:5:0:0:8"),
        (v6([0, 0, 3, 4, 0, 0, 0, 8]), "0:0:3:4::8"),
        (v6([1, 2, 3, 4, 5, 6, 0, 0]), "1:2:3:4:5:6::"),
        (v6([0xffff; 8]), "ffff:ffff:ffff:ffff:ffff:ffff:ffff:ffff"),
        (v6([0, 0, 0, 0, 0, 0xffff, 0xc000, 0x0201]), "::ffff:192.0.2.1"),
        (v6([0, 0, 0, 0, 0, 0, 0xc000, 0x0201]), "::c000:201"),
    ] {
        assert_eq!(ip.to_text(), text);
    }
}

#[test]
fn reading_gives_back_what_was_written() {
    // every pattern of zero and non-zero groups
    for mask in 0..256u32 {
        let mut g = [0u16; 8];
        for i in 0..8 {
            if mask & (1 << i) != 0 {
                g[i] = 0x10 + i as u16 * 0x111;
            }
        }
        let ip = v6(g);
        assert_eq!(IpAddr::parse(&ip.to_text()), Some(ip));
    }
    for n in 0..=255u8 {
        let ip = IpAddr::V4([n, 255 - n, n / 2, 0]);
        assert_eq!(IpAddr::parse(&ip.to_text()), Some(ip));
        let ip = v6([0, 0, 0, 0, 0, 0xffff, n as u16 * 257, n as u16]);
        assert_eq!(IpAddr::parse(&ip.to_text()), Some(ip));
    }
}

#[test]
fn different_addresses_are_written_differently() {
    assert_ne!(v6([1, 0, 0, 0, 0, 0, 0, 0]).to_text(), v6([0, 0, 0, 0, 0, 0, 0, 1]).to_text());
    assert_ne!(
        v6([0, 0, 0, 0, 0, 0xffff, 0x0102, 0x0304]).to_text(),
        IpAddr::V4([1, 2, 3, 4]).to_text()
    );
}

#[test]
fn parse_all_drops_what_is_no_address() {
    let texts = vec!["192.0.2.1".to_string(), "10.0.0.0/8".to_string(), "::1".to_string()];
    assert_eq!(parse_all(&texts), vec![IpAddr::V4([192, 0, 2, 1]), v6([0, 0, 0, 0, 0, 0, 0, 1])]);
}
