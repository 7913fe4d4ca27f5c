use udp_tunnel::addr::PeerAddr;
use udp_tunnel::sourcefmt::{Range, SourceFormat, SourceFormatV4};

#[test]
fn literal_pattern() {
    let f = SourceFormatV4::parse("10.0.0.1:4000").unwrap();
    assert_eq!(f.ip, (Range::Single(10), Range::Single(0), Range::Single(0), Range::Single(1)));
    assert_eq!(f.port, Range::Single(4000));
    assert_eq!(f.get_addr(), PeerAddr::V4 { ip: 0x0A00_0001, port: 4000 });
}

#[test]
fn ranged_pattern_draws_within_ranges() {
    let f: SourceFormatV4 = "127.0-2.5.10-20:1000-1010".parse().unwrap();
    assert_eq!(f.ip.1, Range::Exclusive { start: 0, end: 2 });
    assert_eq!(f.port, Range::Exclusive { start: 1000, end: 1010 });
    for _ in 0..200 {
        match f.get_addr() {
            PeerAddr::V4 { ip, port } => {
                let [a, b, c, d] = ip.to_be_bytes();
                assert_eq!(a, 127);
                assert!(b < 2);
                assert_eq!(c, 5);
                assert!((10..20).contains(&d));
                assert!((1000..1010).contains(&port));
            }
            other => panic!("not an IPv4 address: {:?}", other),
        }
    }
}

#[test]
fn malformed_patterns() {
    for bad in [
        "1.2.3:80", "1.2.3.4.5:80", "1.2.3.4", "300.1.1.1:80", "1.2.3.4:70000", "1.2.3.4:5-5",
        "1.2.3.4:9-3", "a.b.c.d:1", "1.2.3.4:", ".2.3.4:1", "1.2.3.4:1:2", "1.2-3-4.3.4:1", "",
        "-1.2.3.4:1",
    ] {
        assert!(SourceFormatV4::parse(bad).is_err(), "accepted {:?}", bad);
    }
}

#[test]
fn plus_sign_and_full_octets() {
    let f = SourceFormatV4::parse("+1.255.0-255.0:+65535").unwrap();
    assert_eq!(f.ip.0, Range::Single(1));
    assert_eq!(f.ip.1, Range::Single(255));
    assert_eq!(f.ip.2, Range::Exclusive { start: 0, end: 255 });
    assert_eq!(f.port, Range::Single(65535));
}

#[test]
fn ipv6_patterns_refused() {
    assert!(SourceFormat::parse("[::1]:80").is_err());
    assert!("::1:80".parse::<SourceFormat>().is_err());
    let f: SourceFormat = "10.1.1.1:53".parse().unwrap();
    assert_eq!(f.get_addr(), PeerAddr::V4 { ip: 0x0A01_0101, port: 53 });
}

#[test]
fn range_draws() {
    assert_eq!(Range::<u8>::Single(9).get_random(), 9);
    let mut seen = [false; 2];
    for _ in 0..200 {
        let v = Range::<u16>::Exclusive { start: 7, end: 9 }.get_random();
        assert!(v == 7 || v == 8);
        seen[(v - 7) as usize] = true;
        let b = Range::<u8>::Exclusive { start: 250, end: 252 }.get_random();
        assert!(b == 250 || b == 251);
    }
    assert_eq!(seen, [true, true]);
}
