use gateway::{Ipv4, IpError, OctetError};

fn quad(a: u32, b: u32, c: u32, d: u32) -> u32 {
    (a << 24) | (b << 16) | (c << 8) | d
}

#[test]
fn test_parse() {
    let result = "192.168.0.1".parse::<Ipv4>();

    assert!(result.is_ok());

    let Ipv4(inner) = result.unwrap();
    assert_eq!(inner, quad(192, 168, 0, 1));
}

#[test]
fn test_parse_invalid() {
    assert!("192.168.0.2.4.5".parse::<Ipv4>().is_err());
    assert!("192.168".parse::<Ipv4>().is_err());
}

#[test]
fn test_fmt() {
    let result = "192.168.0.254".parse::<Ipv4>().unwrap();
    assert_eq!(result.to_string(), "192.168.0.254");
}

#[test]
fn test_not() {
    let result = "255.255.255.0".parse::<Ipv4>().unwrap();
    assert_eq!(result.not(), Ipv4(quad(0, 0, 0, 255)));
}

#[test]
fn test_bitor() {
    let result = "255.255.0.0".parse::<Ipv4>().unwrap();
    assert_eq!(result.bitor(result.not()), Ipv4(quad(255, 255, 255, 255)))
}

#[test]
fn test_bitand() {
    let ip = "10.11.12.1".parse::<Ipv4>().unwrap();
    let mask = "255.252.0.0".parse::<Ipv4>().unwrap();
    assert_eq!(ip.bitand(mask), Ipv4(quad(10, 8, 0, 0)))
}

#[test]
fn test_add_and_subtract() {
    let result = "192.168.0.1".parse::<Ipv4>().unwrap();
    assert_eq!(result.add_u32(4), Ipv4(quad(192, 168, 0, 5)));
    assert_eq!(result.sub_u32(1), Ipv4(quad(192, 168, 0, 0)));
}

#[test]
fn invalid_octet_count_errors() {
    assert_eq!(Ipv4::parse("192.168.0.2.4.5"), Err(IpError::InvalidOctetCountError));
    assert_eq!(Ipv4::parse("192.168"), Err(IpError::InvalidOctetCountError));
    assert_eq!(Ipv4::parse(""), Err(IpError::InvalidOctetCountError));
}

#[test]
fn octet_errors_follow_integer_parsing() {
    assert_eq!(
        Ipv4::parse("256.1.1.1"),
        Err(IpError::ParseIpv4Error(OctetError::PosOverflow))
    );
    assert_eq!(Ipv4::parse("1..1.1"), Err(IpError::ParseIpv4Error(OctetError::Empty)));
    assert_eq!(
        Ipv4::parse("1.a.1.1"),
        Err(IpError::ParseIpv4Error(OctetError::InvalidDigit))
    );
    assert_eq!(
        Ipv4::parse("1.+.1.1"),
        Err(IpError::ParseIpv4Error(OctetError::InvalidDigit))
    );
    assert_eq!(
        Ipv4::parse("1.-1.1.1"),
        Err(IpError::ParseIpv4Error(OctetError::InvalidDigit))
    );
    assert_eq!(
        Ipv4::parse("300a.1.1.1"),
        Err(IpError::ParseIpv4Error(OctetError::PosOverflow))
    );
    assert_eq!(Ipv4::parse("+1.01.001.0"), Ok(Ipv4(quad(1, 1, 1, 0))));
}

#[test]
fn round_trip_of_canonical_text() {
    for s in ["0.0.0.0", "255.255.255.255", "10.0.100.9", "192.168.0.254", "1.20.255.7"] {
        assert_eq!(Ipv4::parse(s).unwrap().to_string(), s);
    }
}

#[test]
fn or_with_complement_is_all_ones() {
    for v in [0u32, 1, 0x0a0b0c01, 0xffff_ffff, 0x8000_0000] {
        assert_eq!(Ipv4(v).bitor(Ipv4(v).not()), Ipv4(0xffff_ffff));
    }
}

#[test]
fn add_and_sub_of_addresses() {
    let a = Ipv4(quad(10, 0, 0, 5));
    let b = Ipv4(quad(0, 0, 1, 0));
    assert_eq!(a.add_ip(b), Ipv4(quad(10, 0, 1, 5)));
    assert_eq!(a.sub_ip(Ipv4(5)), Ipv4(quad(10, 0, 0, 0)));
    assert_eq!(Ipv4::from(7u32), Ipv4(7));
}
