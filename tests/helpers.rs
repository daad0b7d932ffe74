use gateway::{
    calc_network_values, convert_to_ip_and_mask, gateway_candidates, is_valid,
    make_ip_from_mask, make_mask_from_cidr, make_mask_from_string, BroadcastAddr, IpError,
    Ipv4, NetworkAddr, OctetError,
};

fn dotted(a: u32, b: u32, c: u32, d: u32) -> u32 {
    (a << 24) | (b << 16) | (c << 8) | d
}

#[test]
fn test_ip_from_mask() {
    let mask = dotted(192, 168, 255, 255);
    assert_eq!("192.168.255.255", make_ip_from_mask(mask));
}

#[test]
fn test_mask_from_string() {
    let mask = dotted(192, 168, 16, 1);
    assert_eq!(mask, make_mask_from_string("192.168.16.1").unwrap());
}

#[test]
fn test_invalid_ipv4_is_invalid() {
    assert!(!is_valid("500.168.16.1"));
}

#[test]
fn test_invalid_ipv4_from_string() {
    assert!(make_mask_from_string("500.168.16.1").is_err());
}

#[test]
fn test_network_values() {
    let network = dotted(192, 168, 0, 0);
    let broadcast = dotted(192, 168, 255, 255);
    let mask = make_mask_from_cidr(16).unwrap();

    assert_eq!(
        (NetworkAddr(network), BroadcastAddr(broadcast)),
        calc_network_values("192.168.0.15", mask).unwrap()
    );
}

#[test]
fn validity_predicate_cases() {
    assert!(is_valid("192.168.16.1"));
    assert!(!is_valid("192.168.16"));
    assert!(!is_valid("192.168.16.1.1"));
    assert!(!is_valid("a.b.c.d"));
}

#[test]
fn short_text_folds_into_high_octets() {
    assert_eq!(make_mask_from_string("192.168"), Ok(dotted(192, 168, 0, 0)));
    assert_eq!(make_mask_from_string("1.x"), Err(OctetError::InvalidDigit));
}

#[test]
fn rendering_edges() {
    assert_eq!(make_ip_from_mask(0), "0.0.0.0");
    assert_eq!(make_ip_from_mask(0xffff_ffff), "255.255.255.255");
    assert_eq!(make_ip_from_mask(dotted(10, 100, 9, 200)), "10.100.9.200");
}

#[test]
fn network_values_reject_bad_host() {
    assert_eq!(calc_network_values("1.2.3", 0), Err(IpError::InvalidOctetCountError));
}

#[test]
fn ip_and_mask_pairs() {
    let (ip, mask) = convert_to_ip_and_mask("192.168.0.2", "255.255.255.0").unwrap();
    assert_eq!(ip, Ipv4(dotted(192, 168, 0, 2)));
    assert_eq!(mask.value(), 0xffff_ff00);
    assert!(matches!(
        convert_to_ip_and_mask("192.168.0.2", "255.0.255.0"),
        Err(IpError::ParseMaskError)
    ));
    assert!(matches!(
        convert_to_ip_and_mask("192.168.0", "255.0.255.0"),
        Err(IpError::InvalidOctetCountError)
    ));
}

#[test]
fn gateway_guesses() {
    let values = calc_network_values("192.168.0.2", 0xffff_ff00).unwrap();
    assert_eq!(gateway_candidates(values), Some((dotted(192, 168, 0, 1), dotted(192, 168, 0, 254))));
    assert_eq!(gateway_candidates((NetworkAddr(0xffff_ffff), BroadcastAddr(0xffff_ffff))), None);
    assert_eq!(gateway_candidates((NetworkAddr(0), BroadcastAddr(0))), None);
}
