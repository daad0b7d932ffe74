use gateway::{make_mask_from_cidr, IpError, Ipv4, Ipv4Mask};

#[test]
fn test_parse_invalid_subnet_mask() {
    assert!("255.0.255.0".parse::<Ipv4Mask>().is_err());
    assert!("192.255.168.0".parse::<Ipv4Mask>().is_err());
}

#[test]
fn test_parse_valid_subnet_mask() {
    assert!("255.255.0.0".parse::<Ipv4Mask>().is_ok());
    assert!("255.255.255.255".parse::<Ipv4Mask>().is_ok());
}

#[test]
fn test_from_valid_cidr_value() {
    assert!(Ipv4Mask::from_cidr(32).is_ok());
    assert_eq!(Ipv4Mask::from_cidr(24).unwrap().to_string(), "255.255.255.0");
    assert!(Ipv4Mask::from_cidr(24).is_ok());
    assert!(Ipv4Mask::from_cidr(16).is_ok());
    assert!(Ipv4Mask::from_cidr(0).is_ok());
}

#[test]
fn test_from_invalid_cidr_value() {
    assert!(Ipv4Mask::from_cidr(33).is_err());
    assert!(Ipv4Mask::from_cidr(47).is_err());
}

#[test]
fn parsed_mask_equals_cidr_mask() {
    assert_eq!(Ipv4Mask::parse("255.255.0.0"), Ipv4Mask::from_cidr(16));
    assert_eq!(Ipv4Mask::parse("255.0.255.0"), Err(IpError::ParseMaskError));
    assert_eq!(Ipv4Mask::parse("192.255.168.0"), Err(IpError::ParseMaskError));
    assert_eq!(Ipv4Mask::parse("0.0.0.0"), Ipv4Mask::from_cidr(0));
    assert_eq!(Ipv4Mask::parse("255.255.255.254").unwrap().value(), 0xffff_fffe);
    assert_eq!(Ipv4Mask::parse("255.255.0"), Err(IpError::InvalidOctetCountError));
}

#[test]
fn cidr_boundaries() {
    assert_eq!(Ipv4Mask::from_cidr(0).unwrap().value(), 0);
    assert_eq!(Ipv4Mask::from_cidr(32).unwrap().value(), 0xffff_ffff);
    assert_eq!(Ipv4Mask::from_cidr(1).unwrap().value(), 0x8000_0000);
    assert_eq!(Ipv4Mask::from_cidr(33), Err(IpError::InvalidCIDRValue));
    assert_eq!(Ipv4Mask::from_cidr(47), Err(IpError::InvalidCIDRValue));
    assert_eq!(Ipv4Mask::host().value(), 0xffff_ffff);
}

#[test]
fn mask_from_cidr_values() {
    assert_eq!(make_mask_from_cidr(16), Ok(0xffff_0000));
    assert_eq!(make_mask_from_cidr(0), Ok(0));
    assert_eq!(make_mask_from_cidr(32), Ok(0xffff_ffff));
    assert_eq!(make_mask_from_cidr(33), Err(()));
}

#[test]
fn mask_with_address_operations() {
    let ip = Ipv4(0x0a0b_0c01);
    let m = Ipv4Mask::from_cidr(14).unwrap();
    assert_eq!(ip.bitand_mask(m), Ipv4(0x0a08_0000));
    assert_eq!(ip.bitor_mask(m), Ipv4(0xffff_0c01));
    assert_eq!(Ipv4::from(m), Ipv4(0xfffc_0000));
    assert_eq!(m.to_ipv4(), Ipv4(0xfffc_0000));
}
