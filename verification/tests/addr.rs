use ragescanner::addr::Ipv4Addr;

#[test]
fn text_is_dotted_decimal_without_leading_zeros() {
    assert_eq!(Ipv4Addr::new(192, 168, 1, 1).to_string(), "192.168.1.1");
    assert_eq!(Ipv4Addr::new(0, 0, 0, 0).to_string(), "0.0.0.0");
    assert_eq!(Ipv4Addr::new(255, 255, 255, 255).to_string(), "255.255.255.255");
    assert_eq!(Ipv4Addr::new(10, 9, 100, 99).to_string(), "10.9.100.99");
}

#[test]
fn parse_accepts_exactly_the_text_of_an_address() {
    assert_eq!(Ipv4Addr::parse("192.168.1.1"), Some(Ipv4Addr::new(192, 168, 1, 1)));
    assert_eq!(Ipv4Addr::parse("0.0.0.0"), Some(Ipv4Addr::new(0, 0, 0, 0)));
    assert_eq!(Ipv4Addr::parse("255.255.255.255"), Some(Ipv4Addr::new(255, 255, 255, 255)));
    for bad in [
        "", ".", "1", "1.2.3", "1.2.3.", ".1.2.3", "1.2.3.4.", "1.2.3.4.5", "1..2.3", "256.1.1.1",
        "1.1.1.256", "01.2.3.4", "1.2.3.04", "00.0.0.0", "1.2.3.4 ", " 1.2.3.4", "+1.2.3.4",
        "1.2.3.-4", "1.2.3.a", "1234.1.1.1", "1.2.3.0x4", "１.2.3.4",
    ] {
        assert_eq!(Ipv4Addr::parse(bad), None, "{:?}", bad);
    }
}

#[test]
fn parse_and_text_are_inverse() {
    for &(a, b, c, d) in &[(0u8, 0u8, 0u8, 0u8), (1, 2, 3, 4), (9, 10, 99, 100), (127, 0, 0, 1), (255, 255, 255, 255), (200, 199, 20, 19)] {
        let ip = Ipv4Addr::new(a, b, c, d);
        assert_eq!(Ipv4Addr::parse(&ip.to_string()), Some(ip));
    }
}

#[test]
fn bits_put_the_first_octet_highest() {
    assert_eq!(Ipv4Addr::new(192, 168, 1, 1).to_bits(), 0xC0A8_0101);
    assert_eq!(Ipv4Addr::new(0, 0, 0, 0).to_bits(), 0);
    assert_eq!(Ipv4Addr::new(255, 255, 255, 255).to_bits(), u32::MAX);
    assert_eq!(Ipv4Addr::from_bits(0xC0A8_0101), Ipv4Addr::new(192, 168, 1, 1));
    assert_eq!(Ipv4Addr::from_bits(0x0A00_00FF).octets(), [10, 0, 0, 255]);
    assert_eq!(Ipv4Addr::from_bits(0x0A00_00FF + 1), Ipv4Addr::new(10, 0, 1, 0));
}

#[test]
fn order_is_the_order_of_the_bits() {
    let low = Ipv4Addr::new(10, 0, 0, 255);
    let high = Ipv4Addr::new(10, 0, 1, 0);
    assert!(low.precedes(&high));
    assert!(!high.precedes(&low));
    assert!(!low.precedes(&low));
    assert!(low < high);
    assert!(Ipv4Addr::new(9, 255, 255, 255) < low);
}
