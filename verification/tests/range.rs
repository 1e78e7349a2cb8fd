use ragescanner::addr::Ipv4Addr;
use ragescanner::bridge::Bridge;
use rand::Rng;

#[test]
fn test_parse_single_ip() {
    let res = Bridge::parse_range("192.168.1.1");
    assert_eq!(
        res,
        Ok((Ipv4Addr::new(192, 168, 1, 1), Ipv4Addr::new(192, 168, 1, 1)))
    );
}

#[test]
fn test_parse_octet_range() {
    let res = Bridge::parse_range("192.168.1.1-50");
    assert_eq!(
        res,
        Ok((
            Ipv4Addr::new(192, 168, 1, 1),
            Ipv4Addr::new(192, 168, 1, 50)
        ))
    );
}

#[test]
fn test_parse_full_range() {
    let res = Bridge::parse_range("10.0.0.1 - 10.0.0.255");
    assert_eq!(
        res,
        Ok((Ipv4Addr::new(10, 0, 0, 1), Ipv4Addr::new(10, 0, 0, 255)))
    );
}

#[test]
fn test_parse_invalid() {
    assert!(Bridge::parse_range("not-an-ip").is_err());
    assert!(Bridge::parse_range("192.168.1.1-abc").is_err());
    assert!(Bridge::parse_range("").is_err());
    assert!(Bridge::parse_range("192.168.1.10-5").is_err()); // End < Start
}

#[test]
fn test_parse_ui_generated_range_randomized() {
    let mut rng = rand::thread_rng();

    for _ in 0..100 {
        // 1. Generate Random Start IP
        let o1 = rng.gen_range(1..224);
        let o2 = rng.gen_range(0..255);
        let o3 = rng.gen_range(0..255);
        let o4 = rng.gen_range(0..200); // Leave room for end range
        let start = Ipv4Addr::new(o1, o2, o3, o4);

        // 2. Generate Random End IP (Octet or Full)
        let use_full_ip = rng.gen_bool(0.5);
        let end_val = rng.gen_range(o4..255); // Ensure >= start

        let input_str = if use_full_ip {
            let end = Ipv4Addr::new(o1, o2, o3, end_val);
            format!("{}-{}", start.to_string(), end.to_string())
        } else {
            format!("{}-{}", start.to_string(), end_val)
        };

        // 3. Test Parsing
        let res = Bridge::parse_range(&input_str);
        assert!(
            res.is_ok(),
            "Failed to parse generated input: {}",
            input_str
        );
        let (s, e) = res.unwrap();
        assert_eq!(s, start);
        assert!(e >= s);
    }

    // Test Garbage
    for _ in 0..20 {
        let garbage: String = (0..10).map(|_| rng.gen_range(b'a'..b'z') as char).collect();
        assert!(Bridge::parse_range(&garbage).is_err());
    }
}

#[test]
fn documented_examples_parse_as_documented() {
    assert_eq!(
        Bridge::parse_range("10.0.0.1-10.0.0.255"),
        Ok((Ipv4Addr::new(10, 0, 0, 1), Ipv4Addr::new(10, 0, 0, 255)))
    );
    assert_eq!(
        Bridge::parse_range("192.168.1.1-50"),
        Ok((Ipv4Addr::new(192, 168, 1, 1), Ipv4Addr::new(192, 168, 1, 50)))
    );
    assert_eq!(
        Bridge::parse_range("10.0.0.1"),
        Ok((Ipv4Addr::new(10, 0, 0, 1), Ipv4Addr::new(10, 0, 0, 1)))
    );
    assert!(Bridge::parse_range("10.0.0.10-5").is_err());
    assert!(Bridge::parse_range("not-an-ip").is_err());
}

#[test]
fn error_messages_name_the_side_that_failed() {
    assert_eq!(
        Bridge::parse_range("not-an-ip"),
        Err("Invalid Start IP: 'not'".to_string())
    );
    assert_eq!(
        Bridge::parse_range(""),
        Err("Invalid Start IP: ''".to_string())
    );
    assert_eq!(
        Bridge::parse_range("  1.2.3  -5"),
        Err("Invalid Start IP: '1.2.3'".to_string())
    );
    assert_eq!(
        Bridge::parse_range("192.168.1.1-abc"),
        Err("Invalid End IP or Octet: 'abc'".to_string())
    );
    assert_eq!(
        Bridge::parse_range("192.168.1.1- 256 "),
        Err("Invalid End IP or Octet: '256'".to_string())
    );
    assert_eq!(
        Bridge::parse_range("192.168.1.1-"),
        Err("Invalid End IP or Octet: ''".to_string())
    );
    assert_eq!(
        Bridge::parse_range("192.168.1.10-5"),
        Err("End IP (192.168.1.5) cannot be less than Start IP (192.168.1.10)".to_string())
    );
    assert_eq!(
        Bridge::parse_range("10.0.1.0-10.0.0.255"),
        Err("End IP (10.0.0.255) cannot be less than Start IP (10.0.1.0)".to_string())
    );
}

#[test]
fn whitespace_around_fields_is_skipped() {
    let want = Ok((Ipv4Addr::new(10, 0, 0, 1), Ipv4Addr::new(10, 0, 0, 9)));
    assert_eq!(Bridge::parse_range(" 10.0.0.1 - 9 "), want);
    assert_eq!(Bridge::parse_range("\t10.0.0.1\t-\t10.0.0.9\n"), want);
    assert_eq!(Bridge::parse_range("\u{a0}10.0.0.1\u{3000}-\u{2003}9"), want);
    // whitespace inside a field is not skipped
    assert!(Bridge::parse_range("10.0. 0.1").is_err());
    assert!(Bridge::parse_range("10.0.0.1-1 0").is_err());
}

#[test]
fn end_byte_follows_the_integer_grammar() {
    let start = Ipv4Addr::new(10, 0, 0, 1);
    assert_eq!(
        Bridge::parse_range("10.0.0.1-+7"),
        Ok((start, Ipv4Addr::new(10, 0, 0, 7)))
    );
    assert_eq!(
        Bridge::parse_range("10.0.0.1-007"),
        Ok((start, Ipv4Addr::new(10, 0, 0, 7)))
    );
    assert_eq!(
        Bridge::parse_range("10.0.0.1-255"),
        Ok((start, Ipv4Addr::new(10, 0, 0, 255)))
    );
    assert_eq!(
        Bridge::parse_range("10.0.0.1-1"),
        Ok((start, Ipv4Addr::new(10, 0, 0, 1)))
    );
    assert!(Bridge::parse_range("10.0.0.1-256").is_err());
    assert!(Bridge::parse_range("10.0.0.1-+").is_err());
    assert!(Bridge::parse_range("10.0.0.1-++7").is_err());
    assert!(Bridge::parse_range("10.0.0.1-0").is_err()); // end before start
}

#[test]
fn a_second_separator_makes_the_end_unreadable() {
    assert_eq!(
        Bridge::parse_range("10.0.0.1-10.0.0.5-7"),
        Err("Invalid End IP or Octet: '10.0.0.5-7'".to_string())
    );
    assert_eq!(
        Bridge::parse_range("10.0.0.1-5-anything"),
        Err("Invalid End IP or Octet: '5-anything'".to_string())
    );
    assert_eq!(
        Bridge::parse_range("10.0.0.1 - 5 - 7 "),
        Err("Invalid End IP or Octet: '5 - 7'".to_string())
    );
    assert_eq!(
        Bridge::parse_range("10.0.0.1--5"),
        Err("Invalid End IP or Octet: '-5'".to_string())
    );
    assert_eq!(
        Bridge::parse_range("10.0.0.1-5-"),
        Err("Invalid End IP or Octet: '5-'".to_string())
    );
    // the start is judged first
    assert_eq!(
        Bridge::parse_range("10.0.0-5-7"),
        Err("Invalid Start IP: '10.0.0'".to_string())
    );
}

#[test]
fn full_address_space_is_a_valid_range() {
    assert_eq!(
        Bridge::parse_range("0.0.0.0-255.255.255.255"),
        Ok((Ipv4Addr::new(0, 0, 0, 0), Ipv4Addr::new(255, 255, 255, 255)))
    );
}
