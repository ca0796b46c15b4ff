use elgato_keylight::ip::{parse_ip_chars, IpAddr};
use elgato_keylight::text::str_to_chars;
use elgato_keylight::{
    parse_escaped_ascii, try_unwrap_arg, IpType, MdnsPacket, MdnsPacketBase, PacketMode,
    PacketParseError, Service,
};

#[test]
fn parse_escaped_ascii_test() {
    let input = r#"Elgato\032Key\032Light\0328D7C"#;
    assert_eq!(parse_escaped_ascii(input).unwrap(), "Elgato Key Light 8D7C");
}

#[test]
fn parse_mdns_packet_test() {
    let input = r#"+;enp6s0;IPv6;Elgato\032Key\032Light\0328D7C;_elg._tcp;local"#.to_string();
    let res = MdnsPacket::try_from(input);
    assert_eq!(
        res,
        Ok(MdnsPacket::New(MdnsPacketBase {
            interface_name: "enp6s0".to_string(),
            internet_protocol: IpType::V6,
            hostname: "Elgato Key Light 8D7C".to_string(),
            service_type: "_elg._tcp".to_string(),
            domain: "local".to_string(),
        }))
    );

    let input = r#"=;enp6s0;IPv4;Elgato\032Key\032Light\0328D7C;_elg._tcp;local;elgato-key-light-8d7c.local;192.168.0.92;9123;"pv=1.0" "md=Elgato Key Light 20GAK9901" "id=3C:6A:9D:21:B1:6E" "dt=53" "mf=Elgato"#.to_string();
    let res = MdnsPacket::try_from(input);
    assert_eq!(
        res,
        Ok(MdnsPacket::Resolved {
            base: MdnsPacketBase {
                interface_name: "enp6s0".to_string(),
                internet_protocol: IpType::V4,
                hostname: "Elgato Key Light 8D7C".to_string(),
                service_type: "_elg._tcp".to_string(),
                domain: "local".to_string(),
            },
            service: Service {
                name: "_elg._tcp".to_string(),
                hostname: "elgato-key-light-8d7c.local".to_string(),
                ip: IpAddr::V4(192, 168, 0, 92),
                port: 9123,
                data: vec![r#""pv=1.0" "md=Elgato Key Light 20GAK9901" "id=3C:6A:9D:21:B1:6E" "dt=53" "mf=Elgato"#.to_string()],
            }
        })
    );
}

#[test]
fn escape_decoding_edges() {
    // the escape takes at most three digits; what follows passes through
    assert_eq!(parse_escaped_ascii(r#"\1234"#).unwrap(), "{4");
    // one- and two-digit escapes
    assert_eq!(parse_escaped_ascii(r#"a\65b"#).unwrap(), "aAb");
    assert_eq!(parse_escaped_ascii(r#"\9!"#).unwrap(), "\t!");
    // a backslash without digits passes through unchanged
    assert_eq!(parse_escaped_ascii(r#"a\xb"#).unwrap(), r#"a\xb"#);
    assert_eq!(parse_escaped_ascii(r#"trailing\"#).unwrap(), r#"trailing\"#);
    // a doubled backslash shields only one position
    assert_eq!(parse_escaped_ascii(r#"\\065"#).unwrap(), "\\A");
    assert_eq!(parse_escaped_ascii("").unwrap(), "");
}

#[test]
fn escape_decoding_out_of_range() {
    // a code above 255 fails the whole decode instead of crashing
    let res = parse_escaped_ascii(r#"bad\999esc"#);
    assert_eq!(
        res,
        Err(PacketParseError::EscapeParse(r#"bad\999esc"#.to_string()))
    );
}

#[test]
fn mode_and_family_decoding() {
    assert_eq!(PacketMode::try_from('+'), Ok(PacketMode::New));
    assert_eq!(PacketMode::try_from('='), Ok(PacketMode::Resolved));
    assert_eq!(PacketMode::try_from('-'), Ok(PacketMode::Exited));
    assert_eq!(
        PacketMode::try_from('?'),
        Err(PacketParseError::ModeParse('?'))
    );
    assert_eq!(IpType::try_from("IPv4".to_string()), Ok(IpType::V4));
    assert_eq!(IpType::try_from("IPv6".to_string()), Ok(IpType::V6));
    assert_eq!(
        IpType::try_from("IPng".to_string()),
        Err(PacketParseError::IpTypeParse("IPng".to_string()))
    );
}

#[test]
fn decode_failures_are_errors_not_panics() {
    // unrecognized mode character
    let res = MdnsPacket::try_from("?;enp6s0;IPv4;host;_elg._tcp;local".to_string());
    assert_eq!(res, Err(PacketParseError::ModeParse('?')));
    // fewer than six fields
    let res = MdnsPacket::try_from("+;enp6s0;IPv4;host;_elg._tcp".to_string());
    assert_eq!(res, Err(PacketParseError::NotEnoughArgs));
    // the empty line
    let res = MdnsPacket::try_from("".to_string());
    assert_eq!(res, Err(PacketParseError::NotEnoughArgs));
    // a resolved line missing its resolution fields
    let res = MdnsPacket::try_from("=;enp6s0;IPv4;host;_elg._tcp;local".to_string());
    assert_eq!(res, Err(PacketParseError::NotEnoughArgs));
    // a bad address
    let res =
        MdnsPacket::try_from("=;enp6s0;IPv4;host;_elg._tcp;local;h.local;999.0.0.1;80".to_string());
    assert_eq!(res, Err(PacketParseError::AddrParse("999.0.0.1".to_string())));
    // a bad port
    let res =
        MdnsPacket::try_from("=;enp6s0;IPv4;host;_elg._tcp;local;h.local;10.0.0.1;70000".to_string());
    assert_eq!(res, Err(PacketParseError::IntParse("70000".to_string())));
    // a bad escape in the hostname
    let res = MdnsPacket::try_from(r#"+;enp6s0;IPv4;h\300st;_elg._tcp;local"#.to_string());
    assert_eq!(res, Err(PacketParseError::EscapeParse(r#"h\300st"#.to_string())));
}

#[test]
fn mode_field_is_read_from_its_first_character() {
    // anything after the mode character in the first field is ignored
    let res = MdnsPacket::try_from("+extra;eth0;IPv4;host;_elg._tcp;local".to_string());
    assert!(matches!(res, Ok(MdnsPacket::New(_))));
}

#[test]
fn missing_argument_is_a_decode_error() {
    assert_eq!(try_unwrap_arg(Some("field")), Ok("field"));
    assert_eq!(try_unwrap_arg(None), Err(PacketParseError::NotEnoughArgs));
}

#[test]
fn hostname_dot_unescaping() {
    let input = r#"+;eth0;IPv4;name\.with\.dots;_elg._tcp;local"#.to_string();
    match MdnsPacket::try_from(input).unwrap() {
        MdnsPacket::New(base) => assert_eq!(base.hostname, "name.with.dots"),
        other => panic!("expected a new announcement, got {:?}", other),
    }
}

#[test]
fn trailing_attribute_fields_are_kept_verbatim_in_order() {
    let input = "=;eth0;IPv4;host;_elg._tcp;local;h.local;10.0.0.1;80;first;second;third"
        .to_string();
    match MdnsPacket::try_from(input).unwrap() {
        MdnsPacket::Resolved { service, .. } => {
            assert_eq!(service.data, vec!["first", "second", "third"]);
            assert_eq!(service.port, 80);
            assert_eq!(service.ip, IpAddr::V4(10, 0, 0, 1));
        }
        other => panic!("expected a resolved announcement, got {:?}", other),
    }
}

fn parse_ip(s: &str) -> Option<IpAddr> {
    parse_ip_chars(&str_to_chars(s))
}

#[test]
fn ipv4_parsing() {
    assert_eq!(parse_ip("192.168.0.92"), Some(IpAddr::V4(192, 168, 0, 92)));
    assert_eq!(parse_ip("0.0.0.0"), Some(IpAddr::V4(0, 0, 0, 0)));
    assert_eq!(parse_ip("255.255.255.255"), Some(IpAddr::V4(255, 255, 255, 255)));
    assert_eq!(parse_ip("256.0.0.1"), None);
    assert_eq!(parse_ip("1.2.3"), None);
    assert_eq!(parse_ip("1.2.3.4.5"), None);
    assert_eq!(parse_ip("1.2.3."), None);
    assert_eq!(parse_ip("a.b.c.d"), None);
}

#[test]
fn ipv6_parsing() {
    assert_eq!(
        parse_ip("fe80::3e6a:9dff:fe21:b16"),
        Some(IpAddr::V6(0xfe80, 0, 0, 0, 0x3e6a, 0x9dff, 0xfe21, 0x0b16))
    );
    assert_eq!(
        parse_ip("1:2:3:4:5:6:7:8"),
        Some(IpAddr::V6(1, 2, 3, 4, 5, 6, 7, 8))
    );
    assert_eq!(parse_ip("::"), Some(IpAddr::V6(0, 0, 0, 0, 0, 0, 0, 0)));
    assert_eq!(parse_ip("::1"), Some(IpAddr::V6(0, 0, 0, 0, 0, 0, 0, 1)));
    assert_eq!(parse_ip("1::"), Some(IpAddr::V6(1, 0, 0, 0, 0, 0, 0, 0)));
    assert_eq!(
        parse_ip("1:2:3:4:5:6:7::"),
        Some(IpAddr::V6(1, 2, 3, 4, 5, 6, 7, 0))
    );
    assert_eq!(
        parse_ip("::1:2:3:4:5:6:7"),
        Some(IpAddr::V6(0, 1, 2, 3, 4, 5, 6, 7))
    );
    assert_eq!(parse_ip(":"), None);
    assert_eq!(parse_ip(":::"), None);
    assert_eq!(parse_ip(":1:2:3:4:5:6:7"), None);
    assert_eq!(parse_ip("1:2:3:4:5:6:7"), None);
    assert_eq!(parse_ip("1:2:3:4:5:6:7:8:9"), None);
    assert_eq!(parse_ip("::1:2:3:4:5:6:7:8"), None);
    assert_eq!(parse_ip("1::2::3"), None);
    assert_eq!(parse_ip("g::1"), None);
    assert_eq!(parse_ip("12345::1"), None);
}
