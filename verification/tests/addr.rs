use ip2c::addr::AddrParseError;
use ip2c::{IPv4, IPv6, Interval, IpTree};
use ip2c::util::{ParseIpv4ScopeError, ParseIpv6ScopeError};
use std::str::FromStr;

#[test]
fn ipv4_text_is_four_octets() {
    assert_eq!(IPv4::parse("100.0.0.1"), Some(IPv4(0x6400_0001)));
    assert_eq!(IPv4::parse("0.0.0.0"), Some(IPv4(0)));
    assert_eq!(IPv4::parse("255.255.255.255"), Some(IPv4(u32::MAX)));
    assert_eq!(IPv4::parse("127.0.0.1"), Some(IPv4::from_octets(127, 0, 0, 1)));
    assert_eq!(IPv4::from_str("8.8.8.8"), Ok(IPv4(0x0808_0808)));
    assert_eq!("8.8.4.4".parse::<IPv4>(), Ok(IPv4(0x0808_0404)));
}

#[test]
fn ipv4_text_that_is_refused() {
    for s in [
        "", "1", "1.2.3", "1.2.3.4.5", "256.0.0.1", "01.2.3.4", "1.2.3.04", "1..2.3", ".1.2.3",
        "1.2.3.", "1.2.3.4 ", "+1.2.3.4", "1.2.3.a", "1.2.3.1000", "1,2,3,4", "00.0.0.0",
    ] {
        assert_eq!(IPv4::parse(s), None, "{}", s);
        assert_eq!(IPv4::from_str(s), Err(AddrParseError));
    }
}

#[test]
fn ipv6_text_in_full_and_short_forms() {
    assert_eq!(IPv6::parse("::"), Some(IPv6(0)));
    assert_eq!(IPv6::parse("::1"), Some(IPv6(1)));
    assert_eq!(IPv6::parse("1::"), Some(IPv6(1u128 << 112)));
    assert_eq!(IPv6::parse("::0.0.0.255"), Some(IPv6(255)));
    assert_eq!(IPv6::parse("::ffff:1.2.3.4"), Some(IPv6(0xffff_0102_0304)));
    assert_eq!(IPv6::parse("::FFFF:1.2.3.4"), Some(IPv6(0xffff_0102_0304)));
    assert_eq!(
        IPv6::parse("2001:db8::8a2e:370:7334"),
        Some(IPv6(0x2001_0db8_0000_0000_0000_8a2e_0370_7334))
    );
    assert_eq!(
        IPv6::parse("1:2:3:4:5:6:7:8"),
        Some(IPv6(0x0001_0002_0003_0004_0005_0006_0007_0008))
    );
    assert_eq!(
        IPv6::parse("1:2:3:4:5:6:7::"),
        Some(IPv6(0x0001_0002_0003_0004_0005_0006_0007_0000))
    );
    assert_eq!(
        IPv6::parse("::2:3:4:5:6:7:8"),
        Some(IPv6(0x0000_0002_0003_0004_0005_0006_0007_0008))
    );
    assert_eq!(
        IPv6::parse("1:2:3:4:5:6:1.2.3.4"),
        Some(IPv6(0x0001_0002_0003_0004_0005_0006_0102_0304))
    );
    assert_eq!(
        IPv6::parse("0001:0002::"),
        Some(IPv6(0x0001_0002_0000_0000_0000_0000_0000_0000))
    );
    assert_eq!(
        IPv6::parse("ffff:ffff:ffff:ffff:ffff:ffff:ffff:ffff"),
        Some(IPv6(u128::MAX))
    );
    assert_eq!("2400:3200::1".parse::<IPv6>(), Ok(IPv6(0x2400_3200 << 96 | 1)));
}

#[test]
fn ipv6_text_that_is_refused() {
    for s in [
        "", ":", ":::", "1", "1:2:3:4:5:6:7", "1:2:3:4:5:6:7:8:9", "1:2:3:4:5:6:7:8::",
        "::1:2:3:4:5:6:7:8", "1::2::3", "12345::", "g::", "1.2.3.4", "1.2.3.4::", "::1.2.3",
        "1:2:3:4:5:6:7:1.2.3.4", "::1.2.3.4:5", ":1::", "1:::2", "::1 ", "1:2:3:4:5:6:7:",
        "1::2:3:4:5:6:7:8", "::1:2:3:4:5:6:1.2.3.4",
    ] {
        assert_eq!(IPv6::parse(s), None, "{}", s);
        assert_eq!(IPv6::from_str(s), Err(AddrParseError));
    }
}

#[test]
fn ipv4_scope_forms() {
    let v = Interval::<IPv4>::from_str("100.0.0.1-100").unwrap();
    let ip = IPv4::from_str("100.0.0.1").unwrap();
    let last = IPv4::from_str("100.0.0.100").unwrap();
    assert_eq!(v, Interval::Scope(ip, last));

    let v = Interval::<IPv4>::from_str("100.0.0.0-101.0.0.0").unwrap();
    let ip = IPv4::from_str("100.0.0.0").unwrap();
    let last = IPv4::from_str("101.0.0.0").unwrap();
    assert_eq!(v, Interval::Scope(ip, last));

    let v = Interval::<IPv4>::from_str("100.0.0.1/20").unwrap();
    let ip = IPv4::from_str("100.0.0.0").unwrap();
    let last = IPv4::from_str("100.0.15.255").unwrap();
    assert_eq!(v, Interval::Scope(ip, last));

    let v = Interval::<IPv4>::from_str("100.0.0.200").unwrap();
    let ip = IPv4::from_str("100.0.0.200").unwrap();
    assert_eq!(v, Interval::Scope(ip, ip));

    let v: Interval<IPv4> = "123.117.21.0/24".parse().unwrap();
    assert_eq!(v, Interval::Scope(IPv4(0x7b75_1500), IPv4(0x7b75_15ff)));
}

#[test]
fn ipv4_scope_prefix_edges() {
    assert_eq!(
        Interval::<IPv4>::from_str("0.0.0.0/0"),
        Ok(Interval::Scope(IPv4(0), IPv4(u32::MAX)))
    );
    assert_eq!(Interval::<IPv4>::from_str("1.0.0.0/0"), Err(ParseIpv4ScopeError));
    assert_eq!(
        Interval::<IPv4>::from_str("1.2.3.4/32"),
        Ok(Interval::Scope(IPv4(0x0102_0304), IPv4(0x0102_0304)))
    );
    assert_eq!(
        Interval::<IPv4>::from_str("1.2.3.4/31"),
        Ok(Interval::Scope(IPv4(0x0102_0304), IPv4(0x0102_0305)))
    );
    assert_eq!(
        Interval::<IPv4>::from_str("255.255.255.255/1"),
        Ok(Interval::Scope(IPv4(0x8000_0000), IPv4(u32::MAX)))
    );
    assert_eq!(
        Interval::<IPv4>::from_str("1.2.3.4/+8"),
        Ok(Interval::Scope(IPv4(0x0100_0000), IPv4(0x01ff_ffff)))
    );
    assert_eq!(Interval::<IPv4>::from_str("1.2.3.4/33"), Err(ParseIpv4ScopeError));
    assert_eq!(Interval::<IPv4>::from_str("1.2.3.4/256"), Err(ParseIpv4ScopeError));
    assert_eq!(Interval::<IPv4>::from_str("1.2.3.4/"), Err(ParseIpv4ScopeError));
    assert_eq!(Interval::<IPv4>::from_str("1.2.3/8"), Err(ParseIpv4ScopeError));
}

#[test]
fn ipv4_scope_text_that_is_refused() {
    assert_eq!(Interval::<IPv4>::from_str(""), Err(ParseIpv4ScopeError));
    assert_eq!(Interval::<IPv4>::from_str("1.2.3.4-"), Err(ParseIpv4ScopeError));
    assert_eq!(Interval::<IPv4>::from_str("1.2.3.4-256"), Err(ParseIpv4ScopeError));
    assert_eq!(Interval::<IPv4>::from_str("1.2.3.4-5.6.7"), Err(ParseIpv4ScopeError));
    assert_eq!(Interval::<IPv4>::from_str("-1.2.3.4"), Err(ParseIpv4ScopeError));
    assert_eq!(Interval::<IPv4>::from_str("1.2.3.4-5-6"), Err(ParseIpv4ScopeError));
    assert_eq!(
        Interval::<IPv4>::from_str("100.100.100.100-200.200.200.200x"),
        Err(ParseIpv4ScopeError)
    );
    assert_eq!(
        Interval::<IPv4>::from_str("0000000000000000000000000001.2.3.4"),
        Err(ParseIpv4ScopeError)
    );
    assert_eq!(ParseIpv4ScopeError.message(), "parse ipv4 scope error");
}

#[test]
fn ipv4_dash_with_a_last_octet_keeps_the_first_three() {
    assert_eq!(
        Interval::<IPv4>::from_str("43.128.148.100-200"),
        Ok(Interval::Scope(IPv4(0x2b80_9464), IPv4(0x2b80_94c8)))
    );
    assert_eq!(
        Interval::<IPv4>::from_str("1.2.3.200-100"),
        Ok(Interval::Scope(IPv4(0x0102_03c8), IPv4(0x0102_0364)))
    );
}

#[test]
fn ipv6_scope_forms() {
    let v = Interval::<IPv6>::from_str("::1/120").unwrap();
    let ip = IPv6::from_str("::").unwrap();
    let last = IPv6::from_str("::0.0.0.255").unwrap();
    assert_eq!(v, Interval::Scope(ip, last));
    assert_eq!(v, Interval::Scope(IPv6(0), IPv6(255)));

    assert_eq!(
        Interval::<IPv6>::from_str("2001:db8::1"),
        Ok(Interval::Scope(IPv6(0x2001_0db8 << 96 | 1), IPv6(0x2001_0db8 << 96 | 1)))
    );
    assert_eq!(
        Interval::<IPv6>::from_str("2001:db8::1/32"),
        Ok(Interval::Scope(IPv6(0x2001_0db8 << 96), IPv6(0x2001_0db8 << 96 | (u128::MAX >> 32))))
    );
    assert_eq!(Interval::<IPv6>::from_str("::/0"), Ok(Interval::Scope(IPv6(0), IPv6(u128::MAX))));
    assert_eq!(Interval::<IPv6>::from_str("::1/0"), Err(ParseIpv6ScopeError));
    assert_eq!(Interval::<IPv6>::from_str("::1/128"), Ok(Interval::Scope(IPv6(1), IPv6(1))));
    assert_eq!(Interval::<IPv6>::from_str("::1/127"), Ok(Interval::Scope(IPv6(0), IPv6(1))));
    assert_eq!(Interval::<IPv6>::from_str("::1/129"), Err(ParseIpv6ScopeError));
    assert_eq!(Interval::<IPv6>::from_str("1.2.3.4"), Err(ParseIpv6ScopeError));
    assert_eq!(Interval::<IPv6>::from_str("::1-::2"), Err(ParseIpv6ScopeError));
    assert_eq!(
        Interval::<IPv6>::from_str("0000:0000:0000:0000:0000:0000:0000:0000:0000:0000"),
        Err(ParseIpv6ScopeError)
    );
    let v: Interval<IPv6> = "::1/120".parse().unwrap();
    assert_eq!(v, Interval::Scope(IPv6(0), IPv6(255)));
    assert_eq!(ParseIpv6ScopeError.message(), "parse ipv6 scope error");
}

#[test]
fn address_maps_answer_by_family() {
    let mut map = IpTree::new();
    map.ipv4.insert("101.204.128.0-101.204.130.0".parse().unwrap(), ("Sichuan", "Chengdu")).unwrap();
    map.ipv4.insert("43.128.148.100-200".parse().unwrap(), ("South Korea", "Seoul")).unwrap();
    map.ipv4.insert("124.156.239.210".parse().unwrap(), ("Japan", "Tokyo")).unwrap();
    map.ipv4.insert("123.117.21.0/24".parse().unwrap(), ("Beijing", "Beijing")).unwrap();
    map.ipv4.insert("123.117.253.1/20".parse().unwrap(), ("Beijing", "Beijing")).unwrap();
    map.ipv6.insert("2400:3200::/32".parse().unwrap(), ("Zhejiang", "Hangzhou")).unwrap();
    assert_eq!(map.ipv4.query("101.204.129.1".parse().unwrap()), Some(&("Sichuan", "Chengdu")));
    assert_eq!(map.ipv4.query("123.117.21.10".parse().unwrap()), Some(&("Beijing", "Beijing")));
    assert_eq!(map.ipv4.query("208.123.10.95".parse().unwrap()), None);
    assert_eq!(map.ipv6.query("2400:3200::1".parse().unwrap()), Some(&("Zhejiang", "Hangzhou")));
    assert_eq!(map.ipv6.query("2400:3201::1".parse().unwrap()), None);
    assert_eq!(u32::from(IPv4::from(7u32)), 7);
    assert_eq!(u128::from(IPv6::from(7u128)), 7);
}

#[test]
fn ipv6_text_of_the_usual_examples() {
    assert_eq!(
        IPv6::parse("2001:DB8:0:0:8:800:200C:417A"),
        Some(IPv6(0x2001_0db8_0000_0000_0008_0800_200c_417a))
    );
    assert_eq!(
        IPv6::parse("2001:DB8::8:800:200C:417A"),
        Some(IPv6(0x2001_0db8_0000_0000_0008_0800_200c_417a))
    );
    assert_eq!(IPv6::parse("FF01:0:0:0:0:0:0:101"), Some(IPv6(0xff01 << 112 | 0x101)));
    assert_eq!(IPv6::parse("FF01::101"), Some(IPv6(0xff01 << 112 | 0x101)));
    assert_eq!(IPv6::parse("0:0:0:0:0:0:0:1"), Some(IPv6(1)));
    assert_eq!(IPv6::parse("0:0:0:0:0:0:0:0"), Some(IPv6(0)));
    assert_eq!(IPv6::parse("0:0:0:0:0:0:13.1.68.3"), Some(IPv6(0x0d01_4403)));
    assert_eq!(IPv6::parse("::13.1.68.3"), Some(IPv6(0x0d01_4403)));
    assert_eq!(IPv6::parse("0:0:0:0:0:FFFF:129.144.52.38"), Some(IPv6(0xffff_8190_3426)));
    assert_eq!(IPv6::parse("::FFFF:129.144.52.38"), Some(IPv6(0xffff_8190_3426)));
    assert_eq!(IPv6::parse("1:2:3:4:5::1.2.3.4"), Some(IPv6(0x0001_0002_0003_0004_0005_0000_0102_0304)));
    assert_eq!(IPv6::parse("1:2:3:4:5:6::1.2.3.4"), None);
    assert_eq!(IPv6::parse("fe80::1%eth0"), None);
    assert_eq!(IPv6::parse("[::1]"), None);
    assert_eq!(IPv6::parse("::ffff:256.1.1.1"), None);
    assert_eq!(IPv6::parse("::ffff:01.1.1.1"), None);
}
