use ip2c::ip2c::{IPv4, IPv6, IpTree};
use ip2c::itree::{Interval, IntervalError};
use ip2c::rir::parse::{is_registry_file_name, parse_line, AddError, Entity, IpRange, IpState};
use ip2c::rir::{CountryRegionCode, IpAddress, IpCodeMap};

fn code(name: &str) -> CountryRegionCode {
    CountryRegionCode::new(name).unwrap()
}

#[test]
fn code_is_two_bytes_of_text() {
    assert_eq!(code("CN").name(), "CN");
    assert_eq!(code("kr").name(), "kr");
    assert_eq!(code("\u{e9}").name(), "\u{e9}");
    assert_eq!(CountryRegionCode::new(""), None);
    assert_eq!(CountryRegionCode::new("C"), None);
    assert_eq!(CountryRegionCode::new("CHN"), None);
    assert_eq!(code("CN"), code("CN"));
    assert_ne!(code("CN"), code("KR"));
}

#[test]
fn line_of_an_ipv4_record() {
    let line = String::from("apnic|CN|ipv4|100.204.128.0|256|20110414|allocated");
    assert_eq!(
        parse_line(&line),
        Some(Entity {
            range: IpRange::Ipv4(Interval::Range(IPv4(0x64cc_8000), IPv4(0x64cc_8100))),
            state: IpState::Allocated,
            code: code("CN"),
        })
    );
    let line = String::from("apnic|JP|ipv4|1.2.3.4|1|20110414|assigned|A91872ED");
    assert_eq!(
        parse_line(&line),
        Some(Entity {
            range: IpRange::Ipv4(Interval::Scope(IPv4(0x0102_0304), IPv4(0x0102_0304))),
            state: IpState::Assigned,
            code: code("JP"),
        })
    );
}

#[test]
fn line_of_an_ipv6_record() {
    let line = String::from("apnic|CN|ipv6|2001:250::|35|20000426|reserved");
    assert_eq!(
        parse_line(&line),
        Some(Entity {
            range: IpRange::Ipv6(Interval::Scope(
                IPv6(0x2001_0250 << 96),
                IPv6(0x2001_0250 << 96 | (u128::MAX >> 35)),
            )),
            state: IpState::Reserved,
            code: code("CN"),
        })
    );
}

#[test]
fn status_words() {
    let state = |word: &str| {
        parse_line(&format!("x|CN|ipv4|1.0.0.0|2||{}", word)).map(|e| e.state)
    };
    assert_eq!(state("allocated"), Some(IpState::Allocated));
    assert_eq!(state("assigned"), Some(IpState::Assigned));
    assert_eq!(state("reserved"), Some(IpState::Reserved));
    assert_eq!(state("available"), Some(IpState::Available));
    assert_eq!(state("intranet"), Some(IpState::Unknown));
    assert_eq!(state("allocated\n"), Some(IpState::Unknown));
    assert_eq!(state(""), None);
}

#[test]
fn lines_that_give_no_record() {
    for line in [
        "",
        "# a comment",
        "#apnic|CN|ipv4|1.0.0.0|256|20110414|allocated",
        "apnic|CN|ipv4|1.0.0.0|256|20110414",
        "apnic|CN|ipv4|1.0.0.0|256|20110414|",
        "apnic|CHN|ipv4|1.0.0.0|256|20110414|allocated",
        "apnic||ipv4|1.0.0.0|256|20110414|allocated",
        "apnic|CN|asn|1.0.0.0|256|20110414|allocated",
        "apnic|CN|ipv4|1.0.0|256|20110414|allocated",
        "apnic|CN|ipv4|1.0.0.0|x|20110414|allocated",
        "apnic|CN|ipv4|1.0.0.0|4294967296|20110414|allocated",
        "apnic|CN|ipv4|255.255.255.0|257|20110414|allocated",
        "apnic|CN|ipv6|2001:250::|129|20000426|allocated",
        "apnic|CN|ipv6|2001:250::|0|20000426|allocated",
        "apnic|CN|ipv6|1.0.0.0|32|20000426|allocated",
        "2|apnic|20110414|1234|19830613|20110413|+1000",
    ] {
        assert_eq!(parse_line(&String::from(line)), None, "{}", line);
    }
}

#[test]
fn count_that_ends_with_the_last_address_is_closed() {
    let line = String::from("x|ZZ|ipv4|255.255.255.0|256||reserved");
    assert_eq!(
        parse_line(&line).map(|e| e.range),
        Some(IpRange::Ipv4(Interval::Scope(IPv4(0xffff_ff00), IPv4(u32::MAX))))
    );
    let line = String::from("x|ZZ|ipv4|255.255.255.0|255||reserved");
    assert_eq!(
        parse_line(&line).map(|e| e.range),
        Some(IpRange::Ipv4(Interval::Range(IPv4(0xffff_ff00), IPv4(u32::MAX))))
    );
}

#[test]
fn empty_count_is_read_and_then_refused_by_the_map() {
    let line = String::from("x|ZZ|ipv4|10.0.0.0|0||reserved");
    let entity = parse_line(&line).unwrap();
    assert_eq!(entity.range, IpRange::Ipv4(Interval::Range(IPv4(0x0a00_0000), IPv4(0x0a00_0000))));
    let mut map = IpCodeMap::new();
    assert_eq!(
        map.add_entity(entity),
        Err(AddError::Ipv4(IntervalError::Invalid([
            Interval::Range(IPv4(0x0a00_0000), IPv4(0x0a00_0000)),
            Interval::Scope(IPv4(0x0a00_0000), IPv4(0x0a00_0000)),
        ])))
    );
    assert_eq!(map.ipv4.len(), 0);
}

#[test]
fn two_records_then_queries() {
    let mut map: IpTree<CountryRegionCode> = IpTree::new();
    let cn = parse_line(&String::from("apnic|CN|ipv4|100.204.128.0|256|20110414|allocated")).unwrap();
    let kr = parse_line(&String::from("apnic|KR|ipv4|43.128.148.100|101|20110414|allocated")).unwrap();
    assert_eq!(map.add_entity(cn), Ok(()));
    assert_eq!(map.add_entity(kr), Ok(()));
    assert_eq!(map.query(IpAddress::V4("100.204.128.5".parse().unwrap())), Some(code("CN")));
    assert_eq!(map.query(IpAddress::V4("43.128.148.150".parse().unwrap())), Some(code("KR")));
    assert_eq!(map.query(IpAddress::V4("8.8.8.8".parse().unwrap())), None);
    assert_eq!(map.query(IpAddress::V6("::1".parse().unwrap())), None);
    assert_eq!(map.ipv4.len(), 2);
    assert_eq!(map.ipv6.len(), 0);
}

#[test]
fn two_ranges_in_text_then_queries() {
    let mut map: IpTree<CountryRegionCode> = IpTree::new();
    assert_eq!(map.ipv4.insert("100.204.128.0/24".parse().unwrap(), code("CN")), Ok(()));
    assert_eq!(map.ipv4.insert("43.128.148.100-200".parse().unwrap(), code("KR")), Ok(()));
    assert_eq!(map.ipv4.query("100.204.128.5".parse().unwrap()), Some(&code("CN")));
    assert_eq!(map.ipv4.query("43.128.148.150".parse().unwrap()), Some(&code("KR")));
    assert_eq!(map.ipv4.query("8.8.8.8".parse().unwrap()), None);
}

#[test]
fn record_that_overlaps_a_stored_one_is_refused() {
    let mut map = IpCodeMap::new();
    let a = parse_line(&String::from("x|CN|ipv6|2001:250::|32||allocated")).unwrap();
    let b = parse_line(&String::from("x|JP|ipv6|2001:250:8000::|33||allocated")).unwrap();
    assert_eq!(map.add_entity(a), Ok(()));
    let (ka, kb) = match (a.range, b.range) {
        (IpRange::Ipv6(ka), IpRange::Ipv6(kb)) => (ka, kb),
        _ => panic!("both records are IPv6"),
    };
    assert_eq!(map.add_entity(b), Err(AddError::Ipv6(IntervalError::Conflict([kb, ka]))));
    assert_eq!(map.ipv6.len(), 1);
    assert_eq!(map.query(IpAddress::V6("2001:250:8000::1".parse().unwrap())), Some(code("CN")));
}

#[test]
fn lines_are_loaded_one_by_one() {
    let mut map = IpCodeMap::new();
    assert_eq!(map.load_line(&String::from("# header")), Ok(()));
    assert_eq!(map.load_line(&String::from("x|CN|ipv4|1.0.1.0|256||allocated")), Ok(()));
    assert_eq!(map.load_line(&String::from("x|CN|asn|1234|1||allocated")), Ok(()));
    assert_eq!(map.load_line(&String::from("x|AU|ipv4|1.0.0.0|256||allocated\n")), Ok(()));
    assert_eq!(map.ipv4.len(), 2);
    assert_eq!(
        map.load_line(&String::from("x|JP|ipv4|1.0.1.128|128||allocated")),
        Err(AddError::Ipv4(IntervalError::Conflict([
            Interval::Range(IPv4(0x0100_0180), IPv4(0x0100_0200)),
            Interval::Range(IPv4(0x0100_0100), IPv4(0x0100_0200)),
        ])))
    );
    assert_eq!(map.ipv4.len(), 2);
    assert_eq!(map.query(IpAddress::V4(IPv4(0x0100_0001))), Some(code("AU")));
    assert_eq!(map.query(IpAddress::V4(IPv4(0x0100_0101))), Some(code("CN")));
}

#[test]
fn registry_files_end_with_txt() {
    assert!(is_registry_file_name("delegated-apnic-latest.txt"));
    assert!(is_registry_file_name(".txt"));
    assert!(!is_registry_file_name("txt"));
    assert!(!is_registry_file_name("data.txt.bak"));
    assert!(!is_registry_file_name("data.TXT"));
    assert!(!is_registry_file_name(""));
}

#[test]
fn lines_are_loaded_up_to_the_first_refusal() {
    let lines = vec![
        String::from("2|apnic|20110414|1234|19830613|20110413|+1000"),
        String::from("apnic|CN|ipv4|1.0.1.0|256|20110414|allocated"),
        String::from("apnic|CN|ipv6|2001:250::|35|20000426|allocated"),
        String::from("apnic|JP|ipv4|1.0.1.255|1|20110414|allocated"),
        String::from("apnic|AU|ipv4|1.0.0.0|256|20110414|allocated"),
    ];
    let mut map = IpCodeMap::new();
    assert_eq!(
        map.load_lines(&lines),
        Err((
            3,
            AddError::Ipv4(IntervalError::Conflict([
                Interval::Scope(IPv4(0x0100_01ff), IPv4(0x0100_01ff)),
                Interval::Range(IPv4(0x0100_0100), IPv4(0x0100_0200)),
            ]))
        ))
    );
    assert_eq!(map.ipv4.len(), 1);
    assert_eq!(map.ipv6.len(), 1);
    assert_eq!(map.query(IpAddress::V4(IPv4(0x0100_0001))), None);

    let mut map = IpCodeMap::new();
    assert_eq!(map.load_lines(&lines[..3].to_vec()), Ok(()));
    assert_eq!(map.load_lines(&Vec::new()), Ok(()));
    assert_eq!(map.ipv4.len(), 1);
    assert_eq!(map.query(IpAddress::V6(IPv6(0x2001_0250 << 96 | 5))), Some(code("CN")));
}
