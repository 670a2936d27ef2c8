use pot_rs::ip::{IpAddress, IpNetwork};
use pot_rs::util::{get_value, parse_u32};

#[test]
fn test_get_value_int() {
    let uut: Option<u32> = get_value("key=1");
    assert_eq!(uut, Some(1u32));
    let uut: Option<u32> = get_value("key=1.");
    assert_eq!(uut, None);
    let uut: Option<u32> = get_value("key=NaN");
    assert_eq!(uut, None);
}

#[test]
fn test_get_value_string() {
    let uut: Option<String> = get_value("key=1");
    assert_eq!(uut, Some("1".to_string()));
    let uut: Option<String> = get_value("key=1.");
    assert_eq!(uut, Some("1.".to_string()));
    let uut: Option<String> = get_value("key=Catched Ignore");
    assert_eq!(uut, Some("Catched".to_string()));
}

#[test]
fn get_value_without_equals_is_none() {
    let uut: Option<String> = get_value("no equals here");
    assert_eq!(uut, None);
    let uut: Option<String> = get_value("a=b=c");
    assert_eq!(uut, Some("b=c".to_string()));
    let uut: Option<String> = get_value("k=");
    assert_eq!(uut, None);
    let uut: Option<String> = get_value("k= trailing");
    assert_eq!(uut, None);
}

#[test]
fn get_value_addresses() {
    let uut: Option<IpAddress> = get_value("gw=10.1.2.3 # note");
    assert_eq!(uut, Some(IpAddress::V4(0x0a01_0203)));
    let uut: Option<IpAddress> = get_value("gw=::1");
    assert_eq!(uut, Some(IpAddress::V6(1)));
    let uut: Option<IpAddress> = get_value("gw=10.1.2");
    assert_eq!(uut, None);
    let uut: Option<IpNetwork> = get_value("net=10.1.2.0/33");
    assert_eq!(uut, None);
}

#[test]
fn parse_u32_edges() {
    assert_eq!(parse_u32("4294967295"), Some(u32::MAX));
    assert_eq!(parse_u32("4294967296"), None);
    assert_eq!(parse_u32("+7"), Some(7));
    assert_eq!(parse_u32("+"), None);
    assert_eq!(parse_u32(""), None);
    assert_eq!(parse_u32("-1"), None);
    assert_eq!(parse_u32("007"), Some(7));
}
