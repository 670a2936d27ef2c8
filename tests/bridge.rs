use pot_rs::bridge::{get_bridges_list, BridgeConf, PartialBridgeConf};
use pot_rs::error::PotError;
use pot_rs::ip::{IpAddress, IpNetwork};

fn v4(a: u8, b: u8, c: u8, d: u8) -> IpAddress {
    IpAddress::V4(u32::from_be_bytes([a, b, c, d]))
}

#[test]
fn bridge_conf_try_from() {
    let pbc = PartialBridgeConf::from_str("net=10.192.0.24/29\ngateway=10.192.0.25\nname=test-bridge");
    assert!(pbc.is_ok());
    let pbc = pbc.unwrap();
    assert!(pbc.is_valid());
    let uut = BridgeConf::try_from(pbc);
    assert!(uut.is_ok());
    let uut = uut.unwrap();
    assert_eq!(&uut.name, "test-bridge");
    assert_eq!(uut.gateway, v4(10, 192, 0, 25));
    assert_eq!(uut.network, IpNetwork { addr: v4(10, 192, 0, 24), prefix_len: 29 });
}

#[test]
fn bridge_bridge_conf_fromstr_001() {
    let uut = BridgeConf::from_str("");
    assert!(uut.is_err());
}

#[test]
fn bridge_bridge_conf_fromstr_002() {
    let uut = BridgeConf::from_str("net=10.192.0.24/29");
    assert!(uut.is_err());
}

#[test]
fn bridge_bridge_conf_fromstr_003() {
    let uut = BridgeConf::from_str("gateway=10.192.0.24");
    assert!(uut.is_err());
}

#[test]
fn bridge_bridge_conf_fromstr_004() {
    let uut = BridgeConf::from_str("name=test-bridge");
    assert!(uut.is_err());
}

#[test]
fn bridge_bridge_conf_fromstr_005() {
    let uut = BridgeConf::from_str("net=10.192.0.24/29\ngateway=10.192.1.25\nname=test-bridge");
    assert!(uut.is_err());
}

#[test]
fn bridge_bridge_conf_fromstr_020() {
    let uut = BridgeConf::from_str("net=10.192.0.24/29\ngateway=10.192.0.25\nname=test-bridge");
    assert!(uut.is_ok());
}

#[test]
fn mod_bridge_conf_fromstr_001() {
    let uut = BridgeConf::from_str("");
    assert!(uut.is_err());
}

#[test]
fn mod_bridge_conf_fromstr_002() {
    let uut = BridgeConf::from_str("net=10.192.0.24/29");
    assert!(uut.is_err());
}

#[test]
fn mod_bridge_conf_fromstr_003() {
    let uut = BridgeConf::from_str("gateway=10.192.0.24");
    assert!(uut.is_err());
}

#[test]
fn mod_bridge_conf_fromstr_004() {
    let uut = BridgeConf::from_str("name=test-bridge");
    assert!(uut.is_err());
}

#[test]
fn mod_bridge_conf_fromstr_005() {
    let uut = BridgeConf::from_str("net=10.192.0.24/29\ngateway=10.192.1.25\nname=test-bridge");
    assert!(uut.is_err());
}

#[test]
fn bridge_error_is_bridge_conf_error() {
    assert_eq!(BridgeConf::from_str("name=x").unwrap_err(), PotError::BridgeConfError);
}

#[test]
fn bridge_rejected_when_gateway_outside() {
    let texts = vec!["net=10.192.0.24/29\ngateway=10.192.1.25\nname=x".to_string()];
    let bridges = get_bridges_list(&texts);
    assert!(bridges.iter().all(|b| b.name != "x"));
    assert!(bridges.is_empty());
}

#[test]
fn bridge_list_keeps_valid_in_order() {
    let texts = vec![
        "name=b1\nnet=10.1.0.0/24\ngateway=10.1.0.1".to_string(),
        "name=bad\nnet=10.2.0.0/24".to_string(),
        "# comment\nname=b2 # trailing\nnet=10.3.0.0/28\ngateway=10.3.0.1".to_string(),
    ];
    let bridges = get_bridges_list(&texts);
    assert_eq!(bridges.len(), 2);
    assert_eq!(bridges[0].name, "b1");
    assert_eq!(bridges[1].name, "b2");
    assert_eq!(bridges[1].network, IpNetwork { addr: v4(10, 3, 0, 0), prefix_len: 28 });
}

#[test]
fn bridge_ipv6() {
    let b = BridgeConf::from_str("name=six\nnet=fd00::/120\ngateway=fd00::1").unwrap();
    assert_eq!(b.gateway, IpAddress::V6(0xfd00_0000_0000_0000_0000_0000_0000_0001));
    assert_eq!(b.network.prefix_len, 120);
}

#[test]
fn bridge_with_empty_name_is_rejected() {
    assert!(BridgeConf::from_str("name=\nnet=10.1.0.0/24\ngateway=10.1.0.1").is_err());
}
