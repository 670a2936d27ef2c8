use pot_rs::ip::IpAddress;
use pot_rs::pot::{get_pot_conf_list, NetType, PotConf, PotConfVerbatim};

fn v4(a: u8, b: u8, c: u8, d: u8) -> IpAddress {
    IpAddress::V4(u32::from_be_bytes([a, b, c, d]))
}

#[test]
fn jail_schema_fallback() {
    let p = PotConf::from_conf_text("legacy".to_string(), "ip4=10.0.0.7\nvnet=true").unwrap();
    assert_eq!(p.network_type, NetType::PublicBridge);
    assert_eq!(p.ip_addr, Some(v4(10, 0, 0, 7)));
    assert_eq!(p.name, "legacy");
}

#[test]
fn legacy_alias_and_inherit() {
    assert!(PotConf::from_conf_text("a".to_string(), "ip4=10.0.0.7\nvnet=false").is_none());
    assert!(PotConf::from_conf_text("a".to_string(), "ip4=10.0.0.7").is_none());
    let p = PotConf::from_conf_text("i".to_string(), "ip4=inherit").unwrap();
    assert_eq!(p.network_type, NetType::Inherit);
    assert_eq!(p.ip_addr, None);
}

#[test]
fn modern_schema() {
    let p = PotConf::from_conf_text(
        "m".to_string(),
        "network_type=private-bridge\nip=10.1.0.2\npot.aliases=x\npot.aliases=y",
    )
    .unwrap();
    assert_eq!(p.network_type, NetType::PrivateBridge);
    assert_eq!(p.ip_addr, Some(v4(10, 1, 0, 2)));
    assert_eq!(p.aliases, Some(vec!["x".to_string(), "y".to_string()]));
    assert!(PotConf::from_conf_text("m".to_string(), "network_type=alias\nip=10.1.0.2").is_none());
    assert!(PotConf::from_conf_text("m".to_string(), "network_type=public-bridge").is_none());
    assert!(PotConf::from_conf_text("m".to_string(), "network_type=bogus\nip=10.1.0.2").is_none());
    assert!(PotConf::from_conf_text("m".to_string(), "network_type=public-bridge\nip=10.1.0").is_none());
    let p = PotConf::from_conf_text("m".to_string(), "network_type=inherit\nip=10.1.0.2").unwrap();
    assert_eq!(p.ip_addr, None);
}

#[test]
fn verbatim_reads_raw_values() {
    let v = PotConfVerbatim::from_str("vnet=true\nip4=10.0.0.1 # old\nnetwork_type=public-bridge");
    assert_eq!(v.vnet, Some("true".to_string()));
    assert_eq!(v.ip4, Some("10.0.0.1".to_string()));
    assert_eq!(v.network_type, Some("public-bridge".to_string()));
    assert_eq!(v.ip, None);
}

#[test]
fn pot_list_drops_bad_jails() {
    let entries = vec![
        ("a".to_string(), "network_type=public-bridge\nip=10.0.0.10".to_string()),
        ("bad".to_string(), "garbage".to_string()),
        ("b".to_string(), "network_type=inherit".to_string()),
    ];
    let list = get_pot_conf_list(&entries);
    assert_eq!(list.len(), 2);
    assert_eq!(list[0].name, "a");
    assert_eq!(list[1].name, "b");
}

#[test]
fn pot_conf_default() {
    let p = PotConf::default();
    assert_eq!(p.network_type, NetType::Inherit);
    assert!(p.ip_addr.is_none() && p.aliases.is_none() && p.name.is_empty());
}
