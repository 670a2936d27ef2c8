use pot_rs::bridge::BridgeConf;
use pot_rs::error::PotError;
use pot_rs::ip::{IpAddress, IpNetwork};
use pot_rs::ipdb::IpDb;
use pot_rs::pot::{NetType, PotConf};
use pot_rs::query::{
    config_check, get_hosts_for_public_bridge, get_hosts_from_bridge, get_network_size,
    get_next_from_bridge, get_prefix_length, init_bridge_ipdb, init_ipdb, is_subnet_usable,
    new_net, next_free, show_bridge, used_hosts_before, validate, validate_with_bridge,
};
use pot_rs::system::{PotDnsConfig, PotSystemConfig};

fn v4(a: u8, b: u8, c: u8, d: u8) -> IpAddress {
    IpAddress::V4(u32::from_be_bytes([a, b, c, d]))
}

fn net4(a: u8, b: u8, c: u8, d: u8, p: u8) -> IpNetwork {
    IpNetwork { addr: v4(a, b, c, d), prefix_len: p }
}

fn system(network: IpNetwork, gateway: IpAddress, dns: Option<(&str, IpAddress)>) -> PotSystemConfig {
    PotSystemConfig {
        zfs_root: "zroot/pot".to_string(),
        fs_root: "/opt/pot".to_string(),
        network,
        netmask: v4(255, 255, 255, 0),
        gateway,
        ext_if: "em0".to_string(),
        dns: dns.map(|(n, ip)| PotDnsConfig { pot_name: n.to_string(), ip }),
    }
}

fn pot(name: &str, ip: Option<IpAddress>, t: NetType) -> PotConf {
    PotConf { name: name.to_string(), ip_addr: ip, network_type: t, aliases: None }
}

fn bridge(name: &str, network: IpNetwork, gateway: IpAddress) -> BridgeConf {
    BridgeConf { name: name.to_string(), network, gateway }
}

fn scenario_system() -> PotSystemConfig {
    system(net4(192, 168, 0, 0, 24), v4(192, 168, 0, 1), Some(("pot-dns", v4(192, 168, 0, 2))))
}

#[test]
fn get_network_size_000() {
    assert_eq!(get_network_size(2), Some(2));
}

#[test]
fn get_network_size_001() {
    assert_eq!(get_network_size(5), Some(3));
}

#[test]
fn get_network_size_002() {
    assert_eq!(get_network_size(7), Some(4));
}

#[test]
fn get_network_size_boundaries() {
    assert_eq!(get_network_size(0), None);
    assert_eq!(get_network_size(1), Some(2));
    assert_eq!(get_network_size(3), Some(3));
    assert_eq!(get_network_size(6), Some(3));
    assert_eq!(get_network_size(14), Some(4));
    assert_eq!(get_network_size(15), Some(5));
    assert_eq!(get_network_size(65535), Some(17));
}

#[test]
fn get_prefix_length_000() {
    assert_eq!(get_prefix_length(2, &v4(127, 0, 0, 1)), Some(30));
}

#[test]
fn get_prefix_length_001() {
    assert_eq!(get_prefix_length(5, &v4(127, 0, 0, 1)), Some(29));
}

#[test]
fn get_prefix_length_002() {
    assert_eq!(get_prefix_length(9, &v4(127, 0, 0, 1)), Some(28));
}

#[test]
fn get_prefix_length_010() {
    assert_eq!(get_prefix_length(2, &IpAddress::V6(1)), Some(126));
}

#[test]
fn get_prefix_length_011() {
    assert_eq!(get_prefix_length(5, &IpAddress::V6(1)), Some(125));
}

#[test]
fn get_prefix_length_012() {
    assert_eq!(get_prefix_length(9, &IpAddress::V6(1)), Some(124));
}

#[test]
fn get_prefix_length_zero_hosts() {
    assert_eq!(get_prefix_length(0, &v4(127, 0, 0, 1)), None);
}

#[test]
fn ipv4_next_free() {
    let conf = scenario_system();
    let db = init_ipdb(&conf, &vec![], &vec![]);
    assert_eq!(next_free(&conf.network, &db), Some(v4(192, 168, 0, 3)));
}

#[test]
fn ipv4_validate_in_use() {
    let conf = scenario_system();
    let db = init_ipdb(&conf, &vec![], &vec![]);
    assert_eq!(validate(v4(192, 168, 0, 2), &conf, &db), Err(PotError::AlreadyInUse));
    assert_eq!(validate(v4(10, 0, 0, 1), &conf, &db), Err(PotError::OutsideNetwork));
    assert_eq!(validate(v4(192, 168, 0, 42), &conf, &db), Ok(()));
    assert_eq!(validate(v4(192, 168, 0, 42), &conf, &db), validate(v4(192, 168, 0, 42), &conf, &db));
}

#[test]
fn new_net_with_one_bridge() {
    let conf = system(net4(10, 0, 0, 0, 16), v4(10, 0, 0, 1), Some(("dns", v4(10, 0, 0, 2))));
    let bridges = vec![bridge("br0", net4(10, 0, 0, 0, 24), v4(10, 0, 0, 1))];
    let db = init_ipdb(&conf, &vec![], &bridges);
    let (s, g) = new_net(5, &conf, &db).unwrap();
    assert_eq!(s, net4(10, 0, 1, 0, 29));
    assert_eq!(g, v4(10, 0, 1, 1));
}

#[test]
fn new_net_skips_reserved_subnets() {
    let conf = system(net4(10, 0, 0, 0, 24), v4(10, 0, 0, 1), None);
    let pots = vec![pot("a", Some(v4(10, 0, 0, 9)), NetType::PublicBridge)];
    let db = init_ipdb(&conf, &pots, &vec![]);
    let (s, g) = new_net(2, &conf, &db).unwrap();
    assert_eq!(s, net4(10, 0, 0, 4, 30));
    assert_eq!(g, v4(10, 0, 0, 5));
    assert_eq!(new_net(0, &conf, &db), None);
    assert_eq!(new_net(300, &conf, &db), None);
}

#[test]
fn new_net_full_network_gives_nothing() {
    let conf = system(net4(10, 0, 0, 0, 30), v4(10, 0, 0, 1), None);
    let db = init_ipdb(&conf, &vec![], &vec![]);
    assert_eq!(new_net(2, &conf, &db), None);
}

#[test]
fn subnet_usable_checks_reservations() {
    let conf = scenario_system();
    let db = init_ipdb(&conf, &vec![], &vec![]);
    assert!(!is_subnet_usable(&net4(192, 168, 0, 0, 30), &db));
    assert!(is_subnet_usable(&net4(192, 168, 0, 4, 30), &db));
}

#[test]
fn ipdb_contents_and_order() {
    let conf = scenario_system();
    let pots = vec![
        pot("j2", Some(v4(192, 168, 0, 20)), NetType::PrivateBridge),
        pot("j1", Some(v4(192, 168, 0, 10)), NetType::PublicBridge),
        pot("out", Some(v4(172, 16, 0, 1)), NetType::PublicBridge),
        pot("inh", None, NetType::Inherit),
    ];
    let db = init_ipdb(&conf, &pots, &vec![]);
    let entries = db.entries();
    let addrs: Vec<IpAddress> = entries.iter().map(|e| e.0).collect();
    assert_eq!(
        addrs,
        vec![
            v4(192, 168, 0, 0),
            v4(192, 168, 0, 1),
            v4(192, 168, 0, 2),
            v4(192, 168, 0, 10),
            v4(192, 168, 0, 20),
            v4(192, 168, 0, 255),
        ]
    );
    assert_eq!(entries[0].1, None);
    assert_eq!(entries[1].1, Some("default gateway".to_string()));
    assert_eq!(entries[2].1, Some("pot-dns".to_string()));
    assert_eq!(entries[3].1, Some("j1".to_string()));
    assert_eq!(db.len(), 6);
}

#[test]
fn ipdb_reserves_bridge_hosts() {
    let conf = system(net4(10, 0, 0, 0, 16), v4(10, 0, 0, 1), None);
    let bridges = vec![bridge("br", net4(10, 0, 1, 0, 29), v4(10, 0, 1, 1))];
    let db = init_ipdb(&conf, &vec![], &bridges);
    let entries = db.entries();
    let labels: Vec<(IpAddress, Option<String>)> =
        entries.into_iter().filter(|e| e.0 != v4(10, 0, 0, 0) && e.0 != v4(10, 0, 0, 1) && e.0 != v4(10, 0, 255, 255)).collect();
    assert_eq!(labels.len(), 8);
    assert_eq!(labels[0], (v4(10, 0, 1, 0), Some("br bridge - network ".to_string())));
    assert_eq!(labels[1], (v4(10, 0, 1, 1), Some("br bridge - gateway ".to_string())));
    assert_eq!(labels[2], (v4(10, 0, 1, 2), Some("br bridge - allocated address".to_string())));
    assert_eq!(labels[7], (v4(10, 0, 1, 7), Some("br bridge - broadcast ".to_string())));
}

#[test]
fn ipdb_built_twice_is_equal() {
    let conf = scenario_system();
    let pots = vec![pot("j1", Some(v4(192, 168, 0, 10)), NetType::PublicBridge)];
    let a = init_ipdb(&conf, &pots, &vec![]).entries();
    let b = init_ipdb(&conf, &pots, &vec![]).entries();
    assert_eq!(a, b);
}

#[test]
fn ipdb_insert_overwrites_label() {
    let mut db = IpDb::new();
    db.insert(v4(1, 2, 3, 4), None);
    db.insert(v4(1, 2, 3, 4), Some("x".to_string()));
    db.insert_if_absent(v4(1, 2, 3, 4), Some("y".to_string()));
    db.insert(IpAddress::V6(5), None);
    db.insert(v4(0, 0, 0, 1), None);
    let e = db.entries();
    assert_eq!(e, vec![(v4(0, 0, 0, 1), None), (v4(1, 2, 3, 4), Some("x".to_string())), (IpAddress::V6(5), None)]);
    assert!(db.contains_key(&IpAddress::V6(5)));
    assert!(!db.contains_key(&IpAddress::V6(6)));
}

#[test]
fn bridge_queries() {
    let bridges = vec![bridge("br", net4(10, 1, 0, 0, 29), v4(10, 1, 0, 1))];
    let pots = vec![
        pot("p1", Some(v4(10, 1, 0, 2)), NetType::PrivateBridge),
        pot("p2", Some(v4(10, 1, 0, 4)), NetType::PrivateBridge),
        pot("pub", Some(v4(10, 0, 0, 4)), NetType::PublicBridge),
    ];
    assert_eq!(get_next_from_bridge(&bridges, &pots, "br"), Ok(Some(v4(10, 1, 0, 3))));
    assert_eq!(
        get_next_from_bridge(&bridges, &pots, "nope"),
        Err(PotError::BridgeNotFound("nope".to_string()))
    );
    assert_eq!(validate_with_bridge(&bridges, &pots, "br", v4(10, 1, 0, 5)), Ok(()));
    assert_eq!(validate_with_bridge(&bridges, &pots, "br", v4(10, 1, 0, 2)), Err(PotError::AlreadyInUse));
    assert_eq!(validate_with_bridge(&bridges, &pots, "br", v4(10, 1, 0, 9)), Err(PotError::OutsideBridgeNetwork));
    assert_eq!(
        validate_with_bridge(&bridges, &pots, "x", v4(10, 1, 0, 5)),
        Err(PotError::BridgeNotFound("x".to_string()))
    );
    let db = show_bridge(&bridges, &pots, "br").unwrap();
    assert_eq!(db.len(), 5);
    assert!(show_bridge(&bridges, &pots, "x").is_none());
    let bdb = init_bridge_ipdb(&bridges[0], &pots);
    assert!(bdb.contains_key(&v4(10, 1, 0, 7)));
    let hosts = get_hosts_from_bridge(&bridges, &pots, "br").unwrap().entries();
    assert_eq!(
        hosts,
        vec![(v4(10, 1, 0, 2), Some("p1".to_string())), (v4(10, 1, 0, 4), Some("p2".to_string()))]
    );
}

#[test]
fn etc_hosts_for_public_bridge() {
    let pots = vec![
        pot("a", Some(v4(10, 0, 0, 10)), NetType::PublicBridge),
        pot("b", None, NetType::Inherit),
        pot("c", Some(v4(10, 0, 0, 12)), NetType::PublicBridge),
    ];
    let hosts = get_hosts_for_public_bridge(&pots).entries();
    assert_eq!(
        hosts,
        vec![(v4(10, 0, 0, 10), Some("a".to_string())), (v4(10, 0, 0, 12), Some("c".to_string()))]
    );
}

#[test]
fn config_check_findings() {
    let conf = scenario_system();
    assert!(config_check(&conf).is_clean());
    let mut bad = scenario_system();
    bad.gateway = v4(10, 0, 0, 1);
    bad.netmask = v4(255, 255, 0, 0);
    bad.dns = Some(PotDnsConfig { pot_name: "d".to_string(), ip: v4(10, 0, 0, 2) });
    let r = config_check(&bad);
    assert!(r.gateway_outside && r.dns_outside && r.netmask_mismatch);
    assert!(!r.is_clean());
}

#[test]
fn verbose_next_lists_used_hosts() {
    let conf = scenario_system();
    let pots = vec![pot("j", Some(v4(192, 168, 0, 4)), NetType::PublicBridge)];
    let db = init_ipdb(&conf, &pots, &vec![]);
    let free = next_free(&conf.network, &db);
    assert_eq!(free, Some(v4(192, 168, 0, 3)));
    assert_eq!(used_hosts_before(&conf.network, &db, free), vec![v4(192, 168, 0, 1), v4(192, 168, 0, 2)]);
    assert_eq!(
        used_hosts_before(&conf.network, &db, None),
        vec![v4(192, 168, 0, 1), v4(192, 168, 0, 2), v4(192, 168, 0, 4)]
    );
}

#[test]
fn ipv6_next_free_skips_network_address() {
    let net = IpNetwork { addr: IpAddress::V6(0xfd00 << 112), prefix_len: 120 };
    let conf = PotSystemConfig {
        zfs_root: String::new(),
        fs_root: String::new(),
        network: net,
        netmask: IpAddress::V6(0),
        gateway: IpAddress::V6((0xfd00 << 112) | 1),
        ext_if: String::new(),
        dns: None,
    };
    let db = init_ipdb(&conf, &vec![], &vec![]);
    assert_eq!(next_free(&net, &db), Some(IpAddress::V6((0xfd00 << 112) | 2)));
    let (s, g) = new_net(2, &conf, &db).unwrap();
    assert_eq!(s, IpNetwork { addr: IpAddress::V6((0xfd00 << 112) | 4), prefix_len: 126 });
    assert_eq!(g, IpAddress::V6((0xfd00 << 112) | 5));
}
