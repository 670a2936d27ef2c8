use pot_rs::error::PotError;
use pot_rs::ip::{IpAddress, IpNetwork};
use pot_rs::system::{PartialSystemConf, PotSystemConfig};

fn v4(a: u8, b: u8, c: u8, d: u8) -> IpAddress {
    IpAddress::V4(u32::from_be_bytes([a, b, c, d]))
}

const FULL: &str = "POT_ZFS_ROOT=zroot/pot\nPOT_FS_ROOT=/opt/pot\nPOT_EXTIF=em0\n
            POT_NETWORK=192.168.0.0/24\nPOT_NETMASK=255.255.255.0\nPOT_GATEWAY=192.168.0.1\n
            POT_DNS_IP=192.168.0.2\nPOT_DNS_NAME=bar_dns";

#[test]
fn partial_system_conf_default() {
    let uut = PartialSystemConf::default();
    assert!(!uut.is_valid());
    assert_eq!(uut.dns_ip, None);
    assert_eq!(uut.dns_name, None);
    assert_eq!(uut.ext_if, None);
    assert_eq!(uut.fs_root, None);
    assert_eq!(uut.gateway, None);
    assert_eq!(uut.netmask, None);
    assert_eq!(uut.network, None);
    assert_eq!(uut.zfs_root, None);
}

#[test]
fn partial_system_conf_fromstr_001() {
    let uut = PartialSystemConf::from_str("");
    assert!(uut.is_ok());
    let uut = uut.unwrap();
    assert!(!uut.is_valid());
    assert_eq!(uut, PartialSystemConf::default());
}

#[test]
fn partial_system_conf_fromstr_002() {
    let uut = PartialSystemConf::from_str("# Comment 1\n # Comment with space");
    assert!(uut.is_ok());
    let uut = uut.unwrap();
    assert!(!uut.is_valid());
    assert_eq!(uut, PartialSystemConf::default());
}

#[test]
fn partial_system_conf_fromstr_003() {
    let uut = PartialSystemConf::from_str(" # POT_GATEWAY=192.168.0.1");
    assert!(uut.is_ok());
    let uut = uut.unwrap();
    assert!(!uut.is_valid());
    assert_eq!(uut, PartialSystemConf::default());
}

#[test]
fn partial_system_conf_fromstr_004() {
    let uut = PartialSystemConf::from_str("POT_GATEWAY=192.168.0.1");
    assert!(uut.is_ok());
    let uut = uut.unwrap();
    assert!(!uut.is_valid());
    assert_ne!(uut, PartialSystemConf::default());
    assert!(uut.gateway.is_some());
    assert_eq!(uut.gateway.unwrap(), v4(192, 168, 0, 1));
}

#[test]
fn partial_system_conf_fromstr_005() {
    let uut = PartialSystemConf::from_str("POT_NETWORK=192.168.0.0");
    assert!(uut.is_ok());
    let uut = uut.unwrap();
    assert!(!uut.is_valid());
    assert!(!uut.network.is_some());
}

#[test]
fn partial_system_conf_fromstr_006() {
    let uut = PartialSystemConf::from_str("POT_NETWORK=192.168.0.0/24");
    assert!(uut.is_ok());
    let uut = uut.unwrap();
    assert!(!uut.is_valid());
    assert_ne!(uut, PartialSystemConf::default());
    assert!(uut.network.is_some());
    assert_eq!(uut.network.unwrap(), IpNetwork { addr: v4(192, 168, 0, 0), prefix_len: 24 });
}

#[test]
fn partial_system_conf_fromstr_007() {
    let uut = PartialSystemConf::from_str("POT_DNS_NAME=FOO_DNS");
    assert!(uut.is_ok());
    let uut = uut.unwrap();
    assert!(!uut.is_valid());
    assert_ne!(uut, PartialSystemConf::default());
    assert!(uut.dns_name.is_some());
    assert_eq!(uut.dns_name.unwrap(), "FOO_DNS".to_string());
}

#[test]
fn partial_system_conf_fromstr_008() {
    let uut = PartialSystemConf::from_str("POT_DNS_NAME=\"FOO_DNS\"");
    assert!(uut.is_ok());
    let uut = uut.unwrap();
    assert!(!uut.is_valid());
    assert_ne!(uut, PartialSystemConf::default());
    assert!(uut.dns_name.is_some());
    assert_ne!(uut.dns_name.unwrap(), "FOO_DNS".to_string());
}

#[test]
fn partial_system_conf_fromstr_009() {
    let uut = PartialSystemConf::from_str("POT_DNS_NAME=FOO_DNS # dns pot name");
    assert!(uut.is_ok());
    let uut = uut.unwrap();
    assert!(!uut.is_valid());
    assert_ne!(uut, PartialSystemConf::default());
    assert!(uut.dns_name.is_some());
    assert_eq!(uut.dns_name.unwrap(), "FOO_DNS".to_string());
}

#[test]
fn partial_system_conf_fromstr_010() {
    let uut = PartialSystemConf::from_str("POT_DNS_IP=192.168.240.240 # dns pot ip");
    assert!(uut.is_ok());
    let uut = uut.unwrap();
    assert!(!uut.is_valid());
    assert_ne!(uut, PartialSystemConf::default());
    assert!(uut.dns_ip.is_some());
    assert_eq!(uut.dns_ip.unwrap(), v4(192, 168, 240, 240));
}

#[test]
fn partial_system_conf_fromstr_011() {
    let uut = PartialSystemConf::from_str("POT_NETWORK=192.168.0.0/22 # pots internal network");
    assert!(uut.is_ok());
    let uut = uut.unwrap();
    assert!(!uut.is_valid());
    assert_ne!(uut, PartialSystemConf::default());
    assert!(uut.network.is_some());
    assert_eq!(uut.network.unwrap(), IpNetwork { addr: v4(192, 168, 0, 0), prefix_len: 22 });
}

#[test]
fn partial_system_conf_fromstr_012() {
    let uut = PartialSystemConf::from_str("POT_NETWORK=fdf1:186e:49e6:76d8::/64 # pots internal network");
    assert!(uut.is_ok());
    let uut = uut.unwrap();
    assert!(!uut.is_valid());
    assert_ne!(uut, PartialSystemConf::default());
    assert!(uut.network.is_some());
    assert_eq!(
        uut.network.unwrap(),
        IpNetwork { addr: IpAddress::V6(0xfdf1_186e_49e6_76d8_0000_0000_0000_0000), prefix_len: 64 }
    );
}

#[test]
fn partial_system_conf_fromstr_050() {
    let uut = PartialSystemConf::from_str(FULL);
    assert!(uut.is_ok());
    let uut = uut.unwrap();
    assert!(uut.is_valid());
    assert_ne!(uut, PartialSystemConf::default());
    assert!(uut.network.is_some());
    assert_eq!(uut.network.unwrap(), IpNetwork { addr: v4(192, 168, 0, 0), prefix_len: 24 });
    assert!(uut.netmask.is_some());
    assert_eq!(uut.netmask.unwrap(), v4(255, 255, 255, 0));
    assert!(uut.gateway.is_some());
    assert_eq!(uut.gateway.unwrap(), v4(192, 168, 0, 1));
    assert!(uut.dns_ip.is_some());
    assert_eq!(uut.dns_ip.unwrap(), v4(192, 168, 0, 2));
    assert!(uut.zfs_root.is_some());
    assert_eq!(uut.zfs_root.unwrap(), "zroot/pot".to_string());
    assert!(uut.fs_root.is_some());
    assert_eq!(uut.fs_root.unwrap(), "/opt/pot".to_string());
    assert!(uut.ext_if.is_some());
    assert_eq!(uut.ext_if.unwrap(), "em0".to_string());
    assert!(uut.dns_name.is_some());
    assert_eq!(uut.dns_name.unwrap(), "bar_dns".to_string());
}

#[test]
fn partial_system_conf_fromstr_051() {
    let uut = PartialSystemConf::from_str(
        "POT_ZFS_ROOT=zroot/pot\nPOT_FS_ROOT=/opt/pot\nPOT_EXTIF=em0\n
            POT_NETWORK=fdf1:186e:49e6:76d8::/64\nPOT_NETMASK=ffff:ffff:ffff:ffff::\nPOT_GATEWAY=fdf1:186e:49e6:76d8::1\n
            POT_DNS_IP=fdf1:186e:49e6:76d8::2\nPOT_DNS_NAME=bar_dns",
    );
    assert!(uut.is_ok());
    let uut = uut.unwrap();
    assert!(uut.is_valid());
    assert_ne!(uut, PartialSystemConf::default());
    assert!(uut.network.is_some());
    assert_eq!(
        uut.network.unwrap(),
        IpNetwork { addr: IpAddress::V6(0xfdf1_186e_49e6_76d8_0000_0000_0000_0000), prefix_len: 64 }
    );
    assert!(uut.netmask.is_some());
    assert_eq!(uut.netmask.unwrap(), IpAddress::V6(0xffff_ffff_ffff_ffff_0000_0000_0000_0000));
    assert!(uut.gateway.is_some());
    assert_eq!(uut.gateway.unwrap(), IpAddress::V6(0xfdf1_186e_49e6_76d8_0000_0000_0000_0001));
    assert!(uut.dns_ip.is_some());
    assert_eq!(uut.dns_ip.unwrap(), IpAddress::V6(0xfdf1_186e_49e6_76d8_0000_0000_0000_0002));
    assert!(uut.zfs_root.is_some());
    assert_eq!(uut.zfs_root.unwrap(), "zroot/pot".to_string());
    assert!(uut.fs_root.is_some());
    assert_eq!(uut.fs_root.unwrap(), "/opt/pot".to_string());
    assert!(uut.ext_if.is_some());
    assert_eq!(uut.ext_if.unwrap(), "em0".to_string());
    assert!(uut.dns_name.is_some());
    assert_eq!(uut.dns_name.unwrap(), "bar_dns".to_string());
}

#[test]
fn partial_system_conf_merge_001() {
    let mut uut = PartialSystemConf::default();
    let uut2 = PartialSystemConf::from_str(FULL).unwrap();
    uut.merge(uut2.clone());
    assert_eq!(uut, uut2);
}

#[test]
fn partial_system_conf_merge_002() {
    let mut uut = PartialSystemConf::from_str(FULL).unwrap();
    let uut2 = PartialSystemConf::from_str("POT_DNS_NAME=foo_dns").unwrap();
    uut.merge(uut2);
    assert_eq!(
        uut,
        PartialSystemConf::from_str(
            "POT_ZFS_ROOT=zroot/pot\nPOT_FS_ROOT=/opt/pot\nPOT_EXTIF=em0\n
            POT_NETWORK=192.168.0.0/24\nPOT_NETMASK=255.255.255.0\nPOT_GATEWAY=192.168.0.1\n
            POT_DNS_IP=192.168.0.2\nPOT_DNS_NAME=foo_dns"
        )
        .unwrap()
    );
}

#[test]
fn merge_with_empty_keeps_defaults() {
    let mut uut = PartialSystemConf::from_str(FULL).unwrap();
    let before = uut.clone();
    uut.merge(PartialSystemConf::default());
    assert_eq!(uut, before);
}

#[test]
fn later_line_wins_and_bad_value_clears() {
    let uut = PartialSystemConf::from_str("POT_GATEWAY=10.0.0.1\nPOT_GATEWAY=10.0.0.9").unwrap();
    assert_eq!(uut.gateway, Some(v4(10, 0, 0, 9)));
    let uut = PartialSystemConf::from_str("POT_GATEWAY=10.0.0.1\nPOT_GATEWAY=nonsense").unwrap();
    assert_eq!(uut.gateway, None);
}

#[test]
fn new_merges_overrides() {
    let c = PartialSystemConf::new(Some(FULL), Some("POT_EXTIF=em1\nPOT_GATEWAY=192.168.0.254"));
    assert_eq!(c.ext_if, Some("em1".to_string()));
    assert_eq!(c.gateway, Some(v4(192, 168, 0, 254)));
    assert_eq!(c.zfs_root, Some("zroot/pot".to_string()));
    let c = PartialSystemConf::new(Some(FULL), None);
    assert_eq!(c, PartialSystemConf::from_str(FULL).unwrap());
    let c = PartialSystemConf::new(None, Some(FULL));
    assert_eq!(c, PartialSystemConf::default());
}

#[test]
fn try_from_complete_with_dns() {
    let psc = PartialSystemConf::from_str(FULL).unwrap();
    let conf = PotSystemConfig::try_from(psc).unwrap();
    assert_eq!(conf.gateway, v4(192, 168, 0, 1));
    assert_eq!(conf.ext_if, "em0");
    let dns = conf.dns.unwrap();
    assert_eq!(dns.pot_name, "bar_dns");
    assert_eq!(dns.ip, v4(192, 168, 0, 2));
}

#[test]
fn try_from_without_dns_is_valid() {
    let psc = PartialSystemConf::from_str(
        "POT_ZFS_ROOT=zroot/pot\nPOT_FS_ROOT=/opt/pot\nPOT_EXTIF=em0\nPOT_NETWORK=10.0.0.0/16\nPOT_NETMASK=255.255.0.0\nPOT_GATEWAY=10.0.0.1\nPOT_DNS_NAME=dns",
    )
    .unwrap();
    assert!(psc.is_valid());
    let conf = PotSystemConfig::try_from(psc).unwrap();
    assert!(conf.dns.is_none());
}

#[test]
fn try_from_incomplete_fails() {
    let psc = PartialSystemConf::from_str("POT_ZFS_ROOT=zroot/pot\nPOT_NETWORK=10.0.0.0/16").unwrap();
    assert_eq!(PotSystemConfig::try_from(psc).unwrap_err(), PotError::IncompleteSystemConf);
}

#[test]
fn normal_form_round_trip() {
    let text = "# defaults\nPOT_EXTIF=em0 # uplink\n  POT_GATEWAY=10.0.0.1\nPOT_NETWORK=10.0.0.0/16\nPOT_UNKNOWN=1";
    let parsed = PartialSystemConf::from_str(text).unwrap();
    let normal = "POT_EXTIF=em0\nPOT_NETWORK=10.0.0.0/16\nPOT_GATEWAY=10.0.0.1\n";
    assert_eq!(PartialSystemConf::from_str(normal).unwrap(), parsed);
}

#[test]
fn pot_system_config_default() {
    let c = PotSystemConfig::default();
    assert_eq!(c.network, IpNetwork { addr: v4(0, 0, 0, 0), prefix_len: 0 });
    assert_eq!(c.netmask, v4(255, 255, 255, 0));
    assert_eq!(c.gateway, v4(127, 0, 0, 1));
    assert!(c.dns.is_none() && c.zfs_root.is_empty());
}

#[test]
fn empty_setting_is_absent() {
    let uut = PartialSystemConf::from_str("POT_ZFS_ROOT=\nPOT_EXTIF= # none").unwrap();
    assert_eq!(uut.zfs_root, None);
    assert_eq!(uut.ext_if, None);
}
