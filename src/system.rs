use crate::error::PotError;
use crate::ip::{IpAddress, IpNetwork, parse_ip_network};
use crate::text::{split_on, split_str, starts_with, trim, trim_str, has_prefix};
use crate::util::{ConfValue, get_value, value_text, value_token};
use vstd::prelude::*;

verus! {

/// What a value line yields when read as a `T`.
pub open spec fn read_as<T: ConfValue>(line: Seq<char>) -> Option<T::V> {
    match value_token(line) {
        Some(t) => T::from_token(t),
        None => None,
    }
}

/// The lines of a configuration text, each trimmed.
pub open spec fn conf_lines(s: Seq<char>) -> Seq<Seq<char>> {
    split_on(s, '\n').map_values(|l: Seq<char>| trim(l))
}

/// The settings of the system configuration, any of them possibly absent.
pub struct SystemConfModel {
    pub zfs_root: Option<Seq<char>>,
    pub fs_root: Option<Seq<char>>,
    pub network: Option<IpNetwork>,
    pub netmask: Option<IpAddress>,
    pub gateway: Option<IpAddress>,
    pub ext_if: Option<Seq<char>>,
    pub dns_name: Option<Seq<char>>,
    pub dns_ip: Option<IpAddress>,
}

impl SystemConfModel {
    pub open spec fn empty() -> SystemConfModel {
        SystemConfModel {
            zfs_root: None,
            fs_root: None,
            network: None,
            netmask: None,
            gateway: None,
            ext_if: None,
            dns_name: None,
            dns_ip: None,
        }
    }

    /// Everything but the DNS pair is present.
    pub open spec fn complete(self) -> bool {
        &&& self.zfs_root is Some
        &&& self.fs_root is Some
        &&& self.network is Some
        &&& self.netmask is Some
        &&& self.gateway is Some
        &&& self.ext_if is Some
    }

    /// The settings of `rhs` where present, the others from `self`.
    pub open spec fn merged(self, rhs: SystemConfModel) -> SystemConfModel {
        SystemConfModel {
            zfs_root: if rhs.zfs_root is Some { rhs.zfs_root } else { self.zfs_root },
            fs_root: if rhs.fs_root is Some { rhs.fs_root } else { self.fs_root },
            network: if rhs.network is Some { rhs.network } else { self.network },
            netmask: if rhs.netmask is Some { rhs.netmask } else { self.netmask },
            gateway: if rhs.gateway is Some { rhs.gateway } else { self.gateway },
            ext_if: if rhs.ext_if is Some { rhs.ext_if } else { self.ext_if },
            dns_name: if rhs.dns_name is Some { rhs.dns_name } else { self.dns_name },
            dns_ip: if rhs.dns_ip is Some { rhs.dns_ip } else { self.dns_ip },
        }
    }

    /// The effect of one trimmed line: a comment changes nothing; a line that
    /// starts with a recognised key sets that setting to the line's value,
    /// which is absent when it does not read.
    pub open spec fn apply_line(self, l: Seq<char>) -> SystemConfModel {
        if starts_with(l, "#"@) {
            self
        } else {
            SystemConfModel {
                zfs_root: if starts_with(l, "POT_ZFS_ROOT="@) {
                    read_as::<String>(l)
                } else {
                    self.zfs_root
                },
                fs_root: if starts_with(l, "POT_FS_ROOT="@) {
                    read_as::<String>(l)
                } else {
                    self.fs_root
                },
                ext_if: if starts_with(l, "POT_EXTIF="@) {
                    read_as::<String>(l)
                } else {
                    self.ext_if
                },
                dns_name: if starts_with(l, "POT_DNS_NAME="@) {
                    read_as::<String>(l)
                } else {
                    self.dns_name
                },
                network: if starts_with(l, "POT_NETWORK="@) {
                    read_as::<IpNetwork>(l)
                } else {
                    self.network
                },
                netmask: if starts_with(l, "POT_NETMASK="@) {
                    read_as::<IpAddress>(l)
                } else {
                    self.netmask
                },
                gateway: if starts_with(l, "POT_GATEWAY="@) {
                    read_as::<IpAddress>(l)
                } else {
                    self.gateway
                },
                dns_ip: if starts_with(l, "POT_DNS_IP="@) {
                    read_as::<IpAddress>(l)
                } else {
                    self.dns_ip
                },
            }
        }
    }
}

/// The settings that a sequence of trimmed lines gives, read top to bottom.
pub open spec fn apply_lines(ls: Seq<Seq<char>>) -> SystemConfModel
    decreases ls.len(),
{
    if ls.len() == 0 {
        SystemConfModel::empty()
    } else {
        apply_lines(ls.drop_last()).apply_line(ls.last())
    }
}

/// The settings that a configuration text gives.
pub open spec fn parse_system_conf(s: Seq<char>) -> SystemConfModel {
    apply_lines(conf_lines(s))
}

/// The pot DNS jail.
#[derive(Debug, Clone)]
pub struct PotDnsConfig {
    pub pot_name: String,
    pub ip: IpAddress,
}

/// The resolved system configuration.
#[derive(Debug, Clone)]
pub struct PotSystemConfig {
    pub zfs_root: String,
    pub fs_root: String,
    pub network: IpNetwork,
    pub netmask: IpAddress,
    pub gateway: IpAddress,
    pub ext_if: String,
    pub dns: Option<PotDnsConfig>,
}

impl Default for PotSystemConfig {
    /// Empty paths and interface, the network `0.0.0.0/0` (ipnet's default),
    /// netmask `255.255.255.0`, gateway `127.0.0.1`, no DNS jail.
    fn default() -> (r: PotSystemConfig)
        ensures
            r.zfs_root@.len() == 0,
            r.fs_root@.len() == 0,
            r.ext_if@.len() == 0,
            r.network == (IpNetwork { addr: IpAddress::V4(0), prefix_len: 0 }),
            r.netmask == IpAddress::V4(0xffff_ff00),
            r.gateway == IpAddress::V4(0x7f00_0001),
            r.dns is None,
    {
        PotSystemConfig {
            zfs_root: String::new(),
            fs_root: String::new(),
            network: IpNetwork { addr: IpAddress::V4(0), prefix_len: 0 },
            netmask: IpAddress::V4(0xffff_ff00),
            gateway: IpAddress::V4(0x7f00_0001),
            ext_if: String::new(),
            dns: None,
        }
    }
}

impl PotSystemConfig {
    /// The network's prefix fits its family.
    pub open spec fn wf(&self) -> bool {
        self.network.wf()
    }
}

/// The system configuration as read from files, any setting possibly absent.
#[derive(Debug, Clone, PartialEq)]
pub struct PartialSystemConf {
    pub zfs_root: Option<String>,
    pub fs_root: Option<String>,
    pub network: Option<IpNetwork>,
    pub netmask: Option<IpAddress>,
    pub gateway: Option<IpAddress>,
    pub ext_if: Option<String>,
    pub dns_name: Option<String>,
    pub dns_ip: Option<IpAddress>,
}

impl View for PartialSystemConf {
    type V = SystemConfModel;

    open spec fn view(&self) -> SystemConfModel {
        SystemConfModel {
            zfs_root: self.zfs_root.deep_view(),
            fs_root: self.fs_root.deep_view(),
            network: self.network,
            netmask: self.netmask,
            gateway: self.gateway,
            ext_if: self.ext_if.deep_view(),
            dns_name: self.dns_name.deep_view(),
            dns_ip: self.dns_ip,
        }
    }
}

impl Default for PartialSystemConf {
    fn default() -> (r: PartialSystemConf)
        ensures
            r@ == SystemConfModel::empty(),
            r.network_ok(),
    {
        PartialSystemConf {
            zfs_root: None,
            fs_root: None,
            network: None,
            netmask: None,
            gateway: None,
            ext_if: None,
            dns_name: None,
            dns_ip: None,
        }
    }
}

/// A string setting, moved over when present.
fn take_string(dst: &mut Option<String>, src: Option<String>)
    ensures
        final(dst).deep_view() == (if src is Some {
            src.deep_view()
        } else {
            old(dst).deep_view()
        }),
{
    if src.is_some() {
        *dst = src;
    }
}

impl PartialSystemConf {
    /// A present network has a prefix that fits its family.
    pub open spec fn network_ok(&self) -> bool {
        self.network matches Some(n) ==> n.wf()
    }

    /// Everything but the DNS pair is present.
    pub fn is_valid(&self) -> (r: bool)
        ensures
            r == self@.complete(),
    {
        self.zfs_root.is_some() && self.fs_root.is_some() && self.network.is_some()
            && self.netmask.is_some() && self.gateway.is_some() && self.ext_if.is_some()
    }

    /// Overrides the settings that `rhs` holds.
    pub fn merge(&mut self, rhs: PartialSystemConf)
        ensures
            final(self)@ == old(self)@.merged(rhs@),
            old(self).network_ok() && rhs.network_ok() ==> final(self).network_ok(),
    {
        take_string(&mut self.zfs_root, rhs.zfs_root);
        take_string(&mut self.fs_root, rhs.fs_root);
        if rhs.network.is_some() {
            self.network = rhs.network;
        }
        if rhs.netmask.is_some() {
            self.netmask = rhs.netmask;
        }
        if rhs.gateway.is_some() {
            self.gateway = rhs.gateway;
        }
        take_string(&mut self.ext_if, rhs.ext_if);
        take_string(&mut self.dns_name, rhs.dns_name);
        if rhs.dns_ip.is_some() {
            self.dns_ip = rhs.dns_ip;
        }
    }

    /// Reads a configuration text. Reading never fails: unknown lines are
    /// ignored and values that do not read leave their setting absent.
    pub fn from_str(s: &str) -> (r: Result<PartialSystemConf, PotError>)
        ensures
            r matches Ok(c) && c@ == parse_system_conf(s@) && c.network_ok(),
    {
        let lines = split_str(s, '\n');
        let mut conf = PartialSystemConf::default();
        let mut i: usize = 0;
        while i < lines.len()
            invariant
                i <= lines.len(),
                lines.deep_view() == split_on(s@, '\n'),
                conf@ == apply_lines(conf_lines(s@).take(i as int)),
                conf.network_ok(),
            decreases lines.len() - i,
        {
            let line = trim_str(lines[i].as_str());
            proof {
                assert(conf_lines(s@).take(i + 1).drop_last() =~= conf_lines(s@).take(i as int));
                assert(lines.deep_view()[i as int] == lines@[i as int]@);
            }
            conf.apply_line(line.as_str());
            i = i + 1;
        }
        proof {
            assert(conf_lines(s@).take(lines.len() as int) =~= conf_lines(s@));
        }
        Ok(conf)
    }

    /// Applies one trimmed line.
    fn apply_line(&mut self, l: &str)
        requires
            old(self).network_ok(),
        ensures
            final(self)@ == old(self)@.apply_line(l@),
            final(self).network_ok(),
    {
        if has_prefix(l, "#") {
            return;
        }
        if has_prefix(l, "POT_ZFS_ROOT=") {
            self.zfs_root = get_value(l);
        }
        if has_prefix(l, "POT_FS_ROOT=") {
            self.fs_root = get_value(l);
        }
        if has_prefix(l, "POT_EXTIF=") {
            self.ext_if = get_value(l);
        }
        if has_prefix(l, "POT_DNS_NAME=") {
            self.dns_name = get_value(l);
        }
        if has_prefix(l, "POT_NETWORK=") {
            self.network = get_network(l);
        }
        if has_prefix(l, "POT_NETMASK=") {
            self.netmask = get_value(l);
        }
        if has_prefix(l, "POT_GATEWAY=") {
            self.gateway = get_value(l);
        }
        if has_prefix(l, "POT_DNS_IP=") {
            self.dns_ip = get_value(l);
        }
    }

    /// The settings of the defaults text overridden by those of the overrides
    /// text; an absent text contributes nothing.
    pub fn new(defaults: Option<&str>, overrides: Option<&str>) -> (r: PartialSystemConf)
        ensures
            r@ == (match defaults {
                None => SystemConfModel::empty(),
                Some(d) => match overrides {
                    None => parse_system_conf(d@),
                    Some(o) => parse_system_conf(d@).merged(parse_system_conf(o@)),
                },
            }),
            r.network_ok(),
    {
        match defaults {
            None => PartialSystemConf::default(),
            Some(d) => {
                let Ok(mut dconf) = PartialSystemConf::from_str(d) else {
                    return PartialSystemConf::default();
                };
                match overrides {
                    None => dconf,
                    Some(o) => {
                        let Ok(oconf) = PartialSystemConf::from_str(o) else {
                            return dconf;
                        };
                        dconf.merge(oconf);
                        dconf
                    },
                }
            },
        }
    }
}

/// The network value of a line, with its prefix checked against its family.
fn get_network(l: &str) -> (r: Option<IpNetwork>)
    ensures
        r == read_as::<IpNetwork>(l@),
        r matches Some(n) ==> n.wf(),
{
    match value_text(l) {
        Some(t) => parse_ip_network(t.as_str()),
        None => None,
    }
}

impl PotSystemConfig {
    /// The resolved configuration: fails with `IncompleteSystemConf` exactly
    /// when a setting other than the DNS pair is absent. The DNS jail is
    /// present exactly when both its name and its address are.
    pub fn try_from(psc: PartialSystemConf) -> (r: Result<PotSystemConfig, PotError>)
        requires
            psc.network_ok(),
        ensures
            r is Err <==> !psc@.complete(),
            r matches Err(e) ==> e == PotError::IncompleteSystemConf,
            r matches Ok(c) ==> {
                &&& c.wf()
                &&& Some(c.zfs_root@) == psc@.zfs_root
                &&& Some(c.fs_root@) == psc@.fs_root
                &&& Some(c.network) == psc@.network
                &&& Some(c.netmask) == psc@.netmask
                &&& Some(c.gateway) == psc@.gateway
                &&& Some(c.ext_if@) == psc@.ext_if
                &&& (c.dns is Some <==> (psc@.dns_name is Some && psc@.dns_ip is Some))
                &&& c.dns matches Some(d) ==> (Some(d.pot_name@) == psc@.dns_name && Some(d.ip)
                    == psc@.dns_ip)
            },
    {
        if !psc.is_valid() {
            return Err(PotError::IncompleteSystemConf);
        }
        let PartialSystemConf {
            zfs_root,
            fs_root,
            network,
            netmask,
            gateway,
            ext_if,
            dns_name,
            dns_ip,
        } = psc;
        let (Some(zfs_root), Some(fs_root), Some(network), Some(netmask), Some(gateway), Some(ext_if)) =
            (zfs_root, fs_root, network, netmask, gateway, ext_if) else {
            return Err(PotError::IncompleteSystemConf);
        };
        let dns = match (dns_name, dns_ip) {
            (Some(pot_name), Some(ip)) => Some(PotDnsConfig { pot_name, ip }),
            _ => None,
        };
        Ok(PotSystemConfig { zfs_root, fs_root, network, netmask, gateway, ext_if, dns })
    }
}

/// Overriding with an empty configuration changes nothing, and each setting of
/// a merge is the override's where it is present and the default's elsewhere.
pub proof fn lemma_merge_identity(d: SystemConfModel, x: SystemConfModel)
    ensures
        d.merged(SystemConfModel::empty()) == d,
        x.zfs_root is Some ==> d.merged(x).zfs_root == x.zfs_root,
        x.zfs_root is None ==> d.merged(x).zfs_root == d.zfs_root,
        x.fs_root is Some ==> d.merged(x).fs_root == x.fs_root,
        x.fs_root is None ==> d.merged(x).fs_root == d.fs_root,
        x.network is Some ==> d.merged(x).network == x.network,
        x.network is None ==> d.merged(x).network == d.network,
        x.netmask is Some ==> d.merged(x).netmask == x.netmask,
        x.netmask is None ==> d.merged(x).netmask == d.netmask,
        x.gateway is Some ==> d.merged(x).gateway == x.gateway,
        x.gateway is None ==> d.merged(x).gateway == d.gateway,
        x.ext_if is Some ==> d.merged(x).ext_if == x.ext_if,
        x.ext_if is None ==> d.merged(x).ext_if == d.ext_if,
        x.dns_name is Some ==> d.merged(x).dns_name == x.dns_name,
        x.dns_name is None ==> d.merged(x).dns_name == d.dns_name,
        x.dns_ip is Some ==> d.merged(x).dns_ip == x.dns_ip,
        x.dns_ip is None ==> d.merged(x).dns_ip == d.dns_ip,
{
}

} // verus!
