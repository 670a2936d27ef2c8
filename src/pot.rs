use crate::bridge::str_eq;
use crate::ip::{IpAddress, ip_text, parse_ip_addr};
use crate::system::conf_lines;
use crate::text::{has_prefix, split_on, split_str, starts_with, trim_str};
use crate::util::{value_text, value_token};
use vstd::prelude::*;

verus! {

/// How a jail is attached to the network.
#[derive(Debug, Clone, Copy, PartialEq, Eq, Structural)]
pub enum NetType {
    Inherit,
    Alias,
    PublicBridge,
    PrivateBridge,
}

/// The keys of a jail's configuration file, as raw text.
pub struct VerbatimModel {
    pub vnet: Option<Seq<char>>,
    pub ip4: Option<Seq<char>>,
    pub ip: Option<Seq<char>>,
    pub network_type: Option<Seq<char>>,
    pub aliases: Option<Seq<Seq<char>>>,
}

impl VerbatimModel {
    pub open spec fn empty() -> VerbatimModel {
        VerbatimModel { vnet: None, ip4: None, ip: None, network_type: None, aliases: None }
    }

    /// The effect of one trimmed line. Values are read as everywhere else in
    /// the toolkit: the text after `=` up to the first space, so a trailing
    /// `# comment` is dropped here too.
    pub open spec fn apply_line(self, l: Seq<char>) -> VerbatimModel {
        if starts_with(l, "#"@) {
            self
        } else {
            VerbatimModel {
                ip4: if starts_with(l, "ip4="@) {
                    value_token(l)
                } else {
                    self.ip4
                },
                ip: if starts_with(l, "ip="@) {
                    value_token(l)
                } else {
                    self.ip
                },
                vnet: if starts_with(l, "vnet="@) {
                    value_token(l)
                } else {
                    self.vnet
                },
                network_type: if starts_with(l, "network_type="@) {
                    value_token(l)
                } else {
                    self.network_type
                },
                aliases: if starts_with(l, "pot.aliases="@) && value_token(l) is Some {
                    Some(
                        match self.aliases {
                            Some(a) => a,
                            None => Seq::empty(),
                        }.push(value_token(l)->0),
                    )
                } else {
                    self.aliases
                },
            }
        }
    }

    /// The jail that these keys describe, in the in-memory form. A modern file
    /// names its `network_type`; an older one gives `ip4` and `vnet`. Nothing
    /// comes of an unknown network type, a missing or unreadable address, or
    /// an alias jail, which reserves no address.
    pub open spec fn normalize(self, name: Seq<char>) -> Option<PotModel> {
        match self.network_type {
            Some(nt) => {
                if nt == "inherit"@ {
                    Some(PotModel { name, ip: None, net_type: NetType::Inherit, aliases: self.aliases })
                } else if nt == "public-bridge"@ || nt == "private-bridge"@ {
                    let t = if nt == "public-bridge"@ {
                        NetType::PublicBridge
                    } else {
                        NetType::PrivateBridge
                    };
                    match self.ip {
                        Some(ipt) => match ip_text(ipt) {
                            Some(a) => Some(
                                PotModel { name, ip: Some(a), net_type: t, aliases: self.aliases },
                            ),
                            None => None,
                        },
                        None => None,
                    }
                } else {
                    None
                }
            },
            None => match self.ip4 {
                Some(ip4) => {
                    if ip4 == "inherit"@ {
                        Some(PotModel { name, ip: None, net_type: NetType::Inherit, aliases: None })
                    } else {
                        match (ip_text(ip4), self.vnet) {
                            (Some(a), Some(v)) => if v == "true"@ {
                                Some(
                                    PotModel {
                                        name,
                                        ip: Some(a),
                                        net_type: NetType::PublicBridge,
                                        aliases: None,
                                    },
                                )
                            } else {
                                None
                            },
                            _ => None,
                        }
                    }
                },
                None => None,
            },
        }
    }
}

/// The keys that a sequence of trimmed lines gives, read top to bottom.
pub open spec fn apply_pot_lines(ls: Seq<Seq<char>>) -> VerbatimModel
    decreases ls.len(),
{
    if ls.len() == 0 {
        VerbatimModel::empty()
    } else {
        apply_pot_lines(ls.drop_last()).apply_line(ls.last())
    }
}

/// The keys of a jail configuration text.
pub open spec fn parse_pot_file(s: Seq<char>) -> VerbatimModel {
    apply_pot_lines(conf_lines(s))
}

/// A jail as the address database sees it.
pub struct PotModel {
    pub name: Seq<char>,
    pub ip: Option<IpAddress>,
    pub net_type: NetType,
    pub aliases: Option<Seq<Seq<char>>>,
}

/// A jail: its name, its address if it has one, how it is attached, and its
/// aliases.
#[derive(Debug, Clone)]
pub struct PotConf {
    pub name: String,
    pub ip_addr: Option<IpAddress>,
    pub network_type: NetType,
    pub aliases: Option<Vec<String>>,
}

impl View for PotConf {
    type V = PotModel;

    open spec fn view(&self) -> PotModel {
        PotModel {
            name: self.name@,
            ip: self.ip_addr,
            net_type: self.network_type,
            aliases: self.aliases.deep_view(),
        }
    }
}

impl PotConf {
    /// A bridged jail has an address, an inherit jail none, and no jail is an
    /// alias jail.
    pub open spec fn wf(&self) -> bool {
        &&& (self.network_type == NetType::PublicBridge || self.network_type
            == NetType::PrivateBridge) ==> self.ip_addr is Some
        &&& self.network_type == NetType::Inherit ==> self.ip_addr is None
        &&& self.network_type != NetType::Alias
    }
}

impl Default for PotConf {
    fn default() -> (r: PotConf)
        ensures
            r.name@.len() == 0,
            r.ip_addr is None,
            r.network_type == NetType::Inherit,
            r.aliases is None,
    {
        PotConf {
            name: String::new(),
            ip_addr: None,
            network_type: NetType::Inherit,
            aliases: None,
        }
    }
}

/// The keys of a jail configuration file, as raw text.
#[derive(Debug, Clone)]
pub struct PotConfVerbatim {
    pub vnet: Option<String>,
    pub ip4: Option<String>,
    pub ip: Option<String>,
    pub network_type: Option<String>,
    pub aliases: Option<Vec<String>>,
}

impl View for PotConfVerbatim {
    type V = VerbatimModel;

    open spec fn view(&self) -> VerbatimModel {
        VerbatimModel {
            vnet: self.vnet.deep_view(),
            ip4: self.ip4.deep_view(),
            ip: self.ip.deep_view(),
            network_type: self.network_type.deep_view(),
            aliases: self.aliases.deep_view(),
        }
    }
}

impl Default for PotConfVerbatim {
    fn default() -> (r: PotConfVerbatim)
        ensures
            r@ == VerbatimModel::empty(),
    {
        PotConfVerbatim { vnet: None, ip4: None, ip: None, network_type: None, aliases: None }
    }
}

impl PotConfVerbatim {
    /// Reads a jail configuration text.
    pub fn from_str(s: &str) -> (r: PotConfVerbatim)
        ensures
            r@ == parse_pot_file(s@),
    {
        let lines = split_str(s, '\n');
        let mut conf = PotConfVerbatim::default();
        let mut i: usize = 0;
        while i < lines.len()
            invariant
                i <= lines.len(),
                lines.deep_view() == split_on(s@, '\n'),
                conf@ == apply_pot_lines(conf_lines(s@).take(i as int)),
            decreases lines.len() - i,
        {
            let l = trim_str(lines[i].as_str());
            proof {
                assert(conf_lines(s@).take(i + 1).drop_last() =~= conf_lines(s@).take(i as int));
                assert(lines.deep_view()[i as int] == lines@[i as int]@);
            }
            conf.apply_line(l.as_str());
            i = i + 1;
        }
        proof {
            assert(conf_lines(s@).take(lines.len() as int) =~= conf_lines(s@));
        }
        conf
    }

    fn apply_line(&mut self, l: &str)
        ensures
            final(self)@ == old(self)@.apply_line(l@),
    {
        if has_prefix(l, "#") {
            return;
        }
        if has_prefix(l, "ip4=") {
            self.ip4 = value_text(l);
        }
        if has_prefix(l, "ip=") {
            self.ip = value_text(l);
        }
        if has_prefix(l, "vnet=") {
            self.vnet = value_text(l);
        }
        if has_prefix(l, "network_type=") {
            self.network_type = value_text(l);
        }
        if has_prefix(l, "pot.aliases=") {
            if let Some(t) = value_text(l) {
                let mut v = match self.aliases.take() {
                    Some(v) => v,
                    None => Vec::new(),
                };
                let ghost before = v.deep_view();
                assert(before == match old(self)@.aliases {
                    Some(a) => a,
                    None => Seq::empty(),
                });
                v.push(t);
                proof {
                    assert(v.deep_view() =~= before.push(t@));
                }
                self.aliases = Some(v);
            }
        }
    }
}

impl PotConf {
    /// The jail named `name` whose configuration keys are `v`, if it is one
    /// that the address database takes (see `VerbatimModel::normalize`).
    pub fn from_verbatim(name: String, v: PotConfVerbatim) -> (r: Option<PotConf>)
        ensures
            r.is_some() == v@.normalize(name@).is_some(),
            r matches Some(p) ==> Some(p@) == v@.normalize(name@) && p.wf(),
    {
        match v.network_type {
            Some(nt) => {
                if str_eq(nt.as_str(), "inherit") {
                    Some(
                        PotConf {
                            name,
                            ip_addr: None,
                            network_type: NetType::Inherit,
                            aliases: v.aliases,
                        },
                    )
                } else if str_eq(nt.as_str(), "public-bridge") || str_eq(
                    nt.as_str(),
                    "private-bridge",
                ) {
                    let t = if str_eq(nt.as_str(), "public-bridge") {
                        NetType::PublicBridge
                    } else {
                        NetType::PrivateBridge
                    };
                    match v.ip {
                        Some(ipt) => match parse_ip_addr(ipt.as_str()) {
                            Some(a) => Some(
                                PotConf {
                                    name,
                                    ip_addr: Some(a),
                                    network_type: t,
                                    aliases: v.aliases,
                                },
                            ),
                            None => None,
                        },
                        None => None,
                    }
                } else {
                    None
                }
            },
            None => match v.ip4 {
                Some(ip4) => {
                    if str_eq(ip4.as_str(), "inherit") {
                        Some(
                            PotConf {
                                name,
                                ip_addr: None,
                                network_type: NetType::Inherit,
                                aliases: None,
                            },
                        )
                    } else {
                        match (parse_ip_addr(ip4.as_str()), v.vnet) {
                            (Some(a), Some(vn)) => if str_eq(vn.as_str(), "true") {
                                Some(
                                    PotConf {
                                        name,
                                        ip_addr: Some(a),
                                        network_type: NetType::PublicBridge,
                                        aliases: None,
                                    },
                                )
                            } else {
                                None
                            },
                            _ => None,
                        }
                    }
                },
                None => None,
            },
        }
    }

    /// The jail named `name` whose configuration text is `text`, if the
    /// address database takes it.
    pub fn from_conf_text(name: String, text: &str) -> (r: Option<PotConf>)
        ensures
            r.is_some() == parse_pot_file(text@).normalize(name@).is_some(),
            r matches Some(p) ==> Some(p@) == parse_pot_file(text@).normalize(name@) && p.wf(),
    {
        PotConf::from_verbatim(name, PotConfVerbatim::from_str(text))
    }
}

/// The jails that the address database takes, from (name, configuration
/// text) pairs, in the order given.
pub open spec fn pots_of(entries: Seq<(Seq<char>, Seq<char>)>) -> Seq<PotModel>
    decreases entries.len(),
{
    if entries.len() == 0 {
        Seq::empty()
    } else {
        let prev = pots_of(entries.drop_last());
        match parse_pot_file(entries.last().1).normalize(entries.last().0) {
            Some(p) => prev.push(p),
            None => prev,
        }
    }
}

/// The jails of the given (name, configuration text) pairs that the address
/// database takes, in order; malformed, incomplete and alias jails are
/// dropped.
pub fn get_pot_conf_list(entries: &Vec<(String, String)>) -> (r: Vec<PotConf>)
    ensures
        r@.map_values(|p: PotConf| p@) == pots_of(entries.deep_view()),
        forall|k: int| 0 <= k < r.len() ==> (#[trigger] r@[k]).wf(),
{
    let mut result: Vec<PotConf> = Vec::new();
    let mut i: usize = 0;
    while i < entries.len()
        invariant
            i <= entries.len(),
            result@.map_values(|p: PotConf| p@) == pots_of(entries.deep_view().take(i as int)),
            forall|k: int| 0 <= k < result.len() ==> (#[trigger] result@[k]).wf(),
        decreases entries.len() - i,
    {
        proof {
            assert(entries.deep_view().take(i + 1).drop_last() =~= entries.deep_view().take(
                i as int,
            ));
            assert(entries.deep_view()[i as int] == (
                entries@[i as int].0@,
                entries@[i as int].1@,
            ));
        }
        let name = entries[i].0.clone();
        if let Some(p) = PotConf::from_conf_text(name, entries[i].1.as_str()) {
            result.push(p);
            proof {
                assert(result@.map_values(|p: PotConf| p@) =~= pots_of(
                    entries.deep_view().take(i as int),
                ).push(p@));
            }
        }
        i = i + 1;
    }
    proof {
        assert(entries.deep_view().take(entries.len() as int) =~= entries.deep_view());
    }
    result
}

} // verus!
