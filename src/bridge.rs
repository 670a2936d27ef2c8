use crate::error::PotError;
use crate::ip::{IpAddress, IpNetwork, parse_ip_network};
use crate::system::{conf_lines, read_as};
use crate::text::{has_prefix, split_on, split_str, starts_with, trim_str};
use crate::util::{get_value, value_text};
use vstd::prelude::*;

verus! {

/// The keys of a bridge file, any of them possibly absent.
pub struct BridgeFileModel {
    pub name: Option<Seq<char>>,
    pub network: Option<IpNetwork>,
    pub gateway: Option<IpAddress>,
}

impl BridgeFileModel {
    pub open spec fn empty() -> BridgeFileModel {
        BridgeFileModel { name: None, network: None, gateway: None }
    }

    /// The effect of one trimmed line, as for the system configuration.
    pub open spec fn apply_line(self, l: Seq<char>) -> BridgeFileModel {
        if starts_with(l, "#"@) {
            self
        } else {
            BridgeFileModel {
                name: if starts_with(l, "name="@) {
                    read_as::<String>(l)
                } else {
                    self.name
                },
                network: if starts_with(l, "net="@) {
                    read_as::<IpNetwork>(l)
                } else {
                    self.network
                },
                gateway: if starts_with(l, "gateway="@) {
                    read_as::<IpAddress>(l)
                } else {
                    self.gateway
                },
            }
        }
    }

    /// The bridge that the keys describe: all three present, the network
    /// well formed and holding the gateway.
    pub open spec fn bridge(self) -> Option<BridgeModel> {
        match (self.name, self.network, self.gateway) {
            (Some(name), Some(network), Some(gateway)) => if network.wf() && network.has(
                gateway,
            ) {
                Some(BridgeModel { name, network, gateway })
            } else {
                None
            },
            _ => None,
        }
    }
}

/// The keys that a sequence of trimmed lines gives, read top to bottom.
pub open spec fn apply_bridge_lines(ls: Seq<Seq<char>>) -> BridgeFileModel
    decreases ls.len(),
{
    if ls.len() == 0 {
        BridgeFileModel::empty()
    } else {
        apply_bridge_lines(ls.drop_last()).apply_line(ls.last())
    }
}

/// The keys of a bridge file's text.
pub open spec fn parse_bridge_file(s: Seq<char>) -> BridgeFileModel {
    apply_bridge_lines(conf_lines(s))
}

/// A valid bridge.
pub struct BridgeModel {
    pub name: Seq<char>,
    pub network: IpNetwork,
    pub gateway: IpAddress,
}

/// The valid bridges among the texts of bridge files, in order.
pub open spec fn bridges_of(ts: Seq<Seq<char>>) -> Seq<BridgeModel>
    decreases ts.len(),
{
    if ts.len() == 0 {
        Seq::empty()
    } else {
        let prev = bridges_of(ts.drop_last());
        match parse_bridge_file(ts.last()).bridge() {
            Some(b) => prev.push(b),
            None => prev,
        }
    }
}

/// A private bridge: its name, its network and its gateway, which the network
/// contains.
#[derive(Debug, Clone)]
pub struct BridgeConf {
    pub name: String,
    pub network: IpNetwork,
    pub gateway: IpAddress,
}

impl View for BridgeConf {
    type V = BridgeModel;

    open spec fn view(&self) -> BridgeModel {
        BridgeModel { name: self.name@, network: self.network, gateway: self.gateway }
    }
}

impl BridgeConf {
    pub open spec fn wf(&self) -> bool {
        self.network.wf() && self.network.has(self.gateway)
    }

    /// A bridge from its three keys, when all are present and the network
    /// holds the gateway.
    pub fn optional_new(
        o_name: Option<String>,
        o_network: Option<IpNetwork>,
        o_gateway: Option<IpAddress>,
    ) -> (r: Option<BridgeConf>)
        ensures
            r.is_some() == (BridgeFileModel {
                name: o_name.deep_view(),
                network: o_network,
                gateway: o_gateway,
            }).bridge().is_some(),
            r matches Some(b) ==> b.wf() && Some(b@) == (BridgeFileModel {
                name: o_name.deep_view(),
                network: o_network,
                gateway: o_gateway,
            }).bridge(),
    {
        if let Some(name) = o_name {
            if let Some(network) = o_network {
                if let Some(gateway) = o_gateway {
                    if network.is_wf() && network.contains(&gateway) {
                        return Some(BridgeConf { name, network, gateway });
                    }
                }
            }
        }
        None
    }

    /// The bridge that a partial bridge file describes, or `BridgeConfError`
    /// when a key is absent or the gateway lies outside the network.
    pub fn try_from(value: PartialBridgeConf) -> (r: Result<BridgeConf, PotError>)
        ensures
            r is Ok <==> value@.bridge() is Some,
            r matches Ok(b) ==> b.wf() && Some(b@) == value@.bridge(),
            r matches Err(e) ==> e == PotError::BridgeConfError,
    {
        match BridgeConf::optional_new(value.name, value.network, value.gateway) {
            Some(b) => Ok(b),
            None => Err(PotError::BridgeConfError),
        }
    }

    /// Reads a bridge file's text.
    pub fn from_str(s: &str) -> (r: Result<BridgeConf, PotError>)
        ensures
            r is Ok <==> parse_bridge_file(s@).bridge() is Some,
            r matches Ok(b) ==> b.wf() && Some(b@) == parse_bridge_file(s@).bridge(),
            r matches Err(e) ==> e == PotError::BridgeConfError,
    {
        let Ok(partial) = PartialBridgeConf::from_str(s) else {
            return Err(PotError::BridgeConfError);
        };
        BridgeConf::try_from(partial)
    }
}

/// The keys of a bridge file as read, any of them possibly absent.
#[derive(Debug, Clone)]
pub struct PartialBridgeConf {
    pub name: Option<String>,
    pub network: Option<IpNetwork>,
    pub gateway: Option<IpAddress>,
}

impl View for PartialBridgeConf {
    type V = BridgeFileModel;

    open spec fn view(&self) -> BridgeFileModel {
        BridgeFileModel {
            name: self.name.deep_view(),
            network: self.network,
            gateway: self.gateway,
        }
    }
}

impl Default for PartialBridgeConf {
    fn default() -> (r: PartialBridgeConf)
        ensures
            r@ == BridgeFileModel::empty(),
    {
        PartialBridgeConf { name: None, network: None, gateway: None }
    }
}

impl PartialBridgeConf {
    pub open spec fn network_ok(&self) -> bool {
        self.network matches Some(n) ==> n.wf()
    }

    /// All three keys are present.
    pub fn is_valid(&self) -> (r: bool)
        ensures
            r == (self.name is Some && self.network is Some && self.gateway is Some),
    {
        self.name.is_some() && self.network.is_some() && self.gateway.is_some()
    }

    /// Reads a bridge file's text; reading never fails.
    pub fn from_str(s: &str) -> (r: Result<PartialBridgeConf, PotError>)
        ensures
            r matches Ok(c) && c@ == parse_bridge_file(s@) && c.network_ok(),
    {
        let lines = split_str(s, '\n');
        let mut conf = PartialBridgeConf::default();
        let mut i: usize = 0;
        while i < lines.len()
            invariant
                i <= lines.len(),
                lines.deep_view() == split_on(s@, '\n'),
                conf@ == apply_bridge_lines(conf_lines(s@).take(i as int)),
                conf.network_ok(),
            decreases lines.len() - i,
        {
            let l = trim_str(lines[i].as_str());
            proof {
                assert(conf_lines(s@).take(i + 1).drop_last() =~= conf_lines(s@).take(i as int));
                assert(lines.deep_view()[i as int] == lines@[i as int]@);
            }
            if !has_prefix(l.as_str(), "#") {
                if has_prefix(l.as_str(), "name=") {
                    conf.name = get_value(l.as_str());
                }
                if has_prefix(l.as_str(), "net=") {
                    conf.network = match value_text(l.as_str()) {
                        Some(t) => parse_ip_network(t.as_str()),
                        None => None,
                    };
                }
                if has_prefix(l.as_str(), "gateway=") {
                    conf.gateway = get_value(l.as_str());
                }
            }
            i = i + 1;
        }
        proof {
            assert(conf_lines(s@).take(lines.len() as int) =~= conf_lines(s@));
        }
        Ok(conf)
    }
}

/// The valid bridges among the texts of the bridge files, in the order given;
/// the others are dropped.
pub fn get_bridges_list(texts: &Vec<String>) -> (r: Vec<BridgeConf>)
    ensures
        r@.map_values(|b: BridgeConf| b@) == bridges_of(texts.deep_view()),
        forall|k: int| 0 <= k < r.len() ==> (#[trigger] r@[k]).wf(),
{
    let mut result: Vec<BridgeConf> = Vec::new();
    let mut i: usize = 0;
    while i < texts.len()
        invariant
            i <= texts.len(),
            result@.map_values(|b: BridgeConf| b@) == bridges_of(texts.deep_view().take(i as int)),
            forall|k: int| 0 <= k < result.len() ==> (#[trigger] result@[k]).wf(),
        decreases texts.len() - i,
    {
        proof {
            assert(texts.deep_view().take(i + 1).drop_last() =~= texts.deep_view().take(i as int));
            assert(texts.deep_view()[i as int] == texts@[i as int]@);
        }
        if let Ok(b) = BridgeConf::from_str(texts[i].as_str()) {
            result.push(b);
            proof {
                assert(result@.map_values(|b: BridgeConf| b@) =~= bridges_of(
                    texts.deep_view().take(i as int),
                ).push(b@));
            }
        }
        i = i + 1;
    }
    proof {
        assert(texts.deep_view().take(texts.len() as int) =~= texts.deep_view());
    }
    result
}

/// The index of the first bridge named `name`, if any.
pub fn find_bridge(bridges: &Vec<BridgeConf>, name: &str) -> (r: Option<usize>)
    ensures
        r matches Some(k) ==> k < bridges.len() && bridges@[k as int].name@ == name@ && forall|
            j: int,
        | 0 <= j < k ==> (#[trigger] bridges@[j]).name@ != name@,
        r is None ==> forall|j: int| 0 <= j < bridges.len() ==> (#[trigger] bridges@[j]).name@
            != name@,
{
    let mut i: usize = 0;
    while i < bridges.len()
        invariant
            i <= bridges.len(),
            forall|j: int| 0 <= j < i ==> (#[trigger] bridges@[j]).name@ != name@,
        decreases bridges.len() - i,
    {
        if str_eq(bridges[i].name.as_str(), name) {
            return Some(i);
        }
        i = i + 1;
    }
    None
}

/// Whether two texts are equal.
pub fn str_eq(a: &str, b: &str) -> (r: bool)
    ensures
        r == (a@ == b@),
{
    let ca = crate::text::chars_of(a);
    let cb = crate::text::chars_of(b);
    if ca.len() != cb.len() {
        return false;
    }
    let mut i: usize = 0;
    while i < ca.len()
        invariant
            ca@ == a@,
            cb@ == b@,
            ca.len() == cb.len(),
            i <= ca.len(),
            forall|k: int| 0 <= k < i ==> ca@[k] == cb@[k],
        decreases ca.len() - i,
    {
        if ca[i] != cb[i] {
            return false;
        }
        i = i + 1;
    }
    proof {
        assert(a@ =~= b@);
    }
    true
}

} // verus!
