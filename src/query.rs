use crate::error::PotError;
use crate::ip::{IpAddress, IpNetwork, lemma_block, lemma_pow2_32, lemma_pow2_mono, lemma_same_family_at_own, lemma_val_bound, pow2_u128};
use vstd::arithmetic::div_mod::lemma_div_multiples_vanish;
use vstd::arithmetic::power2::{lemma_pow2_adds, lemma_pow2_pos};
use crate::bridge::{BridgeConf, BridgeModel, find_bridge};
use crate::ipdb::{IpDb, lists, strictly_sorted};
use crate::pot::{NetType, PotConf, PotModel};
use vstd::string::*;
use crate::system::PotSystemConfig;
use vstd::arithmetic::power2::{lemma2_to64, lemma_pow2_unfold, pow2};
use vstd::prelude::*;

verus! {

/// The smallest `k >= 2` whose network of 2^k addresses has room for `h`
/// hosts besides its network and broadcast addresses; nothing for `h == 0`.
pub open spec fn is_network_size(h: nat, k: nat) -> bool {
    &&& k >= 2
    &&& pow2(k) - 2 >= h
    &&& (k == 2 || pow2((k - 1) as nat) - 2 < h)
}

/// Host bits for a subnet of `host_number` hosts: the smallest `k >= 2` with
/// `2^k - 2 >= host_number`; nothing for zero hosts.
pub fn get_network_size(host_number: u16) -> (r: Option<u8>)
    ensures
        r is None <==> host_number == 0,
        r matches Some(k) ==> is_network_size(host_number as nat, k as nat) && k <= 17,
{
    if host_number == 0 {
        return None;
    }
    let mut max_hosts: u32 = 4;
    let mut result: u8 = 2;
    proof {
        lemma2_to64();
    }
    while host_number as u32 > max_hosts - 2
        invariant
            2 <= result <= 17,
            max_hosts as nat == pow2(result as nat),
            result == 2 || pow2((result - 1) as nat) - 2 < host_number,
            host_number > 0,
            4 <= max_hosts <= 131072,
        decreases 17 - result,
    {
        proof {
            lemma2_to64();
            lemma_pow2_unfold((result + 1) as nat);
            if result >= 16 {
                lemma_pow2_mono(16, result as nat);
            }
        }
        max_hosts = max_hosts * 2;
        result = result + 1;
    }
    Some(result)
}

/// The prefix length of a subnet of `host_number` hosts in the family of `ip`.
pub fn get_prefix_length(host_number: u16, ip: &IpAddress) -> (r: Option<u8>)
    ensures
        r is None <==> host_number == 0,
        r matches Some(p) ==> exists|k: nat|
            is_network_size(host_number as nat, k) && k <= 17 && p as nat == ip.bits() - k,
        r matches Some(p) ==> 15 <= p <= 126,
{
    match get_network_size(host_number) {
        Some(k) => Some(ip.family_bits() - k),
        None => None,
    }
}

/// The network sizes for a host count agree: `is_network_size` names one `k`.
pub proof fn lemma_network_size_unique(h: nat, k1: nat, k2: nat)
    requires
        is_network_size(h, k1),
        is_network_size(h, k2),
    ensures
        k1 == k2,
{
    if k1 < k2 {
        lemma_pow2_mono(k1, (k2 - 1) as nat);
    } else if k2 < k1 {
        lemma_pow2_mono(k2, (k1 - 1) as nat);
    }
}

/// `r` is the first usable host of `net` that `m` does not reserve: it is a
/// host of `net`, free, and every host before it is reserved; nothing only
/// when every host is reserved.
pub open spec fn is_next_free(net: IpNetwork, m: Map<IpAddress, Option<Seq<char>>>, r: Option<IpAddress>) -> bool {
    &&& r matches Some(a) ==> {
        &&& net.is_host(a)
        &&& !m.contains_key(a)
        &&& forall|b: IpAddress| #[trigger] net.is_host(b) && b.val() < a.val() ==> m.contains_key(b)
    }
    &&& r is None ==> forall|b: IpAddress| #[trigger] net.is_host(b) ==> m.contains_key(b)
}

/// The first usable host of `net` that the database does not hold.
pub fn next_free(net: &IpNetwork, db: &IpDb) -> (r: Option<IpAddress>)
    requires
        net.wf(),
        db.wf(),
    ensures
        is_next_free(*net, db@, r),
{
    let (lo, hi) = net.host_bounds();
    // for the facts that `bounds` states about the range
    let _ = net.bounds();
    let mut cur: u128 = lo;
    proof {
        lemma_val_bound(net.addr);
    }
    loop
        invariant
            net.wf(),
            db.wf(),
            lo as nat == net.host_lo(),
            hi as nat == net.host_hi(),
            lo <= cur <= hi,
            net.host_hi() < pow2(net.addr.bits()),
            forall|b: IpAddress| #[trigger] net.is_host(b) && b.val() < cur ==> db@.contains_key(b),
        decreases hi - cur,
    {
        let a = net.addr.at_value(cur);
        if !db.contains_key(&a) {
            return Some(a);
        }
        proof {
            assert forall|b: IpAddress| #[trigger] net.is_host(b) && b.val() < cur + 1 implies db@.contains_key(b) by {
                if b.val() == cur {
                    lemma_same_family_at_own(net.addr, b);
                }
            }
        }
        if cur == hi {
            return None;
        }
        cur = cur + 1;
    }
}

/// The reserved usable hosts of `net` that come before `limit` (all of them
/// when there is no limit), in address order: what a verbose `next` reports
/// as already used.
pub fn used_hosts_before(net: &IpNetwork, db: &IpDb, limit: Option<IpAddress>) -> (r: Vec<IpAddress>)
    requires
        net.wf(),
        db.wf(),
    ensures
        forall|a: IpAddress| #[trigger] r@.contains(a) <==> (db@.contains_key(a) && net.is_host(a) && (
        limit matches Some(l) ==> a.val() < l.val())),
        forall|i: int, j: int| 0 <= i < j < r.len() ==> (#[trigger] r@[i]).rank() < (#[trigger] r@[j]).rank(),
{
    let entries = db.entries();
    let (lo, hi) = net.host_bounds();
    let mut out: Vec<IpAddress> = Vec::new();
    let mut i: usize = 0;
    while i < entries.len()
        invariant
            i <= entries.len(),
            lo as nat == net.host_lo(),
            hi as nat == net.host_hi(),
            strictly_sorted(entries@),
            lists(entries@, db@),
            forall|a: IpAddress| #[trigger] out@.contains(a) <==> (exists|k: int| 0 <= k < i && entries@[k].0 == a)
                && net.is_host(a) && (limit matches Some(l) ==> a.val() < l.val()),
            forall|x: int| 0 <= x < out.len() ==> exists|k: int| 0 <= k < i && #[trigger] out@[x] == entries@[k].0,
            forall|x: int, y: int| 0 <= x < y < out.len() ==> (#[trigger] out@[x]).rank() < (#[trigger] out@[y]).rank(),
        decreases entries.len() - i,
    {
        let a = entries[i].0;
        let v = a.value();
        let below = match limit {
            Some(l) => v < l.value(),
            None => true,
        };
        if a.same_family(&net.addr) && lo <= v && v <= hi && below {
            proof {
                assert forall|x: int| 0 <= x < out.len() implies (#[trigger] out@[x]).rank() < a.rank() by {
                    let k = choose|k: int| 0 <= k < i && out@[x] == entries@[k].0;
                    assert(entries@[k].0.rank() < entries@[i as int].0.rank());
                }
            }
            let ghost old_out = out@;
            out.push(a);
            proof {
                assert(out@ == old_out.push(a));
                assert forall|b: IpAddress| #[trigger] out@.contains(b) <==> (exists|k: int| 0 <= k < i + 1 && entries@[k].0 == b)
                    && net.is_host(b) && (limit matches Some(l) ==> b.val() < l.val()) by {
                    if out@.contains(b) && b != a {
                        let x = choose|x: int| 0 <= x < out.len() && out@[x] == b;
                        assert(x < old_out.len());
                        assert(old_out[x] == b);
                        assert(old_out.contains(b));
                    }
                    if (exists|k: int| 0 <= k < i + 1 && entries@[k].0 == b) && net.is_host(b) && (limit matches Some(l) ==> b.val() < l.val()) {
                        if b == a {
                            assert(out@[out.len() - 1] == b);
                        } else {
                            let k = choose|k: int| 0 <= k < i + 1 && entries@[k].0 == b;
                            assert(k < i);
                            assert(old_out.contains(b));
                            let x = choose|x: int| 0 <= x < old_out.len() && old_out[x] == b;
                            assert(out@[x] == b);
                        }
                    }
                }
                assert forall|x: int| 0 <= x < out.len() implies exists|k: int| 0 <= k < i + 1 && #[trigger] out@[x] == entries@[k].0 by {
                    if x == out.len() - 1 {
                        assert(out@[x] == entries@[i as int].0);
                    } else {
                        assert(out@[x] == old_out[x]);
                    }
                }
            }
        } else {
            proof {
                assert forall|b: IpAddress| #[trigger] out@.contains(b) <==> (exists|k: int| 0 <= k < i + 1 && entries@[k].0 == b)
                    && net.is_host(b) && (limit matches Some(l) ==> b.val() < l.val()) by {
                    if (exists|k: int| 0 <= k < i + 1 && entries@[k].0 == b) && net.is_host(b) && (limit matches Some(l) ==> b.val() < l.val()) {
                        let k = choose|k: int| 0 <= k < i + 1 && entries@[k].0 == b;
                        if k == i {
                            assert(b == a);
                        }
                    }
                }
            }
        }
        i = i + 1;
    }
    proof {
        assert forall|a: IpAddress| #[trigger] out@.contains(a) <==> (db@.contains_key(a) && net.is_host(a) && (
            limit matches Some(l) ==> a.val() < l.val())) by {
            if db@.contains_key(a) {
                let k = choose|k: int| 0 <= k < entries@.len() && entries@[k].0 == a;
            }
            if exists|k: int| 0 <= k < entries@.len() && entries@[k].0 == a {
                let k = choose|k: int| 0 <= k < entries@.len() && entries@[k].0 == a;
                assert(db@.contains_key(entries@[k].0));
            }
        }
    }
    out
}

/// What validating `ip` against the pot network gives: `AlreadyInUse` for a
/// reserved address, then `OutsideNetwork` for one outside the network.
pub open spec fn validate_result(ip: IpAddress, net: IpNetwork, reserved: Map<IpAddress, Option<Seq<char>>>) -> Result<(), PotError> {
    if reserved.contains_key(ip) {
        Err(PotError::AlreadyInUse)
    } else if !net.has(ip) {
        Err(PotError::OutsideNetwork)
    } else {
        Ok(())
    }
}

/// Checks that `ip` may be given to a new jail of the pot network.
pub fn validate(ip: IpAddress, conf: &PotSystemConfig, db: &IpDb) -> (r: Result<(), PotError>)
    requires
        conf.wf(),
        db.wf(),
    ensures
        r == validate_result(ip, conf.network, db@),
{
    if db.contains_key(&ip) {
        return Err(PotError::AlreadyInUse);
    }
    if !conf.network.contains(&ip) {
        return Err(PotError::OutsideNetwork);
    }
    Ok(())
}

/// Validating the same address twice against the same database gives the
/// same answer.
pub proof fn lemma_validate_idempotent(
    ip: IpAddress,
    net: IpNetwork,
    reserved: Map<IpAddress, Option<Seq<char>>>,
    r1: Result<(), PotError>,
    r2: Result<(), PotError>,
)
    requires
        r1 == validate_result(ip, net, reserved),
        r2 == validate_result(ip, net, reserved),
    ensures
        r1 == r2,
{
}

/// A reservation map: address to optional label.
pub type Reservations = Map<IpAddress, Option<Seq<char>>>;

/// A jail attached to a bridge, with an address.
pub open spec fn is_bridged(p: PotModel) -> bool {
    &&& (p.net_type == NetType::PublicBridge || p.net_type == NetType::PrivateBridge)
    &&& p.ip is Some
}

/// `a` lies in the network of one of the bridges.
pub open spec fn in_some_bridge(a: IpAddress, bs: Seq<BridgeModel>) -> bool {
    exists|k: int| 0 <= k < bs.len() && (#[trigger] bs[k]).network.has(a)
}

/// The jail step: each bridged jail whose address lies in `net` or in one of
/// the bridges reserves its address under its name, later jails winning.
pub open spec fn reserve_pots(m: Reservations, ps: Seq<PotModel>, net: IpNetwork, bs: Seq<BridgeModel>) -> Reservations
    decreases ps.len(),
{
    if ps.len() == 0 {
        m
    } else {
        let prev = reserve_pots(m, ps.drop_last(), net, bs);
        let p = ps.last();
        if is_bridged(p) && (net.has(p.ip->0) || in_some_bridge(p.ip->0, bs)) {
            prev.insert(p.ip->0, Some(p.name))
        } else {
            prev
        }
    }
}

/// Every usable host of `net` that `m` lacks, reserved under `l`.
pub open spec fn fill_hosts(m: Reservations, net: IpNetwork, l: Option<Seq<char>>) -> Reservations {
    Map::new(
        |a: IpAddress| m.contains_key(a) || net.is_host(a),
        |a: IpAddress| if m.contains_key(a) { m[a] } else { l },
    )
}

/// The network, broadcast and gateway addresses of a bridge.
pub open spec fn reserve_bridge_addrs(m: Reservations, b: BridgeModel) -> Reservations {
    m.insert(b.network.network_addr(), Some(b.name + " bridge - network "@)).insert(
        b.network.broadcast_addr(),
        Some(b.name + " bridge - broadcast "@),
    ).insert(b.gateway, Some(b.name + " bridge - gateway "@))
}

/// The bridge step, bridge by bridge: its three addresses, then every other
/// host of its network.
pub open spec fn reserve_bridges(m: Reservations, bs: Seq<BridgeModel>) -> Reservations
    decreases bs.len(),
{
    if bs.len() == 0 {
        m
    } else {
        let b = bs.last();
        fill_hosts(
            reserve_bridge_addrs(reserve_bridges(m, bs.drop_last()), b),
            b.network,
            Some(b.name + " bridge - allocated address"@),
        )
    }
}

/// The pot network's own reservations: network and broadcast addresses
/// without label, the gateway, and the DNS jail when there is one.
pub open spec fn base_reservations(conf: PotSystemConfig) -> Reservations {
    let m = Map::<IpAddress, Option<Seq<char>>>::empty().insert(conf.network.network_addr(), None).insert(
        conf.network.broadcast_addr(),
        None,
    ).insert(conf.gateway, Some("default gateway"@));
    match conf.dns {
        Some(d) => m.insert(d.ip, Some(d.pot_name@)),
        None => m,
    }
}

/// The address database of the pot network.
pub open spec fn ipdb_of(conf: PotSystemConfig, ps: Seq<PotModel>, bs: Seq<BridgeModel>) -> Reservations {
    reserve_bridges(reserve_pots(base_reservations(conf), ps, conf.network, bs), bs)
}

/// The address database of one bridge: its three addresses, then the bridged
/// jails whose address lies in its network.
pub open spec fn bridge_ipdb_of(b: BridgeModel, ps: Seq<PotModel>) -> Reservations {
    reserve_pots(reserve_bridge_addrs(Map::empty(), b), ps, b.network, Seq::empty())
}

pub open spec fn pot_views(ps: Seq<PotConf>) -> Seq<PotModel> {
    ps.map_values(|p: PotConf| p@)
}

pub open spec fn bridge_views(bs: Seq<BridgeConf>) -> Seq<BridgeModel> {
    bs.map_values(|b: BridgeConf| b@)
}

/// `name` followed by `suffix`.
fn labelled(name: &String, suffix: &str) -> (r: Option<String>)
    ensures
        r.deep_view() == Some(name@ + suffix@),
{
    Some(name.clone().concat(suffix))
}

/// Whether `a` lies in the network of one of the bridges.
fn in_any_bridge(a: &IpAddress, bridges: &Vec<BridgeConf>) -> (r: bool)
    requires
        forall|k: int| 0 <= k < bridges.len() ==> (#[trigger] bridges@[k]).wf(),
    ensures
        r == in_some_bridge(*a, bridge_views(bridges@)),
{
    let mut i: usize = 0;
    while i < bridges.len()
        invariant
            i <= bridges.len(),
            forall|k: int| 0 <= k < bridges.len() ==> (#[trigger] bridges@[k]).wf(),
            forall|k: int| 0 <= k < i ==> !(#[trigger] bridges@[k]).network.has(*a),
        decreases bridges.len() - i,
    {
        if bridges[i].network.contains(a) {
            proof {
                assert(bridge_views(bridges@)[i as int].network.has(*a));
            }
            return true;
        }
        i = i + 1;
    }
    proof {
        assert forall|k: int| 0 <= k < bridge_views(bridges@).len() implies !(#[trigger] bridge_views(bridges@)[k]).network.has(*a) by {
            assert(!bridges@[k].network.has(*a));
        }
    }
    false
}

/// Applies the jail step to `db`.
fn add_pots(db: &mut IpDb, pots: &Vec<PotConf>, net: &IpNetwork, bridges: &Vec<BridgeConf>)
    requires
        old(db).wf(),
        net.wf(),
        forall|k: int| 0 <= k < bridges.len() ==> (#[trigger] bridges@[k]).wf(),
    ensures
        final(db).wf(),
        final(db)@ == reserve_pots(old(db)@, pot_views(pots@), *net, bridge_views(bridges@)),
{
    let ghost m0 = db@;
    let mut i: usize = 0;
    while i < pots.len()
        invariant
            i <= pots.len(),
            db.wf(),
            net.wf(),
            forall|k: int| 0 <= k < bridges.len() ==> (#[trigger] bridges@[k]).wf(),
            db@ == reserve_pots(m0, pot_views(pots@).take(i as int), *net, bridge_views(bridges@)),
        decreases pots.len() - i,
    {
        proof {
            assert(pot_views(pots@).take(i + 1).drop_last() =~= pot_views(pots@).take(i as int));
        }
        let p = &pots[i];
        if p.network_type == NetType::PublicBridge || p.network_type == NetType::PrivateBridge {
            if let Some(a) = p.ip_addr {
                if net.contains(&a) || in_any_bridge(&a, bridges) {
                    db.insert(a, Some(p.name.clone()));
                }
            }
        }
        i = i + 1;
    }
    proof {
        assert(pot_views(pots@).take(pots.len() as int) =~= pot_views(pots@));
    }
}

/// Reserves the network, broadcast and gateway addresses of a bridge.
fn add_bridge_addrs(db: &mut IpDb, b: &BridgeConf)
    requires
        old(db).wf(),
        b.wf(),
    ensures
        final(db).wf(),
        final(db)@ == reserve_bridge_addrs(old(db)@, b@),
{
    db.insert(b.network.network(), labelled(&b.name, " bridge - network "));
    db.insert(b.network.broadcast(), labelled(&b.name, " bridge - broadcast "));
    db.insert(b.gateway, labelled(&b.name, " bridge - gateway "));
}

/// Reserves every usable host of `net` that `db` lacks, under `l`.
fn add_hosts(db: &mut IpDb, net: &IpNetwork, l: &Option<String>)
    requires
        old(db).wf(),
        net.wf(),
    ensures
        final(db).wf(),
        final(db)@ == fill_hosts(old(db)@, *net, l.deep_view()),
{
    let ghost m0 = db@;
    let (lo, hi) = net.host_bounds();
    // for the facts that `bounds` states about the range
    let _ = net.bounds();
    proof {
        lemma_val_bound(net.addr);
    }
    let mut cur: u128 = lo;
    loop
        invariant
            db.wf(),
            net.wf(),
            lo as nat == net.host_lo(),
            hi as nat == net.host_hi(),
            lo <= cur <= hi,
            m0 == old(db)@,
            net.host_hi() < pow2(net.addr.bits()),
            db@ == Map::new(
                |a: IpAddress| m0.contains_key(a) || (net.is_host(a) && a.val() < cur),
                |a: IpAddress| if m0.contains_key(a) { m0[a] } else { l.deep_view() },
            ),
        decreases hi - cur,
    {
        let a = net.addr.at_value(cur);
        db.insert_if_absent(a, crate::ipdb::clone_label(l));
        proof {
            let next = Map::new(
                |x: IpAddress| m0.contains_key(x) || (net.is_host(x) && x.val() < cur + 1),
                |x: IpAddress| if m0.contains_key(x) { m0[x] } else { l.deep_view() },
            );
            assert forall|x: IpAddress| net.is_host(x) && x.val() == cur implies x == a by {
                lemma_same_family_at_own(net.addr, x);
            }
            assert(db@ =~= next);
        }
        if cur == hi {
            proof {
                assert(db@ =~= fill_hosts(m0, *net, l.deep_view()));
            }
            return;
        }
        cur = cur + 1;
    }
}

/// Builds the address database of the pot network: its own reservations,
/// then the jails, then the bridges (see `ipdb_of`).
pub fn init_ipdb(conf: &PotSystemConfig, pots: &Vec<PotConf>, bridges: &Vec<BridgeConf>) -> (r: IpDb)
    requires
        conf.wf(),
        forall|k: int| 0 <= k < bridges.len() ==> (#[trigger] bridges@[k]).wf(),
    ensures
        r.wf(),
        r@ == ipdb_of(*conf, pot_views(pots@), bridge_views(bridges@)),
{
    let mut db = IpDb::new();
    db.insert(conf.network.network(), None);
    db.insert(conf.network.broadcast(), None);
    db.insert(conf.gateway, Some(String::from_str("default gateway")));
    match &conf.dns {
        Some(d) => db.insert(d.ip, Some(d.pot_name.clone())),
        None => {},
    }
    add_pots(&mut db, pots, &conf.network, bridges);
    let ghost m1 = db@;
    let mut i: usize = 0;
    while i < bridges.len()
        invariant
            i <= bridges.len(),
            db.wf(),
            forall|k: int| 0 <= k < bridges.len() ==> (#[trigger] bridges@[k]).wf(),
            db@ == reserve_bridges(m1, bridge_views(bridges@).take(i as int)),
        decreases bridges.len() - i,
    {
        proof {
            assert(bridge_views(bridges@).take(i + 1).drop_last() =~= bridge_views(bridges@).take(i as int));
        }
        let b = &bridges[i];
        add_bridge_addrs(&mut db, b);
        let l = labelled(&b.name, " bridge - allocated address");
        add_hosts(&mut db, &b.network, &l);
        i = i + 1;
    }
    proof {
        assert(bridge_views(bridges@).take(bridges.len() as int) =~= bridge_views(bridges@));
    }
    db
}

/// Builds the address database of one bridge (see `bridge_ipdb_of`).
pub fn init_bridge_ipdb(bridge: &BridgeConf, pots: &Vec<PotConf>) -> (r: IpDb)
    requires
        bridge.wf(),
    ensures
        r.wf(),
        r@ == bridge_ipdb_of(bridge@, pot_views(pots@)),
{
    let mut db = IpDb::new();
    add_bridge_addrs(&mut db, bridge);
    let none: Vec<BridgeConf> = Vec::new();
    proof {
        assert(bridge_views(none@) =~= Seq::<BridgeModel>::empty());
    }
    add_pots(&mut db, pots, &bridge.network, &none);
    db
}

/// No reserved address lies in `s`.
pub open spec fn subnet_usable(s: IpNetwork, m: Reservations) -> bool {
    forall|a: IpAddress| #[trigger] m.contains_key(a) ==> !s.has(a)
}

/// Whether no reserved address lies in `subnet`.
pub fn is_subnet_usable(subnet: &IpNetwork, db: &IpDb) -> (r: bool)
    requires
        subnet.wf(),
        db.wf(),
    ensures
        r == subnet_usable(*subnet, db@),
{
    !db.any_in(subnet)
}

/// The `i`-th subnet of prefix `p` lies inside `net`, starts `i` subnet
/// sizes after the network address, and ends at or before the broadcast one.
pub proof fn lemma_subnet(net: IpNetwork, p: nat, i: nat)
    requires
        net.wf(),
        net.prefix_len <= p <= net.addr.bits(),
        i < net.subnet_count(p),
    ensures
        net.subnet(p, i).wf(),
        net.subnet(p, i).addr.is_v4() == net.addr.is_v4(),
        net.subnet(p, i).size() == pow2((net.addr.bits() - p) as nat),
        net.subnet(p, i).addr.val() == net.first() + i * pow2((net.addr.bits() - p) as nat),
        net.subnet(p, i).first() == net.first() + i * pow2((net.addr.bits() - p) as nat),
        net.subnet(p, i).last() <= net.last(),
        net.first() + (i + 1) * pow2((net.addr.bits() - p) as nat) <= net.last() + 1,
        net.first() + i * pow2((net.addr.bits() - p) as nat) < pow2(net.addr.bits()),
        net.size() == net.subnet_count(p) * pow2((net.addr.bits() - p) as nat),
{
    let bits = net.addr.bits();
    let step = pow2((bits - p) as nat);
    let m = net.subnet_count(p);
    let size = net.size();
    lemma_val_bound(net.addr);
    lemma_pow2_pos((bits - p) as nat);
    lemma_pow2_pos((p - net.prefix_len) as nat);
    lemma_pow2_adds((bits - p) as nat, (p - net.prefix_len) as nat);
    assert(size == step * m);
    lemma_block(net.addr.val(), net.host_bits(), bits);
    let q = net.addr.val() / size;
    let first = net.first();
    assert(first == q * size);
    let cur = first + i * step;
    assert(cur == step * (q * m + i)) by (nonlinear_arith)
        requires
            cur == first + i * step,
            first == q * size,
            size == step * m,
    ;
    assert(first + (i + 1) * step <= first + size) by (nonlinear_arith)
        requires
            i < m,
            size == step * m,
            step >= 1,
    ;
    assert(m * step == size) by (nonlinear_arith)
        requires
            size == step * m,
    ;
    assert(first + (i + 1) * step == cur + step) by (nonlinear_arith)
        requires
            cur == first + i * step,
    ;
    assert(cur < pow2(bits));
    let s = net.subnet(p, i);
    assert(s.addr.val() == cur) by {
        lemma_pow2_32();
    }
    assert(s.host_bits() == bits - p);
    lemma_div_multiples_vanish((q * m + i) as int, step as int);
    assert((cur / step) * step == cur) by (nonlinear_arith)
        requires
            cur == step * (q * m + i),
            (step * (q * m + i)) / step == q * m + i,
    ;
    assert(s.first() == cur);
}

/// The subnet that `new-net` proposes and its gateway: the first subnet of
/// `net`, at the prefix length `get_prefix_length` gives for `host_number`
/// and the gateway's family, that holds no reserved address, with its first
/// host as gateway.
pub fn new_net(host_number: u16, conf: &PotSystemConfig, db: &IpDb) -> (r: Option<(IpNetwork, IpAddress)>)
    requires
        conf.wf(),
        db.wf(),
    ensures
        r matches Some((s, g)) ==> {
            &&& exists|k: nat| is_network_size(host_number as nat, k) && s.prefix_len == conf.gateway.bits() - k
            &&& exists|i: nat| {
                &&& i < conf.network.subnet_count(s.prefix_len as nat)
                &&& s == conf.network.subnet(s.prefix_len as nat, i)
                &&& forall|j: nat| j < i ==> !subnet_usable(#[trigger] conf.network.subnet(s.prefix_len as nat, j), db@)
            }
            &&& conf.network.prefix_len <= s.prefix_len <= conf.network.addr.bits()
            &&& s.wf()
            &&& subnet_usable(s, db@)
            &&& forall|a: IpAddress| #[trigger] s.has(a) ==> conf.network.has(a)
            &&& s.size() > 2
            &&& s.is_host(g) && g.val() == s.first() + 1
        },
        r is None ==> host_number == 0 || exists|k: nat| {
            &&& is_network_size(host_number as nat, k)
            &&& ({
                let p = (conf.gateway.bits() - k) as nat;
                ||| p < conf.network.prefix_len
                ||| p > conf.network.addr.bits()
                ||| forall|j: nat| j < conf.network.subnet_count(p) ==> !subnet_usable(#[trigger] conf.network.subnet(p, j), db@)
            })
        },
{
    let net = conf.network;
    let Some(p) = get_prefix_length(host_number, &conf.gateway) else {
        return None;
    };
    let ghost k: nat = choose|k: nat|
        is_network_size(host_number as nat, k) && k <= 17 && p as nat == conf.gateway.bits() - k;
    let bits = net.addr.family_bits();
    if p < net.prefix_len || p > bits {
        return None;
    }
    proof {
        lemma_val_bound(net.addr);
        lemma_val_bound(conf.gateway);
    }
    let (first, last) = net.bounds();
    let h: u8 = bits - p;
    let step = pow2_u128(h);
    proof {
        lemma2_to64();
        lemma_pow2_mono(2, h as nat);
    }
    let mut cur: u128 = first;
    let ghost mut idx: nat = 0;
    proof {
        lemma_pow2_pos((p - net.prefix_len) as nat);
    }
    loop
        invariant
            net == conf.network,
            net.wf(),
            db.wf(),
            net.prefix_len <= p <= bits,
            bits as nat == net.addr.bits(),
            h as nat == bits - p,
            h >= 2,
            step as nat == pow2(h as nat),
            step >= 4,
            first as nat == net.first(),
            last as nat == net.last(),
            idx < net.subnet_count(p as nat),
            cur as nat == first + idx * step,
            is_network_size(host_number as nat, k) && p as nat == conf.gateway.bits() - k,
            forall|j: nat| j < idx ==> !subnet_usable(#[trigger] net.subnet(p as nat, j), db@),
        decreases last - cur,
    {
        proof {
            lemma_subnet(net, p as nat, idx);
            lemma_pow2_pos(net.host_bits());
        }
        let s = IpNetwork { addr: net.addr.at_value(cur), prefix_len: p };
        proof {
            assert(s == net.subnet(p as nat, idx));
        }
        if is_subnet_usable(&s, db) {
            let (lo, _) = s.host_bounds();
            // for the facts that `bounds` states about the range
            let _ = s.bounds();
            proof {
                lemma_val_bound(s.addr);
            }
            let g = s.addr.at_value(lo);
            proof {
                assert forall|a: IpAddress| #[trigger] s.has(a) implies net.has(a) by {}
            }
            return Some((s, g));
        }
        proof {
            assert(first + (idx + 1) * step == cur + step) by (nonlinear_arith)
                requires
                    cur == first + idx * step,
            ;
        }
        if cur + (step - 1) == last {
            proof {
                let m = net.subnet_count(p as nat);
                assert(idx + 1 == m) by (nonlinear_arith)
                    requires
                        first + (idx + 1) * step - 1 == last,
                        net.size() == m * step,
                        last == first + net.size() - 1,
                        step >= 1,
                ;
                assert forall|j: nat| j < m implies !subnet_usable(#[trigger] net.subnet(p as nat, j), db@) by {
                    if j == idx {
                    } else {
                        assert(j < idx);
                    }
                }
            }
            return None;
        }
        proof {
            let m = net.subnet_count(p as nat);
            assert(idx + 1 < m) by (nonlinear_arith)
                requires
                    first + (idx + 1) * step - 1 < last,
                    net.size() == m * step,
                    last == first + net.size() - 1,
                    step >= 1,
            ;
        }
        cur = cur + step;
        proof {
            idx = idx + 1;
        }
    }
}

/// `k` is the first bridge named `name`.
pub open spec fn is_first_named(bs: Seq<BridgeConf>, name: Seq<char>, k: int) -> bool {
    &&& 0 <= k < bs.len()
    &&& bs[k].name@ == name
    &&& forall|j: int| 0 <= j < k ==> (#[trigger] bs[j]).name@ != name
}

/// No bridge is named `name`.
pub open spec fn no_bridge_named(bs: Seq<BridgeConf>, name: Seq<char>) -> bool {
    forall|j: int| 0 <= j < bs.len() ==> (#[trigger] bs[j]).name@ != name
}

/// `r` is the error for an unknown bridge named `name`.
pub open spec fn is_not_found(r: PotError, name: Seq<char>) -> bool {
    r matches PotError::BridgeNotFound(n) && n@ == name
}

/// The first bridge named `name`, or `BridgeNotFound`.
fn lookup_bridge<'a>(bridges: &'a Vec<BridgeConf>, name: &str) -> (r: Result<&'a BridgeConf, PotError>)
    ensures
        no_bridge_named(bridges@, name@) <==> r is Err,
        r matches Err(e) ==> is_not_found(e, name@),
        r matches Ok(b) ==> exists|k: int| is_first_named(bridges@, name@, k) && *b == bridges@[k],
{
    match find_bridge(bridges, name) {
        Some(k) => {
            proof {
                assert(is_first_named(bridges@, name@, k as int));
            }
            Ok(&bridges[k])
        },
        None => Err(PotError::BridgeNotFound(String::from_str(name))),
    }
}

/// What validating `ip` for bridge `b` gives: `OutsideBridgeNetwork` for an
/// address outside its network, then `AlreadyInUse` for one that its database
/// reserves.
pub open spec fn bridge_validate_result(ip: IpAddress, b: BridgeModel, ps: Seq<PotModel>) -> Result<(), PotError> {
    if !b.network.has(ip) {
        Err(PotError::OutsideBridgeNetwork)
    } else if bridge_ipdb_of(b, ps).contains_key(ip) {
        Err(PotError::AlreadyInUse)
    } else {
        Ok(())
    }
}

/// Checks that `ip` may be given to a new jail of the bridge named
/// `bridge_name`.
pub fn validate_with_bridge(bridges: &Vec<BridgeConf>, pots: &Vec<PotConf>, bridge_name: &str, ip: IpAddress) -> (r: Result<(), PotError>)
    requires
        forall|k: int| 0 <= k < bridges.len() ==> (#[trigger] bridges@[k]).wf(),
    ensures
        no_bridge_named(bridges@, bridge_name@) ==> (r matches Err(e) && is_not_found(e, bridge_name@)),
        forall|k: int| #[trigger] is_first_named(bridges@, bridge_name@, k) ==> r == bridge_validate_result(ip, bridges@[k]@, pot_views(pots@)),
{
    let bridge = match lookup_bridge(bridges, bridge_name) {
        Ok(b) => b,
        Err(e) => return Err(e),
    };
    proof {
        lemma_first_named_unique(bridges@, bridge_name@);
    }
    let db = init_bridge_ipdb(bridge, pots);
    if !bridge.network.contains(&ip) {
        return Err(PotError::OutsideBridgeNetwork);
    }
    if db.contains_key(&ip) {
        return Err(PotError::AlreadyInUse);
    }
    Ok(())
}

/// Only one index is the first with a given name.
pub proof fn lemma_first_named_unique(bs: Seq<BridgeConf>, name: Seq<char>)
    ensures
        forall|k1: int, k2: int| is_first_named(bs, name, k1) && is_first_named(bs, name, k2) ==> k1 == k2,
{
    assert forall|k1: int, k2: int| is_first_named(bs, name, k1) && is_first_named(bs, name, k2) implies k1 == k2 by {
        if k1 < k2 {
            assert(bs[k1].name@ != name);
        } else if k2 < k1 {
            assert(bs[k2].name@ != name);
        }
    }
}

/// The next free address of the bridge named `bridge_name`, over that
/// bridge's own database.
pub fn get_next_from_bridge(bridges: &Vec<BridgeConf>, pots: &Vec<PotConf>, bridge_name: &str) -> (r: Result<Option<IpAddress>, PotError>)
    requires
        forall|k: int| 0 <= k < bridges.len() ==> (#[trigger] bridges@[k]).wf(),
    ensures
        no_bridge_named(bridges@, bridge_name@) <==> r is Err,
        r matches Err(e) ==> is_not_found(e, bridge_name@),
        forall|k: int| #[trigger] is_first_named(bridges@, bridge_name@, k) ==> (r matches Ok(a) && is_next_free(bridges@[k].network, bridge_ipdb_of(bridges@[k]@, pot_views(pots@)), a)),
{
    let bridge = match lookup_bridge(bridges, bridge_name) {
        Ok(b) => b,
        Err(e) => return Err(e),
    };
    proof {
        lemma_first_named_unique(bridges@, bridge_name@);
    }
    let db = init_bridge_ipdb(bridge, pots);
    Ok(next_free(&bridge.network, &db))
}

/// The database of the bridge named `bridge_name`, if there is one.
pub fn show_bridge(bridges: &Vec<BridgeConf>, pots: &Vec<PotConf>, bridge_name: &str) -> (r: Option<IpDb>)
    requires
        forall|k: int| 0 <= k < bridges.len() ==> (#[trigger] bridges@[k]).wf(),
    ensures
        no_bridge_named(bridges@, bridge_name@) <==> r is None,
        r matches Some(db) ==> db.wf(),
        forall|k: int| #[trigger] is_first_named(bridges@, bridge_name@, k) ==> (r matches Some(db) && db@ == bridge_ipdb_of(bridges@[k]@, pot_views(pots@))),
{
    let bridge = match lookup_bridge(bridges, bridge_name) {
        Ok(b) => b,
        Err(_) => return None,
    };
    proof {
        lemma_first_named_unique(bridges@, bridge_name@);
    }
    Some(init_bridge_ipdb(bridge, pots))
}

/// The hosts file entries: every jail of type `t` with an address (inside
/// `net` when one is given), under its name, later jails winning.
pub open spec fn hosts_of(ps: Seq<PotModel>, t: NetType, net: Option<IpNetwork>) -> Reservations
    decreases ps.len(),
{
    if ps.len() == 0 {
        Map::empty()
    } else {
        let prev = hosts_of(ps.drop_last(), t, net);
        let p = ps.last();
        if p.net_type == t && p.ip is Some && (match net {
            Some(n) => n.has(p.ip->0),
            None => true,
        }) {
            prev.insert(p.ip->0, Some(p.name))
        } else {
            prev
        }
    }
}

/// Collects the hosts file entries (see `hosts_of`).
fn collect_hosts(pots: &Vec<PotConf>, t: NetType, net: Option<IpNetwork>) -> (r: IpDb)
    requires
        net matches Some(n) ==> n.wf(),
    ensures
        r.wf(),
        r@ == hosts_of(pot_views(pots@), t, net),
{
    let mut db = IpDb::new();
    let mut i: usize = 0;
    while i < pots.len()
        invariant
            i <= pots.len(),
            db.wf(),
            net matches Some(n) ==> n.wf(),
            db@ == hosts_of(pot_views(pots@).take(i as int), t, net),
        decreases pots.len() - i,
    {
        proof {
            assert(pot_views(pots@).take(i + 1).drop_last() =~= pot_views(pots@).take(i as int));
        }
        let p = &pots[i];
        if p.network_type == t {
            if let Some(a) = p.ip_addr {
                let inside = match &net {
                    Some(n) => n.contains(&a),
                    None => true,
                };
                if inside {
                    db.insert(a, Some(p.name.clone()));
                }
            }
        }
        i = i + 1;
    }
    proof {
        assert(pot_views(pots@).take(pots.len() as int) =~= pot_views(pots@));
    }
    db
}

/// The hosts file entries of the public bridge: every public-bridge jail.
pub fn get_hosts_for_public_bridge(pots: &Vec<PotConf>) -> (r: IpDb)
    ensures
        r.wf(),
        r@ == hosts_of(pot_views(pots@), NetType::PublicBridge, None),
{
    collect_hosts(pots, NetType::PublicBridge, None)
}

/// The hosts file entries of the private bridge named `bridge_name`: every
/// private-bridge jail inside its network; nothing when no bridge has that
/// name.
pub fn get_hosts_from_bridge(bridges: &Vec<BridgeConf>, pots: &Vec<PotConf>, bridge_name: &str) -> (r: Option<IpDb>)
    requires
        forall|k: int| 0 <= k < bridges.len() ==> (#[trigger] bridges@[k]).wf(),
    ensures
        no_bridge_named(bridges@, bridge_name@) <==> r is None,
        r matches Some(db) ==> db.wf(),
        forall|k: int| #[trigger] is_first_named(bridges@, bridge_name@, k) ==> (r matches Some(db) && db@ == hosts_of(pot_views(pots@), NetType::PrivateBridge, Some(bridges@[k].network))),
{
    let bridge = match lookup_bridge(bridges, bridge_name) {
        Ok(b) => b,
        Err(_) => return None,
    };
    proof {
        lemma_first_named_unique(bridges@, bridge_name@);
    }
    Some(collect_hosts(pots, NetType::PrivateBridge, Some(bridge.network)))
}

/// The findings of `config-check`.
#[derive(Debug, Clone, Copy, PartialEq, Eq, Structural)]
pub struct ConfigIssues {
    /// The gateway lies outside the network.
    pub gateway_outside: bool,
    /// The DNS jail's address lies outside the network.
    pub dns_outside: bool,
    /// The configured netmask differs from the network's.
    pub netmask_mismatch: bool,
}

impl ConfigIssues {
    /// Nothing was found.
    pub fn is_clean(&self) -> (r: bool)
        ensures
            r == (!self.gateway_outside && !self.dns_outside && !self.netmask_mismatch),
    {
        !self.gateway_outside && !self.dns_outside && !self.netmask_mismatch
    }
}

/// Checks the invariants of the system configuration.
pub fn config_check(conf: &PotSystemConfig) -> (r: ConfigIssues)
    requires
        conf.wf(),
    ensures
        r.gateway_outside == !conf.network.has(conf.gateway),
        r.dns_outside == (conf.dns matches Some(d) && !conf.network.has(d.ip)),
        r.netmask_mismatch == !(conf.netmask.is_v4() == conf.network.addr.is_v4()
            && conf.netmask.val() == conf.network.mask_val()),
{
    let gateway_outside = !conf.network.contains(&conf.gateway);
    let dns_outside = match &conf.dns {
        Some(d) => !conf.network.contains(&d.ip),
        None => false,
    };
    let mask = conf.network.netmask();
    let netmask_mismatch = !(mask == conf.netmask);
    proof {
        if conf.netmask.is_v4() == conf.network.addr.is_v4() && conf.netmask.val() == conf.network.mask_val() {
            lemma_same_family_at_own(mask, conf.netmask);
            lemma_same_family_at_own(mask, mask);
        }
    }
    ConfigIssues { gateway_outside, dns_outside, netmask_mismatch }
}

/// The network and broadcast addresses and the usable hosts of a network lie
/// in it.
pub proof fn lemma_network_parts(n: IpNetwork)
    requires
        n.wf(),
    ensures
        n.has(n.network_addr()),
        n.has(n.broadcast_addr()),
        forall|a: IpAddress| #[trigger] n.is_host(a) ==> n.has(a),
{
    lemma_val_bound(n.addr);
    lemma_block(n.addr.val(), n.host_bits(), n.addr.bits());
    lemma_pow2_32();
    lemma_pow2_pos(n.host_bits());
}

/// Every bridge has a well-formed network that holds its gateway.
pub open spec fn bridges_wf(bs: Seq<BridgeModel>) -> bool {
    forall|k: int| 0 <= k < bs.len() ==> (#[trigger] bs[k]).network.wf() && bs[k].network.has(bs[k].gateway)
}

/// The bridge step reserves only addresses of the bridges' networks.
pub proof fn lemma_bridges_contained(m: Reservations, bs: Seq<BridgeModel>)
    requires
        bridges_wf(bs),
    ensures
        forall|a: IpAddress| #[trigger] reserve_bridges(m, bs).contains_key(a) && !m.contains_key(a)
            ==> in_some_bridge(a, bs),
    decreases bs.len(),
{
    if bs.len() > 0 {
        let init = bs.drop_last();
        assert(bridges_wf(init)) by {
            assert forall|k: int| 0 <= k < init.len() implies (#[trigger] init[k]).network.wf()
                && init[k].network.has(init[k].gateway) by {
                assert(init[k] == bs[k]);
            }
        }
        lemma_bridges_contained(m, init);
        let b = bs.last();
        assert(b == bs[bs.len() - 1]);
        lemma_network_parts(b.network);
        let prev = reserve_bridges(m, init);
        assert forall|a: IpAddress| #[trigger] reserve_bridges(m, bs).contains_key(a) && !m.contains_key(a)
            implies in_some_bridge(a, bs) by {
            if prev.contains_key(a) {
                let k = choose|k: int| 0 <= k < init.len() && (#[trigger] init[k]).network.has(a);
                assert(bs[k] == init[k]);
            } else {
                assert(b.network.has(a));
                assert(bs[bs.len() - 1].network.has(a));
            }
        }
    }
}

/// Every reserved address of the pot network's database is its gateway, its
/// DNS jail's address, or lies in the pot network or in a bridge's network.
pub proof fn lemma_ipdb_contained(conf: PotSystemConfig, ps: Seq<PotModel>, bs: Seq<BridgeModel>)
    requires
        conf.wf(),
        bridges_wf(bs),
    ensures
        forall|a: IpAddress| #[trigger] ipdb_of(conf, ps, bs).contains_key(a) ==> {
            ||| a == conf.gateway
            ||| (conf.dns matches Some(d) && a == d.ip)
            ||| conf.network.has(a)
            ||| in_some_bridge(a, bs)
        },
{
    let base = base_reservations(conf);
    let jails = reserve_pots(base, ps, conf.network, bs);
    lemma_network_parts(conf.network);
    lemma_jails_contained(base, ps, conf.network, bs);
    lemma_bridges_contained(jails, bs);
}

/// The jail step reserves no address outside the pot network and the
/// bridges' networks: every address it adds lies in one of them.
pub proof fn lemma_jails_contained(m: Reservations, ps: Seq<PotModel>, net: IpNetwork, bs: Seq<BridgeModel>)
    ensures
        forall|a: IpAddress| #[trigger] reserve_pots(m, ps, net, bs).contains_key(a) && !m.contains_key(a)
            ==> net.has(a) || in_some_bridge(a, bs),
    decreases ps.len(),
{
    if ps.len() > 0 {
        lemma_jails_contained(m, ps.drop_last(), net, bs);
        let prev = reserve_pots(m, ps.drop_last(), net, bs);
        assert forall|a: IpAddress| #[trigger] reserve_pots(m, ps, net, bs).contains_key(a) && !m.contains_key(a)
            implies net.has(a) || in_some_bridge(a, bs) by {
            if !prev.contains_key(a) {
                assert(a == ps.last().ip->0);
            }
        }
    }
}

/// Building the address database twice from the same configuration gives the
/// same reservations.
pub proof fn lemma_ipdb_deterministic(
    conf: PotSystemConfig,
    ps: Seq<PotModel>,
    bs: Seq<BridgeModel>,
    m1: Reservations,
    m2: Reservations,
)
    requires
        m1 == ipdb_of(conf, ps, bs),
        m2 == ipdb_of(conf, ps, bs),
    ensures
        m1 == m2,
{
}

} // verus!
