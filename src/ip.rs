use vstd::arithmetic::div_mod::{lemma_fundamental_div_mod, lemma_remainder};
use vstd::arithmetic::power2::{lemma2_to64, lemma_pow2_adds, lemma_pow2_pos, lemma_pow2_unfold, pow2};
use crate::util::ConfValue;
use vstd::prelude::*;

verus! {

/// An IPv4 or IPv6 address, held as its integer value.
#[derive(Clone, Copy, Debug, PartialEq, Eq, Structural, Hash)]
pub enum IpAddress {
    V4(u32),
    V6(u128),
}

impl IpAddress {
    /// Width of the address family in bits.
    pub open spec fn bits(self) -> nat {
        match self {
            IpAddress::V4(_) => 32,
            IpAddress::V6(_) => 128,
        }
    }

    /// The address as a number.
    pub open spec fn val(self) -> nat {
        match self {
            IpAddress::V4(v) => v as nat,
            IpAddress::V6(v) => v as nat,
        }
    }

    pub open spec fn is_v4(self) -> bool {
        self is V4
    }

    /// Position in the total order used by the address database: numeric order
    /// within a family, every IPv4 address before every IPv6 address.
    pub open spec fn rank(self) -> int {
        match self {
            IpAddress::V4(v) => v as int,
            IpAddress::V6(v) => 0x1_0000_0000 + v as int,
        }
    }

    /// The address of the same family as `self` whose value is `v`.
    pub open spec fn same_family_at(self, v: nat) -> IpAddress {
        match self {
            IpAddress::V4(_) => IpAddress::V4(v as u32),
            IpAddress::V6(_) => IpAddress::V6(v as u128),
        }
    }

    pub fn is_ipv4(&self) -> (r: bool)
        ensures
            r == self.is_v4(),
    {
        match self {
            IpAddress::V4(_) => true,
            IpAddress::V6(_) => false,
        }
    }

    pub fn is_ipv6(&self) -> (r: bool)
        ensures
            r == !self.is_v4(),
    {
        !self.is_ipv4()
    }

    pub fn family_bits(&self) -> (r: u8)
        ensures
            r as nat == self.bits(),
    {
        match self {
            IpAddress::V4(_) => 32,
            IpAddress::V6(_) => 128,
        }
    }

    pub fn value(&self) -> (r: u128)
        ensures
            r as nat == self.val(),
    {
        match self {
            IpAddress::V4(v) => *v as u128,
            IpAddress::V6(v) => *v,
        }
    }

    /// The address of the same family as `self` with value `v`.
    pub fn at_value(&self, v: u128) -> (r: IpAddress)
        requires
            (v as nat) < pow2(self.bits()),
        ensures
            r == self.same_family_at(v as nat),
            r.val() == v as nat,
            r.bits() == self.bits(),
    {
        proof {
            lemma_pow2_32();
        }
        match self {
            IpAddress::V4(_) => IpAddress::V4(v as u32),
            IpAddress::V6(_) => IpAddress::V6(v),
        }
    }

    /// Whether `self` comes strictly before `other` in the database order.
    pub fn precedes(&self, other: &IpAddress) -> (r: bool)
        ensures
            r == (self.rank() < other.rank()),
    {
        match (self, other) {
            (IpAddress::V4(a), IpAddress::V4(b)) => *a < *b,
            (IpAddress::V4(_), IpAddress::V6(_)) => true,
            (IpAddress::V6(_), IpAddress::V4(_)) => false,
            (IpAddress::V6(a), IpAddress::V6(b)) => *a < *b,
        }
    }

    pub fn same_family(&self, other: &IpAddress) -> (r: bool)
        ensures
            r == (self.is_v4() == other.is_v4()),
    {
        self.is_ipv4() == other.is_ipv4()
    }
}

/// Two addresses with the same rank are the same address.
pub proof fn lemma_rank_injective(a: IpAddress, b: IpAddress)
    ensures
        a.rank() == b.rank() ==> a == b,
{
}

pub proof fn lemma_pow2_32()
    ensures
        pow2(32) == 0x1_0000_0000,
        pow2(128) == 0x1_0000_0000_0000_0000_0000_0000_0000_0000,
{
    lemma2_to64();
    lemma_pow2_adds(64, 64);
}

/// An address is the address of its own family at its own value.
pub proof fn lemma_same_family_at_own(base: IpAddress, b: IpAddress)
    requires
        base.is_v4() == b.is_v4(),
    ensures
        base.same_family_at(b.val()) == b,
{
}

/// Every address value lies below 2^bits of its family.
pub proof fn lemma_val_bound(a: IpAddress)
    ensures
        a.val() < pow2(a.bits()),
        a.bits() == 32 || a.bits() == 128,
{
    lemma_pow2_32();
}

/// An IP network: an address and a prefix length, as ipnet keeps them (the
/// address may have host bits set; `network()` clears them).
#[derive(Clone, Copy, Debug, PartialEq, Eq, Structural, Hash)]
pub struct IpNetwork {
    pub addr: IpAddress,
    pub prefix_len: u8,
}

impl IpNetwork {
    /// The prefix fits the address family.
    pub open spec fn wf(self) -> bool {
        self.prefix_len as nat <= self.addr.bits()
    }

    pub open spec fn host_bits(self) -> nat {
        (self.addr.bits() - self.prefix_len as nat) as nat
    }

    /// Number of addresses in the network.
    pub open spec fn size(self) -> nat {
        pow2(self.host_bits())
    }

    /// Value of the first address (host bits cleared).
    pub open spec fn first(self) -> nat {
        (self.addr.val() / self.size()) * self.size()
    }

    /// Value of the last address (host bits set).
    pub open spec fn last(self) -> nat {
        (self.first() + self.size() - 1) as nat
    }

    /// `a` is of the network's family and lies between its first and last address.
    pub open spec fn has(self, a: IpAddress) -> bool {
        &&& a.is_v4() == self.addr.is_v4()
        &&& self.first() <= a.val() <= self.last()
    }

    /// First usable host: the network address itself is skipped when the
    /// network has more than two addresses.
    pub open spec fn host_lo(self) -> nat {
        if self.size() > 2 {
            self.first() + 1
        } else {
            self.first()
        }
    }

    /// Last usable host: the broadcast address is skipped when the network has
    /// more than two addresses.
    pub open spec fn host_hi(self) -> nat {
        if self.size() > 2 {
            (self.last() - 1) as nat
        } else {
            self.last()
        }
    }

    /// `a` is one of the network's usable hosts.
    pub open spec fn is_host(self, a: IpAddress) -> bool {
        &&& a.is_v4() == self.addr.is_v4()
        &&& self.host_lo() <= a.val() <= self.host_hi()
    }

    /// The `i`-th subnet of prefix length `p`, in address order.
    pub open spec fn subnet(self, p: nat, i: nat) -> IpNetwork {
        IpNetwork {
            addr: self.addr.same_family_at(self.first() + i * pow2((self.addr.bits() - p) as nat)),
            prefix_len: p as u8,
        }
    }

    /// Number of subnets of prefix length `p`.
    pub open spec fn subnet_count(self, p: nat) -> nat {
        pow2((p - self.prefix_len as nat) as nat)
    }

    /// The network address.
    pub open spec fn network_addr(self) -> IpAddress {
        self.addr.same_family_at(self.first())
    }

    /// The broadcast address.
    pub open spec fn broadcast_addr(self) -> IpAddress {
        self.addr.same_family_at(self.last())
    }

    /// The netmask's value: prefix bits set, host bits clear.
    pub open spec fn mask_val(self) -> nat {
        (pow2(self.addr.bits()) - self.size()) as nat
    }

    /// Whether the prefix fits the address family.
    pub fn is_wf(&self) -> (r: bool)
        ensures
            r == self.wf(),
    {
        self.prefix_len <= self.addr.family_bits()
    }

    /// First and last address values of the network.
    pub fn bounds(&self) -> (r: (u128, u128))
        requires
            self.wf(),
        ensures
            r.0 as nat == self.first(),
            r.1 as nat == self.last(),
            self.first() <= self.addr.val() <= self.last(),
            self.last() < pow2(self.addr.bits()),
            self.size() >= 1,
            self.first() % self.size() == 0,
    {
        let bits = self.addr.family_bits();
        let v = self.addr.value();
        let h: u8 = bits - self.prefix_len;
        proof {
            lemma_val_bound(self.addr);
            lemma_block(v as nat, h as nat, bits as nat);
        }
        if h == 128 {
            proof {
                lemma_pow2_32();
                vstd::arithmetic::div_mod::lemma_basic_div(v as int, pow2(128) as int);
                assert(self.first() == 0);
            }
            (0, 0xffff_ffff_ffff_ffff_ffff_ffff_ffff_ffff)
        } else {
            let size = pow2_u128(h);
            proof {
                lemma_pow2_32();
                lemma_pow2_mono(bits as nat, 128);
            }
            let first = v - v % size;
            let last = first + (size - 1);
            (first, last)
        }
    }

    /// The network address (first address).
    pub fn network(&self) -> (r: IpAddress)
        requires
            self.wf(),
        ensures
            r == self.network_addr(),
            r.val() == self.first(),
            r.is_v4() == self.addr.is_v4(),
    {
        let (first, _) = self.bounds();
        self.addr.at_value(first)
    }

    /// The broadcast address (last address).
    pub fn broadcast(&self) -> (r: IpAddress)
        requires
            self.wf(),
        ensures
            r == self.broadcast_addr(),
            r.val() == self.last(),
            r.is_v4() == self.addr.is_v4(),
    {
        let (_, last) = self.bounds();
        self.addr.at_value(last)
    }

    /// Whether `a` belongs to the network.
    pub fn contains(&self, a: &IpAddress) -> (r: bool)
        requires
            self.wf(),
        ensures
            r == self.has(*a),
    {
        if !self.addr.same_family(a) {
            return false;
        }
        let (first, last) = self.bounds();
        let v = a.value();
        first <= v && v <= last
    }

    /// First and last usable host values.
    pub fn host_bounds(&self) -> (r: (u128, u128))
        requires
            self.wf(),
        ensures
            r.0 as nat == self.host_lo(),
            r.1 as nat == self.host_hi(),
            self.first() <= self.host_lo() <= self.host_hi() <= self.last(),
    {
        let (first, last) = self.bounds();
        if last - first > 1 {
            proof {
                lemma_pow2_ge4(self.host_bits());
            }
            (first + 1, last - 1)
        } else {
            (first, last)
        }
    }

    /// The netmask of the network.
    pub fn netmask(&self) -> (r: IpAddress)
        requires
            self.wf(),
        ensures
            r.val() == self.mask_val(),
            r.is_v4() == self.addr.is_v4(),
    {
        let bits = self.addr.family_bits();
        let h: u8 = bits - self.prefix_len;
        proof {
            lemma_pow2_32();
            lemma_pow2_mono(h as nat, bits as nat);
            lemma_pow2_pos(h as nat);
        }
        if h == 128 {
            self.addr.at_value(0)
        } else {
            let size = pow2_u128(h);
            if bits == 32 {
                self.addr.at_value(0x1_0000_0000 - size)
            } else {
                self.addr.at_value(0xffff_ffff_ffff_ffff_ffff_ffff_ffff_ffff - (size - 1))
            }
        }
    }
}

impl DeepView for IpAddress {
    type V = IpAddress;

    open spec fn deep_view(&self) -> IpAddress {
        *self
    }
}

impl DeepView for IpNetwork {
    type V = IpNetwork;

    open spec fn deep_view(&self) -> IpNetwork {
        *self
    }
}

/// The IPv4 address that ipnet reads from a text, if the text is one.
pub uninterp spec fn v4_text(s: Seq<char>) -> Option<u32>;

/// The IPv6 address that ipnet reads from a text, if the text is one.
pub uninterp spec fn v6_text(s: Seq<char>) -> Option<u128>;

/// The address written in `s`: IPv4 text first, then IPv6 text.
pub open spec fn ip_text(s: Seq<char>) -> Option<IpAddress> {
    match v4_text(s) {
        Some(v) => Some(IpAddress::V4(v)),
        None => match v6_text(s) {
            Some(v) => Some(IpAddress::V6(v)),
            None => None,
        },
    }
}

/// The network that ipnet reads from a text, if the text is one.
pub uninterp spec fn net_text(s: Seq<char>) -> Option<IpNetwork>;

/// Relies on ipnet's `Ipv4Net::from_str`: an IPv4 address is read as the
/// host network `<address>/32`, whose `addr()` is the address.
#[verifier::external_body]
fn parse_v4(s: &str) -> (r: Option<u32>)
    ensures
        r == v4_text(s@),
{
    format!("{}/32", s).parse::<ipnet::Ipv4Net>().ok().map(|n| u32::from(n.addr()))
}

/// Relies on ipnet's `Ipv6Net::from_str`: an IPv6 address is read as the
/// host network `<address>/128`, whose `addr()` is the address.
#[verifier::external_body]
fn parse_v6(s: &str) -> (r: Option<u128>)
    ensures
        r == v6_text(s@),
{
    format!("{}/128", s).parse::<ipnet::Ipv6Net>().ok().map(|n| u128::from(n.addr()))
}

/// Reads an IPv4 or IPv6 address from its text form.
pub fn parse_ip_addr(s: &str) -> (r: Option<IpAddress>)
    ensures
        r == ip_text(s@),
{
    match parse_v4(s) {
        Some(v) => Some(IpAddress::V4(v)),
        None => match parse_v6(s) {
            Some(v) => Some(IpAddress::V6(v)),
            None => None,
        },
    }
}

/// Relies on ipnet's `IpNet::from_str`, which reads `address/prefix` and
/// refuses a prefix longer than the family's width (its parser reads at most
/// 32 for IPv4 and 128 for IPv6).
#[verifier::external_body]
fn parse_ip_net(s: &str) -> (r: Option<IpNetwork>)
    ensures
        r == net_text(s@),
        r matches Some(n) ==> n.wf(),
{
    match s.parse::<ipnet::IpNet>() {
        Ok(ipnet::IpNet::V4(n)) => Some(
            IpNetwork { addr: IpAddress::V4(u32::from(n.addr())), prefix_len: n.prefix_len() },
        ),
        Ok(ipnet::IpNet::V6(n)) => Some(
            IpNetwork { addr: IpAddress::V6(u128::from(n.addr())), prefix_len: n.prefix_len() },
        ),
        Err(_) => None,
    }
}

impl ConfValue for IpAddress {
    open spec fn from_token(t: Seq<char>) -> Option<IpAddress> {
        ip_text(t)
    }

    fn parse_token(t: &str) -> (r: Option<IpAddress>) {
        parse_ip_addr(t)
    }
}

impl ConfValue for IpNetwork {
    open spec fn from_token(t: Seq<char>) -> Option<IpNetwork> {
        net_text(t)
    }

    fn parse_token(t: &str) -> (r: Option<IpNetwork>) {
        parse_ip_net(t)
    }
}

/// Reads a network in CIDR notation; the result's prefix fits its family.
pub fn parse_ip_network(s: &str) -> (r: Option<IpNetwork>)
    ensures
        r == net_text(s@),
        r matches Some(n) ==> n.wf(),
{
    parse_ip_net(s)
}

/// 2^e for e < 128.
pub fn pow2_u128(e: u8) -> (r: u128)
    requires
        e < 128,
    ensures
        r as nat == pow2(e as nat),
{
    let mut r: u128 = 1;
    let mut i: u8 = 0;
    proof {
        lemma2_to64();
    }
    while i < e
        invariant
            i <= e < 128,
            r as nat == pow2(i as nat),
        decreases e - i,
    {
        proof {
            lemma_pow2_unfold((i + 1) as nat);
            lemma_pow2_mono((i + 1) as nat, 127);
            lemma_pow2_32();
            lemma_pow2_unfold(128);
        }
        r = r * 2;
        i = i + 1;
    }
    r
}

/// pow2 is monotone.
pub proof fn lemma_pow2_mono(a: nat, b: nat)
    requires
        a <= b,
    ensures
        pow2(a) <= pow2(b),
    decreases b - a,
{
    if a < b {
        lemma_pow2_mono(a, (b - 1) as nat);
        lemma_pow2_unfold(b);
        lemma_pow2_pos((b - 1) as nat);
    }
}

/// A power of two above 2 is at least 4.
proof fn lemma_pow2_ge4(e: nat)
    ensures
        pow2(e) > 2 <==> e >= 2,
        pow2(e) >= 1,
{
    lemma_pow2_pos(e);
    if e >= 2 {
        lemma_pow2_mono(2, e);
        lemma2_to64();
    } else if e == 1 {
        lemma2_to64();
    } else {
        lemma2_to64();
    }
}

/// Rounding `v` down to a multiple of 2^h keeps it below 2^b, with room for a
/// whole block.
pub proof fn lemma_block(v: nat, h: nat, b: nat)
    requires
        h <= b,
        v < pow2(b),
    ensures
        pow2(h) >= 1,
        (v / pow2(h)) * pow2(h) <= v,
        v - (v / pow2(h)) * pow2(h) == v % pow2(h),
        (v / pow2(h)) * pow2(h) + pow2(h) <= pow2(b),
        ((v / pow2(h)) * pow2(h)) % pow2(h) == 0,
{
    let bs = pow2(h);
    let m = pow2((b - h) as nat);
    lemma_pow2_pos(h);
    lemma_pow2_pos((b - h) as nat);
    lemma_pow2_adds(h, (b - h) as nat);
    assert(pow2(b) == bs * m);
    lemma_fundamental_div_mod(v as int, bs as int);
    lemma_remainder(v as int, bs as int);
    let q = v / bs;
    assert(q * bs <= v) by (nonlinear_arith)
        requires
            v == bs * q + v % bs,
            v % bs >= 0,
    ;
    assert(q < m) by (nonlinear_arith)
        requires
            q * bs <= v,
            v < bs * m,
            bs >= 1,
    ;
    assert(q * bs + bs <= bs * m) by (nonlinear_arith)
        requires
            q < m,
            bs >= 1,
    ;
    vstd::arithmetic::div_mod::lemma_mod_multiples_basic(q as int, bs as int);
}

} // verus!
