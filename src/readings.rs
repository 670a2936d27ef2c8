use crate::bridge::parse_bridge_file;
use crate::ip::{IpAddress, IpNetwork, ip_text, net_text};
use crate::pot::{NetType, PotModel, parse_pot_file};
use crate::roundtrip::{is_key, is_token, lemma_read_key_line, lemma_split_append};
use crate::system::conf_lines;
use crate::text::{lemma_split_no_sep, split_on, trim};
use vstd::prelude::*;

verus! {

/// Adding a newline and a line without newline adds that line.
proof fn lemma_join_more(x: Seq<char>, ls: Seq<Seq<char>>, c: Seq<char>)
    requires
        split_on(x, '\n') == ls,
        !c.contains('\n'),
    ensures
        split_on(x + seq!['\n'] + c, '\n') == ls.push(c),
{
    let y = x + seq!['\n'];
    assert(y.drop_last() =~= x);
    assert(y.last() == '\n');
    assert(split_on(y, '\n') == ls.push(Seq::<char>::empty()));
    lemma_split_append(y, c, '\n');
    assert(Seq::<char>::empty() + c =~= c);
    assert(ls.push(Seq::<char>::empty()).update(ls.len() as int, Seq::<char>::empty() + c) =~= ls.push(c));
}

/// Two lines joined by a newline split back into them.
proof fn lemma_join2(a: Seq<char>, b: Seq<char>)
    requires
        !a.contains('\n'),
        !b.contains('\n'),
    ensures
        split_on(a + seq!['\n'] + b, '\n') == seq![a, b],
{
    lemma_split_no_sep(a, '\n');
    lemma_join_more(a, seq![a], b);
    assert(seq![a].push(b) =~= seq![a, b]);
}

/// An older jail file with `ip4=<address>` and `vnet=true`, and no
/// `network_type`, describes a public-bridge jail with that address.
pub proof fn lemma_legacy_public_bridge(name: Seq<char>, t: Seq<char>, a: IpAddress)
    requires
        is_token(t),
        t != "inherit"@,
        ip_text(t) == Some(a),
    ensures
        parse_pot_file("ip4="@ + t + seq!['\n'] + "vnet=true"@).normalize(name) == Some(
            PotModel { name, ip: Some(a), net_type: NetType::PublicBridge, aliases: None },
        ),
{
    reveal_strlit("ip4=");
    reveal_strlit("vnet=true");
    reveal_strlit("vnet=");
    reveal_strlit("true");
    reveal_strlit("ip=");
    reveal_strlit("network_type=");
    reveal_strlit("pot.aliases=");
    reveal_strlit("inherit");
    let k1 = "ip4="@;
    let k2 = "vnet="@;
    let v2 = "true"@;
    assert(is_key(k1));
    assert(is_key(k2));
    assert(is_key("ip="@));
    assert(is_key("network_type="@));
    assert(is_key("pot.aliases="@));
    assert(is_token(v2));
    assert("vnet=true"@ =~= k2 + v2);
    lemma_read_key_line(k1, t);
    lemma_read_key_line(k2, v2);
    let l1 = k1 + t;
    let l2 = k2 + v2;
    lemma_join2(l1, l2);
    let text = "ip4="@ + t + seq!['\n'] + "vnet=true"@;
    assert(text =~= l1 + seq!['\n'] + l2);
    assert(conf_lines(text) =~= seq![l1, l2]);
    assert(seq![l1, l2].drop_last() =~= seq![l1]);
    assert(seq![l1].drop_last() =~= Seq::<Seq<char>>::empty());
    assert("ip="@ != k1);
    assert("network_type="@ != k1 && "pot.aliases="@ != k1 && k2 != k1);
    assert("ip="@ != k2 && "network_type="@ != k2 && "pot.aliases="@ != k2);
    let m0 = crate::pot::VerbatimModel::empty();
    assert(crate::pot::apply_pot_lines(Seq::<Seq<char>>::empty()) == m0);
    let m1 = m0.apply_line(l1);
    assert(m1.ip4 == Some(t) && m1.ip is None && m1.vnet is None && m1.network_type is None
        && m1.aliases is None);
    assert(crate::pot::apply_pot_lines(seq![l1]) == m1);
    let m2 = m1.apply_line(l2);
    assert(m2.ip4 == Some(t) && m2.vnet == Some(v2) && m2.network_type is None && m2.aliases is None);
    assert(crate::pot::apply_pot_lines(seq![l1, l2]) == m2);
    assert(parse_pot_file(text) == m2);
}

/// A bridge file whose gateway lies outside its network describes no bridge,
/// whatever its name.
pub proof fn lemma_bridge_gateway_outside(
    x: Seq<char>,
    n: Seq<char>,
    g: Seq<char>,
    net: IpNetwork,
    gw: IpAddress,
)
    requires
        is_token(x),
        is_token(n),
        is_token(g),
        net_text(n) == Some(net),
        ip_text(g) == Some(gw),
        !net.has(gw),
    ensures
        parse_bridge_file(
            "net="@ + n + seq!['\n'] + "gateway="@ + g + seq!['\n'] + "name="@ + x,
        ).bridge() is None,
{
    reveal_strlit("net=");
    reveal_strlit("gateway=");
    reveal_strlit("name=");
    let k1 = "net="@;
    let k2 = "gateway="@;
    let k3 = "name="@;
    assert(is_key(k1) && is_key(k2) && is_key(k3));
    assert(k1 != k2 && k1 != k3 && k2 != k3);
    lemma_read_key_line(k1, n);
    lemma_read_key_line(k2, g);
    lemma_read_key_line(k3, x);
    let l1 = k1 + n;
    let l2 = k2 + g;
    let l3 = k3 + x;
    lemma_join2(l1, l2);
    lemma_join_more(l1 + seq!['\n'] + l2, seq![l1, l2], l3);
    let text = "net="@ + n + seq!['\n'] + "gateway="@ + g + seq!['\n'] + "name="@ + x;
    assert(text =~= l1 + seq!['\n'] + l2 + seq!['\n'] + l3);
    assert(seq![l1, l2].push(l3) =~= seq![l1, l2, l3]);
    assert(conf_lines(text) =~= seq![l1, l2, l3]);
    assert(seq![l1, l2, l3].drop_last() =~= seq![l1, l2]);
    assert(seq![l1, l2].drop_last() =~= seq![l1]);
    assert(seq![l1].drop_last() =~= Seq::<Seq<char>>::empty());
    let m0 = crate::bridge::BridgeFileModel::empty();
    assert(crate::bridge::apply_bridge_lines(Seq::<Seq<char>>::empty()) == m0);
    let m1 = m0.apply_line(l1);
    assert(m1.network == net_text(n));
    assert(crate::bridge::apply_bridge_lines(seq![l1]) == m1);
    let m2 = m1.apply_line(l2);
    assert(m2.network == Some(net) && m2.gateway == Some(gw));
    assert(crate::bridge::apply_bridge_lines(seq![l1, l2]) == m2);
    let m3 = m2.apply_line(l3);
    assert(m3.network == Some(net) && m3.gateway == Some(gw));
    assert(crate::bridge::apply_bridge_lines(seq![l1, l2, l3]) == m3);
    assert(parse_bridge_file(text) == m3);
}

} // verus!
