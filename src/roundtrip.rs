use crate::ip::{IpAddress, IpNetwork, ip_text, net_text};
use crate::system::{SystemConfModel, apply_lines, conf_lines, parse_system_conf, read_as};
use crate::text::{is_ws, lemma_split_no_sep, split_on, starts_with, trim, trim_end, trim_start};
use crate::util::{lemma_after_first, value_token};
use vstd::prelude::*;

verus! {

/// A value in normal form: not empty and without white space.
pub open spec fn is_token(t: Seq<char>) -> bool {
    t.len() > 0 && forall|i: int| 0 <= i < t.len() ==> !is_ws(#[trigger] t[i])
}

/// A key: it ends in `=`, which it holds nowhere else, and it starts with a
/// character that is neither white space nor `#`.
pub open spec fn is_key(k: Seq<char>) -> bool {
    &&& k.len() >= 2
    &&& k.last() == '='
    &&& forall|i: int| 0 <= i < k.len() - 1 ==> #[trigger] k[i] != '='
    &&& forall|i: int| 0 <= i < k.len() ==> !is_ws(#[trigger] k[i])
    &&& k[0] != '#'
}

/// The texts in which the addresses of a configuration are written out.
pub struct AddrTexts {
    pub network: Seq<char>,
    pub netmask: Seq<char>,
    pub gateway: Seq<char>,
    pub dns_ip: Seq<char>,
}

/// The string settings present are tokens.
pub open spec fn strings_normal(m: SystemConfModel) -> bool {
    &&& m.zfs_root matches Some(t) ==> is_token(t)
    &&& m.fs_root matches Some(t) ==> is_token(t)
    &&& m.ext_if matches Some(t) ==> is_token(t)
    &&& m.dns_name matches Some(t) ==> is_token(t)
}

/// Each address present is written as a token that reads back as it.
pub open spec fn texts_fit(m: SystemConfModel, x: AddrTexts) -> bool {
    &&& m.network matches Some(n) ==> is_token(x.network) && net_text(x.network) == Some(n)
    &&& m.netmask matches Some(a) ==> is_token(x.netmask) && ip_text(x.netmask) == Some(a)
    &&& m.gateway matches Some(a) ==> is_token(x.gateway) && ip_text(x.gateway) == Some(a)
    &&& m.dns_ip matches Some(a) ==> is_token(x.dns_ip) && ip_text(x.dns_ip) == Some(a)
}

/// `ls` with the line `key` + `t` added when a value is present.
pub open spec fn push_setting(ls: Seq<Seq<char>>, key: Seq<char>, v: Option<Seq<char>>) -> Seq<Seq<char>> {
    match v {
        Some(t) => ls.push(key + t),
        None => ls,
    }
}

/// The text of an address setting, present when the setting is.
pub open spec fn text_if<A>(v: Option<A>, t: Seq<char>) -> Option<Seq<char>> {
    if v is Some {
        Some(t)
    } else {
        None
    }
}

/// The recognised settings, one `KEY=value` line each, in a fixed order.
pub open spec fn normal_form_lines(m: SystemConfModel, x: AddrTexts) -> Seq<Seq<char>> {
    let a = push_setting(Seq::empty(), "POT_ZFS_ROOT="@, m.zfs_root);
    let b = push_setting(a, "POT_FS_ROOT="@, m.fs_root);
    let c = push_setting(b, "POT_EXTIF="@, m.ext_if);
    let d = push_setting(c, "POT_DNS_NAME="@, m.dns_name);
    let e = push_setting(d, "POT_NETWORK="@, text_if(m.network, x.network));
    let f = push_setting(e, "POT_NETMASK="@, text_if(m.netmask, x.netmask));
    let g = push_setting(f, "POT_GATEWAY="@, text_if(m.gateway, x.gateway));
    push_setting(g, "POT_DNS_IP="@, text_if(m.dns_ip, x.dns_ip))
}

/// Lines joined into a text, each ended by a newline.
pub open spec fn text_of_lines(ls: Seq<Seq<char>>) -> Seq<char>
    decreases ls.len(),
{
    if ls.len() == 0 {
        Seq::empty()
    } else {
        text_of_lines(ls.drop_last()) + ls.last() + seq!['\n']
    }
}

/// A configuration written out in normal form.
pub open spec fn normal_form(m: SystemConfModel, x: AddrTexts) -> Seq<char> {
    text_of_lines(normal_form_lines(m, x))
}

/// Appending text without the separator extends the last piece.
pub(crate) proof fn lemma_split_append(s: Seq<char>, t: Seq<char>, sep: char)
    requires
        !t.contains(sep),
    ensures
        split_on(s + t, sep) == split_on(s, sep).update(
            split_on(s, sep).len() - 1,
            split_on(s, sep).last() + t,
        ),
    decreases t.len(),
{
    crate::text::lemma_split_nonempty(s, sep);
    if t.len() == 0 {
        assert(s + t =~= s);
        assert(split_on(s, sep).last() + t =~= split_on(s, sep).last());
        assert(split_on(s, sep).update(split_on(s, sep).len() - 1, split_on(s, sep).last())
            =~= split_on(s, sep));
    } else {
        assert(!t.drop_last().contains(sep)) by {
            if t.drop_last().contains(sep) {
                let k = choose|k: int| 0 <= k < t.drop_last().len() && t.drop_last()[k] == sep;
                assert(t[k] == sep);
            }
        }
        lemma_split_append(s, t.drop_last(), sep);
        assert((s + t).drop_last() =~= s + t.drop_last());
        assert((s + t).last() == t.last());
        assert(t.last() != sep) by {
            assert(t[t.len() - 1] == t.last());
        }
        let prev = split_on(s, sep);
        assert((prev.last() + t.drop_last()).push(t.last()) =~= prev.last() + t);
        assert(prev.update(prev.len() - 1, prev.last() + t.drop_last()).update(
            prev.len() - 1,
            (prev.last() + t.drop_last()).push(t.last()),
        ) =~= prev.update(prev.len() - 1, prev.last() + t));
    }
}

/// Splitting joined lines on newlines gives the lines back, and an empty
/// piece after the last newline.
proof fn lemma_split_lines(ls: Seq<Seq<char>>)
    requires
        forall|k: int| 0 <= k < ls.len() ==> !(#[trigger] ls[k]).contains('\n'),
    ensures
        split_on(text_of_lines(ls), '\n') == ls.push(Seq::<char>::empty()),
    decreases ls.len(),
{
    if ls.len() == 0 {
        assert(split_on(Seq::<char>::empty(), '\n') =~= seq![Seq::<char>::empty()]);
    } else {
        let init = ls.drop_last();
        assert forall|k: int| 0 <= k < init.len() implies !(#[trigger] init[k]).contains('\n') by {
            assert(init[k] == ls[k]);
        }
        lemma_split_lines(init);
        let x = text_of_lines(init);
        let l = ls.last();
        assert(!l.contains('\n')) by {
            assert(ls[ls.len() - 1] == l);
        }
        lemma_split_append(x, l, '\n');
        let whole = x + l + seq!['\n'];
        assert(whole.drop_last() =~= x + l);
        assert(whole.last() == '\n');
        assert(init.push(Seq::<char>::empty()).update(init.len() as int, Seq::<char>::empty() + l)
            =~= init.push(l));
        assert(init.push(l) =~= ls);
    }
}

/// A line made of a key and a token reads back as the token, is its own
/// trimmed form, and starts with its key and with no other key.
proof fn lemma_key_line(k: Seq<char>, t: Seq<char>)
    requires
        is_key(k),
        is_token(t),
    ensures
        value_token(k + t) == Some(t),
        trim(k + t) == k + t,
        starts_with(k + t, k),
        !starts_with(k + t, "#"@),
        forall|k2: Seq<char>| is_key(k2) && starts_with(k + t, k2) ==> k2 == k,
{
    let l = k + t;
    let kp = k.drop_last();
    assert(!kp.contains('=')) by {
        if kp.contains('=') {
            let i = choose|i: int| 0 <= i < kp.len() && kp[i] == '=';
            assert(k[i] == '=');
        }
    }
    assert(!t.contains(' ')) by {
        if t.contains(' ') {
            let i = choose|i: int| 0 <= i < t.len() && t[i] == ' ';
        }
    }
    assert forall|i: int| 0 <= i < k.len() - 1 implies l[i] != '=' by {
        assert(l[i] == k[i]);
    }
    assert(l[k.len() - 1] == '=');
    lemma_after_first(l, '=', k.len() - 1);
    assert(l.skip(k.len() as int) =~= t);
    lemma_split_no_sep(t, ' ');
    assert(l.take(k.len() as int) =~= k);
    // trimmed already: first character is the key's, last is the token's or `=`
    assert(l[0] == k[0]);
    assert(trim_start(l) == l);
    if t.len() > 0 {
        assert(l.last() == t[t.len() - 1]);
    } else {
        assert(l =~= k);
    }
    assert(!is_ws(l.last()));
    assert(trim_end(l) == l);
    assert(!starts_with(l, "#"@)) by {
        reveal_strlit("#");
        if starts_with(l, "#"@) {
            assert(l.take(1)[0] == l[0]);
        }
    }
    assert forall|k2: Seq<char>| is_key(k2) && starts_with(l, k2) implies k2 == k by {
        let n = k2.len();
        assert(l.take(n as int) == k2);
        if n <= k.len() {
            assert(k2[n - 1] == l[n - 1]);
            assert(l[n - 1] == k[n - 1]);
            if n < k.len() {
                assert(k[n - 1] != '=');
            }
            assert(k2 =~= k);
        } else {
            assert(k2[k.len() - 1] == l[k.len() - 1]);
            assert(l[k.len() - 1] == k[k.len() - 1]);
        }
    }
}

proof fn lemma_keys()
    ensures
        is_key("POT_ZFS_ROOT="@),
        is_key("POT_FS_ROOT="@),
        is_key("POT_EXTIF="@),
        is_key("POT_DNS_NAME="@),
        is_key("POT_NETWORK="@),
        is_key("POT_NETMASK="@),
        is_key("POT_GATEWAY="@),
        is_key("POT_DNS_IP="@),
{
    reveal_strlit("POT_ZFS_ROOT=");
    reveal_strlit("POT_FS_ROOT=");
    reveal_strlit("POT_EXTIF=");
    reveal_strlit("POT_DNS_NAME=");
    reveal_strlit("POT_NETWORK=");
    reveal_strlit("POT_NETMASK=");
    reveal_strlit("POT_GATEWAY=");
    reveal_strlit("POT_DNS_IP=");
}

proof fn lemma_keys_distinct()
    ensures
        "POT_ZFS_ROOT="@ != "POT_FS_ROOT="@,
        "POT_ZFS_ROOT="@ != "POT_EXTIF="@,
        "POT_ZFS_ROOT="@ != "POT_DNS_NAME="@,
        "POT_ZFS_ROOT="@ != "POT_NETWORK="@,
        "POT_ZFS_ROOT="@ != "POT_NETMASK="@,
        "POT_ZFS_ROOT="@ != "POT_GATEWAY="@,
        "POT_ZFS_ROOT="@ != "POT_DNS_IP="@,
        "POT_FS_ROOT="@ != "POT_EXTIF="@,
        "POT_FS_ROOT="@ != "POT_DNS_NAME="@,
        "POT_FS_ROOT="@ != "POT_NETWORK="@,
        "POT_FS_ROOT="@ != "POT_NETMASK="@,
        "POT_FS_ROOT="@ != "POT_GATEWAY="@,
        "POT_FS_ROOT="@ != "POT_DNS_IP="@,
        "POT_EXTIF="@ != "POT_DNS_NAME="@,
        "POT_EXTIF="@ != "POT_NETWORK="@,
        "POT_EXTIF="@ != "POT_NETMASK="@,
        "POT_EXTIF="@ != "POT_GATEWAY="@,
        "POT_EXTIF="@ != "POT_DNS_IP="@,
        "POT_DNS_NAME="@ != "POT_NETWORK="@,
        "POT_DNS_NAME="@ != "POT_NETMASK="@,
        "POT_DNS_NAME="@ != "POT_GATEWAY="@,
        "POT_DNS_NAME="@ != "POT_DNS_IP="@,
        "POT_NETWORK="@ != "POT_NETMASK="@,
        "POT_NETWORK="@ != "POT_GATEWAY="@,
        "POT_NETWORK="@ != "POT_DNS_IP="@,
        "POT_NETMASK="@ != "POT_GATEWAY="@,
        "POT_NETMASK="@ != "POT_DNS_IP="@,
        "POT_GATEWAY="@ != "POT_DNS_IP="@,
{
    reveal_strlit("POT_ZFS_ROOT=");
    reveal_strlit("POT_FS_ROOT=");
    reveal_strlit("POT_EXTIF=");
    reveal_strlit("POT_DNS_NAME=");
    reveal_strlit("POT_NETWORK=");
    reveal_strlit("POT_NETMASK=");
    reveal_strlit("POT_GATEWAY=");
    reveal_strlit("POT_DNS_IP=");
    assert("POT_ZFS_ROOT="@[4] != "POT_FS_ROOT="@[4]);
    assert("POT_ZFS_ROOT="@[4] != "POT_EXTIF="@[4]);
    assert("POT_ZFS_ROOT="@[4] != "POT_DNS_NAME="@[4]);
    assert("POT_ZFS_ROOT="@[4] != "POT_NETWORK="@[4]);
    assert("POT_ZFS_ROOT="@[4] != "POT_NETMASK="@[4]);
    assert("POT_ZFS_ROOT="@[4] != "POT_GATEWAY="@[4]);
    assert("POT_ZFS_ROOT="@[4] != "POT_DNS_IP="@[4]);
    assert("POT_FS_ROOT="@[4] != "POT_EXTIF="@[4]);
    assert("POT_FS_ROOT="@[4] != "POT_DNS_NAME="@[4]);
    assert("POT_FS_ROOT="@[4] != "POT_NETWORK="@[4]);
    assert("POT_FS_ROOT="@[4] != "POT_NETMASK="@[4]);
    assert("POT_FS_ROOT="@[4] != "POT_GATEWAY="@[4]);
    assert("POT_FS_ROOT="@[4] != "POT_DNS_IP="@[4]);
    assert("POT_EXTIF="@[4] != "POT_DNS_NAME="@[4]);
    assert("POT_EXTIF="@[4] != "POT_NETWORK="@[4]);
    assert("POT_EXTIF="@[4] != "POT_NETMASK="@[4]);
    assert("POT_EXTIF="@[4] != "POT_GATEWAY="@[4]);
    assert("POT_EXTIF="@[4] != "POT_DNS_IP="@[4]);
    assert("POT_DNS_NAME="@[4] != "POT_NETWORK="@[4]);
    assert("POT_DNS_NAME="@[4] != "POT_NETMASK="@[4]);
    assert("POT_DNS_NAME="@[4] != "POT_GATEWAY="@[4]);
    assert("POT_DNS_NAME="@[8] != "POT_DNS_IP="@[8]);
    assert("POT_NETWORK="@[7] != "POT_NETMASK="@[7]);
    assert("POT_NETWORK="@[4] != "POT_GATEWAY="@[4]);
    assert("POT_NETWORK="@[4] != "POT_DNS_IP="@[4]);
    assert("POT_NETMASK="@[4] != "POT_GATEWAY="@[4]);
    assert("POT_NETMASK="@[4] != "POT_DNS_IP="@[4]);
    assert("POT_GATEWAY="@[4] != "POT_DNS_IP="@[4]);
}

/// Adding a setting line applies it after the earlier ones.
proof fn lemma_apply_push(ls: Seq<Seq<char>>, k: Seq<char>, v: Option<Seq<char>>)
    ensures
        apply_lines(push_setting(ls, k, v)) == (match v {
            Some(t) => apply_lines(ls).apply_line(k + t),
            None => apply_lines(ls),
        }),
{
    if let Some(t) = v {
        assert(ls.push(k + t).drop_last() =~= ls);
    }
}

/// What a key line sets.
pub(crate) proof fn lemma_read_key_line(k: Seq<char>, t: Seq<char>)
    requires
        is_key(k),
        is_token(t),
    ensures
        read_as::<String>(k + t) == Some(t),
        read_as::<IpNetwork>(k + t) == net_text(t),
        read_as::<IpAddress>(k + t) == ip_text(t),
        !starts_with(k + t, "#"@),
        starts_with(k + t, k),
        forall|k2: Seq<char>| is_key(k2) && starts_with(k + t, k2) ==> k2 == k,
        trim(k + t) == k + t,
        !(k + t).contains('\n'),
{
    lemma_key_line(k, t);
    let l = k + t;
    assert(!l.contains('\n')) by {
        if l.contains('\n') {
            let i = choose|i: int| 0 <= i < l.len() && l[i] == '\n';
            if i < k.len() {
                assert(!is_ws(k[i]));
            } else {
                assert(t[i - k.len()] == l[i]);
            }
        }
    }
}

/// Lines without a newline that trimming leaves as they are.
pub open spec fn plain_lines(ls: Seq<Seq<char>>) -> bool {
    forall|i: int| 0 <= i < ls.len() ==> !(#[trigger] ls[i]).contains('\n') && trim(ls[i]) == ls[i]
}

proof fn lemma_push_plain(ls: Seq<Seq<char>>, k: Seq<char>, v: Option<Seq<char>>)
    requires
        plain_lines(ls),
        is_key(k),
        v matches Some(t) ==> is_token(t),
    ensures
        plain_lines(push_setting(ls, k, v)),
{
    if let Some(t) = v {
        lemma_read_key_line(k, t);
        let n = ls.push(k + t);
        assert forall|i: int| 0 <= i < n.len() implies !(#[trigger] n[i]).contains('\n') && trim(n[i]) == n[i] by {
            if i < ls.len() {
                assert(n[i] == ls[i]);
            }
        }
    }
}

/// The settings after reading the line `k` + `t` for one of the keys.
pub open spec fn set_key(m0: SystemConfModel, k: Seq<char>, t: Seq<char>) -> SystemConfModel {
    SystemConfModel {
        zfs_root: if k == "POT_ZFS_ROOT="@ { Some(t) } else { m0.zfs_root },
        fs_root: if k == "POT_FS_ROOT="@ { Some(t) } else { m0.fs_root },
        ext_if: if k == "POT_EXTIF="@ { Some(t) } else { m0.ext_if },
        dns_name: if k == "POT_DNS_NAME="@ { Some(t) } else { m0.dns_name },
        network: if k == "POT_NETWORK="@ { net_text(t) } else { m0.network },
        netmask: if k == "POT_NETMASK="@ { ip_text(t) } else { m0.netmask },
        gateway: if k == "POT_GATEWAY="@ { ip_text(t) } else { m0.gateway },
        dns_ip: if k == "POT_DNS_IP="@ { ip_text(t) } else { m0.dns_ip },
    }
}

proof fn lemma_apply_key(m0: SystemConfModel, k: Seq<char>, t: Seq<char>)
    requires
        is_key(k),
        is_token(t),
    ensures
        m0.apply_line(k + t) == set_key(m0, k, t),
{
    lemma_keys();
    lemma_read_key_line(k, t);
}

/// One setting line applied after the earlier ones.
proof fn lemma_stage(ls: Seq<Seq<char>>, k: Seq<char>, v: Option<Seq<char>>)
    requires
        is_key(k),
        v matches Some(t) ==> is_token(t),
    ensures
        apply_lines(push_setting(ls, k, v)) == (match v {
            Some(t) => set_key(apply_lines(ls), k, t),
            None => apply_lines(ls),
        }),
        plain_lines(ls) ==> plain_lines(push_setting(ls, k, v)),
{
    lemma_apply_push(ls, k, v);
    if let Some(t) = v {
        lemma_apply_key(apply_lines(ls), k, t);
    }
    if plain_lines(ls) {
        lemma_push_plain(ls, k, v);
    }
}

/// Writing out the recognised settings in normal form and reading the text
/// back gives the same settings.
#[verifier::rlimit(40)]
pub proof fn lemma_round_trip(m: SystemConfModel, x: AddrTexts)
    requires
        strings_normal(m),
        texts_fit(m, x),
    ensures
        parse_system_conf(normal_form(m, x)) == m,
{
    lemma_keys();
    let k1 = "POT_ZFS_ROOT="@;
    let k2 = "POT_FS_ROOT="@;
    let k3 = "POT_EXTIF="@;
    let k4 = "POT_DNS_NAME="@;
    let k5 = "POT_NETWORK="@;
    let k6 = "POT_NETMASK="@;
    let k7 = "POT_GATEWAY="@;
    let k8 = "POT_DNS_IP="@;
    let v5 = text_if(m.network, x.network);
    let v6 = text_if(m.netmask, x.netmask);
    let v7 = text_if(m.gateway, x.gateway);
    let v8 = text_if(m.dns_ip, x.dns_ip);
    let a = push_setting(Seq::empty(), k1, m.zfs_root);
    let b = push_setting(a, k2, m.fs_root);
    let c = push_setting(b, k3, m.ext_if);
    let d = push_setting(c, k4, m.dns_name);
    let e = push_setting(d, k5, v5);
    let f = push_setting(e, k6, v6);
    let g = push_setting(f, k7, v7);
    let h = push_setting(g, k8, v8);
    assert(h == normal_form_lines(m, x));
    assert(plain_lines(Seq::<Seq<char>>::empty()));
    assert(apply_lines(Seq::<Seq<char>>::empty()) == SystemConfModel::empty());
    lemma_stage(Seq::empty(), k1, m.zfs_root);
    lemma_stage(a, k2, m.fs_root);
    lemma_stage(b, k3, m.ext_if);
    lemma_stage(c, k4, m.dns_name);
    lemma_stage(d, k5, v5);
    lemma_stage(e, k6, v6);
    lemma_stage(f, k7, v7);
    lemma_stage(g, k8, v8);
    let mh = apply_lines(h);
    assert(mh == m) by {
        lemma_keys_distinct();
    }
    assert forall|i: int| 0 <= i < h.len() implies !(#[trigger] h[i]).contains('\n') by {
        assert(plain_lines(h));
    }
    lemma_split_lines(h);
    let pieces = h.push(Seq::<char>::empty());
    assert(trim(Seq::<char>::empty()) == Seq::<char>::empty());
    assert(conf_lines(normal_form(m, x)) =~= pieces);
    assert(pieces.drop_last() =~= h);
    assert(!starts_with(Seq::<char>::empty(), "#"@)) by {
        reveal_strlit("#");
    }
    assert(mh.apply_line(Seq::<char>::empty()) == mh);
}

/// The raw value of the last line of `ls` that sets key `k`, as the reader
/// sees it; nothing when no line sets it or that line's value is empty.
pub open spec fn last_token(ls: Seq<Seq<char>>, k: Seq<char>) -> Option<Seq<char>>
    decreases ls.len(),
{
    if ls.len() == 0 {
        None
    } else {
        let l = ls.last();
        if !starts_with(l, "#"@) && starts_with(l, k) {
            value_token(l)
        } else {
            last_token(ls.drop_last(), k)
        }
    }
}

/// What a text reads as depends on each key's last raw value only.
proof fn lemma_fields_from_tokens(ls: Seq<Seq<char>>)
    ensures
        apply_lines(ls).zfs_root == last_token(ls, "POT_ZFS_ROOT="@),
        apply_lines(ls).fs_root == last_token(ls, "POT_FS_ROOT="@),
        apply_lines(ls).ext_if == last_token(ls, "POT_EXTIF="@),
        apply_lines(ls).dns_name == last_token(ls, "POT_DNS_NAME="@),
        apply_lines(ls).network == (match last_token(ls, "POT_NETWORK="@) {
            Some(t) => net_text(t),
            None => None,
        }),
        apply_lines(ls).netmask == (match last_token(ls, "POT_NETMASK="@) {
            Some(t) => ip_text(t),
            None => None,
        }),
        apply_lines(ls).gateway == (match last_token(ls, "POT_GATEWAY="@) {
            Some(t) => ip_text(t),
            None => None,
        }),
        apply_lines(ls).dns_ip == (match last_token(ls, "POT_DNS_IP="@) {
            Some(t) => ip_text(t),
            None => None,
        }),
    decreases ls.len(),
{
    if ls.len() > 0 {
        lemma_fields_from_tokens(ls.drop_last());
    }
}

pub open spec fn token_or_empty(o: Option<Seq<char>>) -> Seq<char> {
    match o {
        Some(t) => t,
        None => Seq::empty(),
    }
}

/// The raw address values of a configuration text.
pub open spec fn address_tokens(s: Seq<char>) -> AddrTexts {
    let ls = conf_lines(s);
    AddrTexts {
        network: token_or_empty(last_token(ls, "POT_NETWORK="@)),
        netmask: token_or_empty(last_token(ls, "POT_NETMASK="@)),
        gateway: token_or_empty(last_token(ls, "POT_GATEWAY="@)),
        dns_ip: token_or_empty(last_token(ls, "POT_DNS_IP="@)),
    }
}

/// The value of each recognised key, as last set in the text, holds no
/// white space.
pub open spec fn tokens_normal(s: Seq<char>) -> bool {
    let ls = conf_lines(s);
    &&& last_token(ls, "POT_ZFS_ROOT="@) matches Some(t) ==> is_token(t)
    &&& last_token(ls, "POT_FS_ROOT="@) matches Some(t) ==> is_token(t)
    &&& last_token(ls, "POT_EXTIF="@) matches Some(t) ==> is_token(t)
    &&& last_token(ls, "POT_DNS_NAME="@) matches Some(t) ==> is_token(t)
    &&& last_token(ls, "POT_NETWORK="@) matches Some(t) ==> is_token(t)
    &&& last_token(ls, "POT_NETMASK="@) matches Some(t) ==> is_token(t)
    &&& last_token(ls, "POT_GATEWAY="@) matches Some(t) ==> is_token(t)
    &&& last_token(ls, "POT_DNS_IP="@) matches Some(t) ==> is_token(t)
}

/// Parsing a configuration text, then writing out the recognised settings in
/// normal form, each address as the text it was read from, and parsing that
/// gives the same settings.
pub proof fn lemma_round_trip_text(s: Seq<char>)
    requires
        tokens_normal(s),
    ensures
        parse_system_conf(normal_form(parse_system_conf(s), address_tokens(s))) == parse_system_conf(s),
{
    let ls = conf_lines(s);
    lemma_fields_from_tokens(ls);
    let m = parse_system_conf(s);
    let x = address_tokens(s);
    assert(strings_normal(m));
    assert(texts_fit(m, x));
    lemma_round_trip(m, x);
}

} // verus!
