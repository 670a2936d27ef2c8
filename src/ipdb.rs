use crate::ip::{IpAddress, IpNetwork};
use vstd::prelude::*;

verus! {

/// A copy of a reservation label.
pub fn clone_label(l: &Option<String>) -> (r: Option<String>)
    ensures
        r.deep_view() == l.deep_view(),
{
    match l {
        Some(s) => Some(s.clone()),
        None => None,
    }
}

/// The address database: reserved addresses, each with an optional label,
/// kept in database order (numeric within a family, IPv4 first) with no
/// address twice.
///
/// It is a sorted vector rather than a `BTreeMap`: vstd's `BTreeMap`
/// specification holds only for keys whose `Ord` it models, which a derived
/// `Ord` on `IpAddress` is not, and the order the queries rely on (`rank`) is
/// stated and proved here directly, as `strictly_sorted` over the entries.
pub struct IpDb {
    entries: Vec<(IpAddress, Option<String>)>,
    reserved: Ghost<Map<IpAddress, Option<Seq<char>>>>,
}

impl View for IpDb {
    type V = Map<IpAddress, Option<Seq<char>>>;

    closed spec fn view(&self) -> Map<IpAddress, Option<Seq<char>>> {
        self.reserved@
    }
}

/// Entries whose addresses strictly increase in database order.
pub open spec fn strictly_sorted(e: Seq<(IpAddress, Option<String>)>) -> bool {
    forall|i: int, j: int| 0 <= i < j < e.len() ==> (#[trigger] e[i]).0.rank() < (#[trigger] e[j]).0.rank()
}

/// Entries that list exactly the reservations of `m`.
pub open spec fn lists(e: Seq<(IpAddress, Option<String>)>, m: Map<IpAddress, Option<Seq<char>>>) -> bool {
    &&& forall|i: int| 0 <= i < e.len() ==> #[trigger] m.contains_key(e[i].0) && m[e[i].0] == e[i].1.deep_view()
    &&& forall|a: IpAddress| #[trigger] m.contains_key(a) ==> exists|i: int| 0 <= i < e.len() && e[i].0 == a
}

impl IpDb {
    /// Entries in strictly increasing order, listing exactly the reservations.
    pub closed spec fn wf(&self) -> bool {
        &&& strictly_sorted(self.entries@)
        &&& lists(self.entries@, self.reserved@)
    }

    /// An empty database.
    pub fn new() -> (r: IpDb)
        ensures
            r.wf(),
            r@ == Map::<IpAddress, Option<Seq<char>>>::empty(),
    {
        IpDb { entries: Vec::new(), reserved: Ghost(Map::empty()) }
    }

    /// Number of reserved addresses.
    pub fn len(&self) -> (r: usize)
        requires
            self.wf(),
        ensures
            r == self@.dom().len(),
    {
        proof {
            self.lemma_dom_len();
        }
        self.entries.len()
    }

    proof fn lemma_dom_len(&self)
        requires
            strictly_sorted(self.entries@),
            lists(self.entries@, self.reserved@),
        ensures
            self.reserved@.dom().len() == self.entries@.len(),
            self.reserved@.dom().finite(),
    {
        let e = self.entries@;
        let keys = e.map_values(|p: (IpAddress, Option<String>)| p.0);
        assert(keys.no_duplicates()) by {
            assert forall|i: int, j: int| 0 <= i < keys.len() && 0 <= j < keys.len() && i != j implies keys[i] != keys[j] by {
                if i < j {
                    assert(e[i].0.rank() < e[j].0.rank());
                } else {
                    assert(e[j].0.rank() < e[i].0.rank());
                }
            }
        }
        assert(keys.to_set() =~= self.reserved@.dom()) by {
            assert forall|a: IpAddress| keys.to_set().contains(a) <==> self.reserved@.dom().contains(a) by {
                if self.reserved@.contains_key(a) {
                    let i = choose|i: int| 0 <= i < e.len() && e[i].0 == a;
                    assert(keys[i] == a);
                }
                if keys.to_set().contains(a) {
                    let i = choose|i: int| 0 <= i < keys.len() && keys[i] == a;
                    assert(self.reserved@.contains_key(e[i].0));
                }
            }
        }
        keys.unique_seq_to_set();
    }

    /// Index of the first entry that does not come before `a`.
    fn position(&self, a: &IpAddress) -> (r: usize)
        requires
            self.wf(),
        ensures
            r <= self.entries@.len(),
            forall|i: int| 0 <= i < r ==> (#[trigger] self.entries@[i]).0.rank() < a.rank(),
            forall|i: int| r <= i < self.entries@.len() ==> (#[trigger] self.entries@[i]).0.rank() >= a.rank(),
    {
        let mut lo: usize = 0;
        let mut hi: usize = self.entries.len();
        while lo < hi
            invariant
                lo <= hi <= self.entries@.len(),
                strictly_sorted(self.entries@),
                forall|i: int| 0 <= i < lo ==> (#[trigger] self.entries@[i]).0.rank() < a.rank(),
                forall|i: int| hi <= i < self.entries@.len() ==> (#[trigger] self.entries@[i]).0.rank() >= a.rank(),
            decreases hi - lo,
        {
            let mid = lo + (hi - lo) / 2;
            if self.entries[mid].0.precedes(a) {
                lo = mid + 1;
            } else {
                hi = mid;
            }
        }
        lo
    }

    /// Whether `a` is reserved.
    pub fn contains_key(&self, a: &IpAddress) -> (r: bool)
        requires
            self.wf(),
        ensures
            r == self@.contains_key(*a),
    {
        let p = self.position(a);
        if p < self.entries.len() && self.entries[p].0 == *a {
            return true;
        }
        proof {
            if self.reserved@.contains_key(*a) {
                let i = choose|i: int| 0 <= i < self.entries@.len() && self.entries@[i].0 == *a;
                if i < p {
                    assert(self.entries@[i].0.rank() < a.rank());
                } else if i > p {
                    assert(self.entries@[p as int].0.rank() < self.entries@[i].0.rank());
                    assert(self.entries@[p as int].0.rank() >= a.rank());
                } else {
                    crate::ip::lemma_rank_injective(self.entries@[p as int].0, *a);
                }
            }
        }
        false
    }

    /// Reserves `a` with `label`, replacing any earlier label of `a`.
    pub fn insert(&mut self, a: IpAddress, label: Option<String>)
        requires
            old(self).wf(),
        ensures
            final(self).wf(),
            final(self)@ == old(self)@.insert(a, label.deep_view()),
    {
        let p = self.position(&a);
        let ghost old_e = self.entries@;
        let ghost old_m = self.reserved@;
        let ghost new_m = old_m.insert(a, label.deep_view());
        if p < self.entries.len() && self.entries[p].0 == a {
            self.entries.set(p, (a, label));
            self.reserved = Ghost(new_m);
            proof {
                let e = self.entries@;
                assert forall|i: int| 0 <= i < e.len() implies #[trigger] new_m.contains_key(e[i].0)
                    && new_m[e[i].0] == e[i].1.deep_view() by {
                    if i != p {
                        assert(e[i] == old_e[i]);
                        assert(old_m.contains_key(old_e[i].0));
                        assert(old_e[i].0 != a) by {
                            if i < p {
                                assert(old_e[i].0.rank() < old_e[p as int].0.rank());
                            } else {
                                assert(old_e[p as int].0.rank() < old_e[i].0.rank());
                            }
                        }
                    }
                }
                assert forall|b: IpAddress| #[trigger] new_m.contains_key(b) implies exists|i: int|
                    0 <= i < e.len() && e[i].0 == b by {
                    if b == a {
                        assert(e[p as int].0 == b);
                    } else {
                        let i = choose|i: int| 0 <= i < old_e.len() && old_e[i].0 == b;
                        assert(e[i].0 == b);
                    }
                }
            }
        } else {
            proof {
                if p < old_e.len() {
                    assert(old_e[p as int].0 != a);
                    assert(old_e[p as int].0.rank() != a.rank()) by {
                        if old_e[p as int].0.rank() == a.rank() {
                            crate::ip::lemma_rank_injective(old_e[p as int].0, a);
                        }
                    }
                }
            }
            self.entries.insert(p, (a, label));
            self.reserved = Ghost(new_m);
            proof {
                let e = self.entries@;
                assert(e == old_e.insert(p as int, (a, label)));
                assert forall|i: int, j: int| 0 <= i < j < e.len() implies (#[trigger] e[i]).0.rank() < (#[trigger] e[j]).0.rank() by {
                    if j < p {
                        assert(e[i] == old_e[i] && e[j] == old_e[j]);
                    } else if j == p {
                        assert(e[i] == old_e[i]);
                    } else if i < p {
                        assert(e[i] == old_e[i] && e[j] == old_e[j - 1]);
                    } else if i == p {
                        assert(e[j] == old_e[j - 1]);
                    } else {
                        assert(e[i] == old_e[i - 1] && e[j] == old_e[j - 1]);
                    }
                }
                assert forall|i: int| 0 <= i < e.len() implies #[trigger] new_m.contains_key(e[i].0)
                    && new_m[e[i].0] == e[i].1.deep_view() by {
                    if i < p {
                        assert(e[i] == old_e[i]);
                        assert(old_m.contains_key(old_e[i].0));
                        assert(old_e[i].0.rank() < a.rank());
                    } else if i > p {
                        assert(e[i] == old_e[i - 1]);
                        assert(old_m.contains_key(old_e[i - 1].0));
                        assert(old_e[i - 1].0.rank() >= a.rank());
                        assert(old_e[i - 1].0 != a) by {
                            if i - 1 > p {
                                assert(old_e[p as int].0.rank() < old_e[i - 1].0.rank());
                            }
                        }
                    }
                }
                assert forall|b: IpAddress| #[trigger] new_m.contains_key(b) implies exists|i: int|
                    0 <= i < e.len() && e[i].0 == b by {
                    if b == a {
                        assert(e[p as int].0 == b);
                    } else {
                        let i = choose|i: int| 0 <= i < old_e.len() && old_e[i].0 == b;
                        if i < p {
                            assert(e[i].0 == b);
                        } else {
                            assert(e[i + 1].0 == b);
                        }
                    }
                }
            }
        }
    }

    /// Reserves `a` with `label` unless `a` is already reserved.
    pub fn insert_if_absent(&mut self, a: IpAddress, label: Option<String>)
        requires
            old(self).wf(),
        ensures
            final(self).wf(),
            final(self)@ == (if old(self)@.contains_key(a) {
                old(self)@
            } else {
                old(self)@.insert(a, label.deep_view())
            }),
    {
        if !self.contains_key(&a) {
            self.insert(a, label);
        }
    }

    /// The reservations in database order: each address once, in strictly
    /// increasing order, each with its label.
    pub fn entries(&self) -> (r: Vec<(IpAddress, Option<String>)>)
        requires
            self.wf(),
        ensures
            strictly_sorted(r@),
            lists(r@, self@),
            r.len() == self@.dom().len(),
    {
        proof {
            self.lemma_dom_len();
        }
        let mut out: Vec<(IpAddress, Option<String>)> = Vec::new();
        let mut i: usize = 0;
        while i < self.entries.len()
            invariant
                i <= self.entries@.len(),
                out@.len() == i,
                forall|k: int| 0 <= k < i ==> (#[trigger] out@[k]).0 == self.entries@[k].0
                    && out@[k].1.deep_view() == self.entries@[k].1.deep_view(),
            decreases self.entries@.len() - i,
        {
            let l = clone_label(&self.entries[i].1);
            out.push((self.entries[i].0, l));
            i = i + 1;
        }
        proof {
            let e = self.entries@;
            assert forall|a: IpAddress| #[trigger] self.reserved@.contains_key(a) implies exists|k: int|
                0 <= k < out@.len() && out@[k].0 == a by {
                let k = choose|k: int| 0 <= k < e.len() && e[k].0 == a;
                assert(out@[k].0 == a);
            }
            assert forall|k: int, j: int| 0 <= k < j < out@.len() implies (#[trigger] out@[k]).0.rank() < (#[trigger] out@[j]).0.rank() by {
                assert(e[k].0.rank() < e[j].0.rank());
            }
        }
        out
    }

    /// Whether some reserved address lies in `net`.
    pub fn any_in(&self, net: &IpNetwork) -> (r: bool)
        requires
            self.wf(),
            net.wf(),
        ensures
            r == exists|a: IpAddress| #[trigger] self@.contains_key(a) && net.has(a),
    {
        let mut i: usize = 0;
        while i < self.entries.len()
            invariant
                i <= self.entries@.len(),
                net.wf(),
                lists(self.entries@, self.reserved@),
                forall|k: int| 0 <= k < i ==> !net.has(#[trigger] self.entries@[k].0),
            decreases self.entries@.len() - i,
        {
            if net.contains(&self.entries[i].0) {
                proof {
                    let a = self.entries@[i as int].0;
                    assert(self.reserved@.contains_key(a) && net.has(a));
                    assert(self@.contains_key(a) && net.has(a));
                }
                return true;
            }
            i = i + 1;
        }
        proof {
            assert forall|a: IpAddress| #[trigger] self.reserved@.contains_key(a) implies !net.has(a) by {
                let k = choose|k: int| 0 <= k < self.entries@.len() && self.entries@[k].0 == a;
                assert(!net.has(self.entries@[k].0));
            }
        }
        false
    }
}

} // verus!
