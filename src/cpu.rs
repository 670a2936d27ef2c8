use crate::error::PotError;
use crate::text::{lemma_split_nonempty, split_on, split_str, trim, trim_str};
use crate::util::{decimal_u32, parse_u32};
use vstd::prelude::*;
use vstd::string::*;
use vstd::utf8::{decode_utf8, valid_utf8};

verus! {

/// Relies on std's `str::from_utf8`: the text that the bytes encode, or an
/// error when they are not UTF-8.
#[verifier::external_body]
fn utf8_text(v: &[u8]) -> (r: Option<String>)
    ensures
        r is Some <==> valid_utf8(v@),
        r matches Some(s) ==> s@ == decode_utf8(v@),
{
    std::str::from_utf8(v).ok().map(|s| s.to_string())
}

/// The CPU ids among comma-separated words: each word trimmed and read as a
/// decimal `u32`; words that do not read are skipped.
pub open spec fn cpu_ids(ws: Seq<Seq<char>>) -> Seq<u32>
    decreases ws.len(),
{
    if ws.len() == 0 {
        Seq::empty()
    } else {
        let prev = cpu_ids(ws.drop_last());
        match decimal_u32(trim(ws.last())) {
            Some(c) => prev.push(c),
            None => prev,
        }
    }
}

/// What the output of `cpuset -g` gives: nothing for an empty output; for a
/// first line (up to the first newline) without `:`, a malformed output;
/// otherwise the ids listed between its first and second `:`.
pub open spec fn allocation_of_text(t: Seq<char>) -> Result<Seq<u32>, PotError> {
    if t.len() == 0 {
        Err(PotError::CpuSetNoOutput)
    } else {
        let line = split_on(t, '\n')[0];
        let parts = split_on(line, ':');
        if parts.len() < 2 {
            Err(PotError::CpuSetMalformed)
        } else {
            Ok(cpu_ids(split_on(parts[1], ',')))
        }
    }
}

/// The CPU set that `cpuset -g` printed.
pub fn allocation_from_utf8(v: &[u8]) -> (r: Result<Vec<u32>, PotError>)
    ensures
        !valid_utf8(v@) ==> r == Err::<Vec<u32>, PotError>(PotError::Utf8Error),
        valid_utf8(v@) ==> match allocation_of_text(decode_utf8(v@)) {
            Ok(ids) => r matches Ok(a) && a@ == ids,
            Err(e) => r == Err::<Vec<u32>, PotError>(e),
        },
{
    let Some(text) = utf8_text(v) else {
        return Err(PotError::Utf8Error);
    };
    let lines = split_str(text.as_str(), '\n');
    if text.as_str().unicode_len() == 0 {
        return Err(PotError::CpuSetNoOutput);
    }
    proof {
        lemma_split_nonempty(text@, '\n');
        assert(lines.deep_view()[0] == lines@[0]@);
    }
    let parts = split_str(lines[0].as_str(), ':');
    if parts.len() < 2 {
        return Err(PotError::CpuSetMalformed);
    }
    proof {
        assert(parts.deep_view()[1] == parts@[1]@);
    }
    let words = split_str(parts[1].as_str(), ',');
    let mut result: Vec<u32> = Vec::new();
    let mut i: usize = 0;
    while i < words.len()
        invariant
            i <= words.len(),
            result@ == cpu_ids(words.deep_view().take(i as int)),
        decreases words.len() - i,
    {
        proof {
            assert(words.deep_view().take(i + 1).drop_last() =~= words.deep_view().take(i as int));
            assert(words.deep_view()[i as int] == words@[i as int]@);
        }
        let w = trim_str(words[i].as_str());
        if let Some(c) = parse_u32(w.as_str()) {
            result.push(c);
        }
        i = i + 1;
    }
    proof {
        assert(words.deep_view().take(words.len() as int) =~= words.deep_view());
    }
    Ok(result)
}

/// The decimal digit `d`.
pub open spec fn digit_char(d: nat) -> char {
    seq!['0', '1', '2', '3', '4', '5', '6', '7', '8', '9'][d as int]
}

/// The decimal text of `n`, without leading zeros.
pub open spec fn decimal_text(n: nat) -> Seq<char>
    decreases n,
{
    if n < 10 {
        seq![digit_char(n)]
    } else {
        decimal_text(n / 10).push(digit_char(n % 10))
    }
}

fn digit_str(d: u32) -> (r: &'static str)
    requires
        d < 10,
    ensures
        r@ == seq![digit_char(d as nat)],
{
    proof {
        reveal_strlit("0");
        reveal_strlit("1");
        reveal_strlit("2");
        reveal_strlit("3");
        reveal_strlit("4");
        reveal_strlit("5");
        reveal_strlit("6");
        reveal_strlit("7");
        reveal_strlit("8");
        reveal_strlit("9");
    }
    let r = match d {
        0 => "0",
        1 => "1",
        2 => "2",
        3 => "3",
        4 => "4",
        5 => "5",
        6 => "6",
        7 => "7",
        8 => "8",
        _ => "9",
    };
    proof {
        assert(r@ =~= seq![digit_char(d as nat)]);
    }
    r
}

/// Appends the decimal text of `n`.
pub fn push_decimal(out: &mut String, n: u32)
    ensures
        final(out)@ == old(out)@ + decimal_text(n as nat),
    decreases n,
{
    if n >= 10 {
        push_decimal(out, n / 10);
    }
    out.append(digit_str(n % 10));
    proof {
        if n >= 10 {
            assert(old(out)@ + decimal_text(n as nat) =~= old(out)@ + decimal_text((n / 10) as nat)
                + seq![digit_char((n % 10) as nat)]);
        } else {
            assert(old(out)@ + decimal_text(n as nat) =~= old(out)@ + seq![digit_char((n % 10) as nat)]);
        }
    }
}

/// Each id in decimal, followed by a space.
pub open spec fn ids_text(ids: Seq<u32>) -> Seq<char>
    decreases ids.len(),
{
    if ids.len() == 0 {
        Seq::empty()
    } else {
        ids_text(ids.drop_last()) + decimal_text(ids.last() as nat) + seq![' ']
    }
}

/// How `show` prints a CPU set: "not restricted" when it holds as many CPUs
/// as the system has, else each id followed by a space.
pub fn allocation_to_string(allocation: &Vec<u32>, ncpu: u32) -> (r: String)
    ensures
        allocation@.len() == ncpu as nat ==> r@ == "not restricted"@,
        allocation@.len() != ncpu as nat ==> r@ == ids_text(allocation@),
{
    if allocation.len() as u64 == ncpu as u64 {
        return String::from_str("not restricted");
    }
    let mut result = String::new();
    let mut i: usize = 0;
    proof {
        assert(allocation@.take(0) =~= Seq::<u32>::empty());
    }
    while i < allocation.len()
        invariant
            i <= allocation.len(),
            result@ == ids_text(allocation@.take(i as int)),
        decreases allocation.len() - i,
    {
        push_decimal(&mut result, allocation[i]);
        result.append(" ");
        proof {
            reveal_strlit(" ");
            assert(allocation@.take(i + 1).drop_last() =~= allocation@.take(i as int));
            assert(result@ =~= ids_text(allocation@.take(i + 1)));
        }
        i = i + 1;
    }
    proof {
        assert(allocation@.take(allocation.len() as int) =~= allocation@);
    }
    result
}

/// The jails whose CPU set is smaller or larger than the whole system, with
/// the size of their set.
pub open spec fn constraints_of(allocs: Seq<(Seq<char>, Seq<u32>)>, ncpu: nat) -> Seq<(Seq<char>, u32)>
    decreases allocs.len(),
{
    if allocs.len() == 0 {
        Seq::empty()
    } else {
        let prev = constraints_of(allocs.drop_last(), ncpu);
        let a = allocs.last();
        if a.1.len() == ncpu {
            prev
        } else {
            prev.push((a.0, a.1.len() as u32))
        }
    }
}

/// The constrained jails: those whose CPU set does not hold all `ncpu` CPUs,
/// each with the number of CPUs it holds.
pub fn get_potcpuconstraints(allocations: &Vec<(String, Vec<u32>)>, ncpu: u32) -> (r: Vec<(String, u32)>)
    requires
        forall|k: int| 0 <= k < allocations.len() ==> (#[trigger] allocations@[k]).1.len() <= u32::MAX,
    ensures
        r.deep_view() == constraints_of(allocations.deep_view(), ncpu as nat),
{
    let mut result: Vec<(String, u32)> = Vec::new();
    let mut i: usize = 0;
    while i < allocations.len()
        invariant
            i <= allocations.len(),
            forall|k: int| 0 <= k < allocations.len() ==> (#[trigger] allocations@[k]).1.len() <= u32::MAX,
            result.deep_view() == constraints_of(allocations.deep_view().take(i as int), ncpu as nat),
        decreases allocations.len() - i,
    {
        proof {
            assert(allocations.deep_view().take(i + 1).drop_last() =~= allocations.deep_view().take(i as int));
            assert(allocations.deep_view()[i as int].1 == allocations@[i as int].1@);
            assert(allocations.deep_view()[i as int].0 == allocations@[i as int].0@);
        }
        let n = allocations[i].1.len();
        if n as u64 != ncpu as u64 {
            let ghost before = result.deep_view();
            result.push((allocations[i].0.clone(), n as u32));
            proof {
                assert(result.deep_view() =~= before.push((allocations@[i as int].0@, n as u32)));
            }
        }
        i = i + 1;
    }
    proof {
        assert(allocations.deep_view().take(allocations.len() as int) =~= allocations.deep_view());
    }
    result
}

/// Number of constrained jails (CPU set not of size `ncpu`) whose set holds
/// CPU `c`.
pub open spec fn cpu_load(allocs: Seq<(Seq<char>, Seq<u32>)>, ncpu: nat, c: u32) -> nat
    decreases allocs.len(),
{
    if allocs.len() == 0 {
        0
    } else {
        let a = allocs.last();
        cpu_load(allocs.drop_last(), ncpu, c) + if a.1.len() != ncpu && a.1.contains(c) {
            1nat
        } else {
            0nat
        }
    }
}

/// Whether `c` is in `set`.
fn holds(set: &Vec<u32>, c: u32) -> (r: bool)
    ensures
        r == set@.contains(c),
{
    let mut i: usize = 0;
    while i < set.len()
        invariant
            i <= set.len(),
            forall|k: int| 0 <= k < i ==> set@[k] != c,
        decreases set.len() - i,
    {
        if set[i] == c {
            return true;
        }
        i = i + 1;
    }
    false
}

/// The load of each CPU `0..ncpu`: how many constrained jails use it.
pub fn get_cpu_allocation(allocations: &Vec<(String, Vec<u32>)>, ncpu: u32) -> (r: Vec<u32>)
    requires
        allocations.len() <= u32::MAX,
    ensures
        r.len() == ncpu,
        forall|c: int| 0 <= c < ncpu ==> #[trigger] r@[c] as nat == cpu_load(allocations.deep_view(), ncpu as nat, c as u32),
{
    let mut result: Vec<u32> = Vec::new();
    let mut c: u32 = 0;
    while c < ncpu
        invariant
            c <= ncpu,
            allocations.len() <= u32::MAX,
            result.len() == c,
            forall|d: int| 0 <= d < c ==> #[trigger] result@[d] as nat == cpu_load(allocations.deep_view(), ncpu as nat, d as u32),
        decreases ncpu - c,
    {
        let mut count: u32 = 0;
        let mut i: usize = 0;
        while i < allocations.len()
            invariant
                i <= allocations.len(),
                allocations.len() <= u32::MAX,
                count as nat == cpu_load(allocations.deep_view().take(i as int), ncpu as nat, c),
                count <= i,
            decreases allocations.len() - i,
        {
            proof {
                assert(allocations.deep_view().take(i + 1).drop_last() =~= allocations.deep_view().take(i as int));
                assert(allocations.deep_view()[i as int].1 == allocations@[i as int].1@);
            }
            let set = &allocations[i].1;
            if set.len() as u64 != ncpu as u64 && holds(set, c) {
                count = count + 1;
            }
            i = i + 1;
        }
        proof {
            assert(allocations.deep_view().take(allocations.len() as int) =~= allocations.deep_view());
        }
        result.push(count);
        c = c + 1;
    }
    result
}

/// (load, cpu) pairs in lexicographic order: by load, then by CPU id.
pub open spec fn pair_le(a: (u32, u32), b: (u32, u32)) -> bool {
    a.0 < b.0 || (a.0 == b.0 && a.1 <= b.1)
}

/// Relies on itertools' `sorted`: the same items in ascending order, where
/// tuples compare lexicographically (std's `Ord` for tuples).
#[verifier::external_body]
fn sorted_pairs(v: Vec<(u32, u32)>) -> (r: Vec<(u32, u32)>)
    ensures
        r@.to_multiset() == v@.to_multiset(),
        forall|i: int, j: int| 0 <= i < j < r.len() ==> pair_le(#[trigger] r@[i], #[trigger] r@[j]),
{
    itertools::Itertools::sorted(v.into_iter()).collect()
}

/// CPU `a` is to be preferred to CPU `b`: less loaded, or as loaded with a
/// lower id.
pub open spec fn preferred(loads: Seq<u32>, a: u32, b: u32) -> bool {
    loads[a as int] < loads[b as int] || (loads[a as int] == loads[b as int] && a < b)
}

/// The `cpu_amount` least loaded CPUs, ties going to the lower id, in order
/// of preference; nothing when the system has no more CPUs than asked for.
pub fn get_cpu(loads: &Vec<u32>, cpu_amount: u32) -> (r: Option<Vec<u32>>)
    requires
        loads.len() <= u32::MAX,
    ensures
        r is None <==> loads.len() <= cpu_amount,
        r matches Some(ids) ==> {
            &&& ids.len() == cpu_amount
            &&& forall|i: int| 0 <= i < ids.len() ==> #[trigger] ids@[i] < loads.len()
            &&& forall|i: int, j: int| 0 <= i < j < ids.len() ==> preferred(loads@, #[trigger] ids@[i], #[trigger] ids@[j])
            &&& forall|c: u32| c < loads.len() && !ids@.contains(c) ==> forall|i: int| 0 <= i < ids.len() ==> preferred(loads@, #[trigger] ids@[i], c)
        },
{
    let n = loads.len();
    if n <= cpu_amount as usize {
        return None;
    }
    let mut pairs: Vec<(u32, u32)> = Vec::new();
    let mut c: usize = 0;
    while c < n
        invariant
            c <= n,
            n == loads.len(),
            n <= u32::MAX,
            pairs.len() == c,
            forall|k: int| 0 <= k < c ==> #[trigger] pairs@[k] == (loads@[k], k as u32),
        decreases n - c,
    {
        pairs.push((loads[c], c as u32));
        c = c + 1;
    }
    let ghost p = pairs@;
    let sorted = sorted_pairs(pairs);
    proof {
        broadcast use vstd::seq_lib::group_to_multiset_ensures;
        assert(sorted@.len() == p.len()) by {
            assert(sorted@.to_multiset().len() == p.to_multiset().len());
        }
    }
    let mut ids: Vec<u32> = Vec::new();
    let mut i: usize = 0;
    while i < cpu_amount as usize
        invariant
            i <= cpu_amount < n,
            n == loads.len(),
            sorted@.len() == n,
            ids.len() == i,
            forall|k: int| 0 <= k < i ==> #[trigger] ids@[k] == sorted@[k].1,
        decreases cpu_amount - i,
    {
        ids.push(sorted[i].1);
        i = i + 1;
    }
    proof {
        broadcast use vstd::seq_lib::group_to_multiset_ensures;
        // every sorted pair is one of the (load, cpu) pairs
        assert forall|k: int| 0 <= k < n implies #[trigger] sorted@[k].1 < n && sorted@[k].0 == loads@[sorted@[k].1 as int] by {
            assert(sorted@.contains(sorted@[k]));
            assert(sorted@.to_multiset().count(sorted@[k]) > 0);
            assert(p.contains(sorted@[k]));
        }
        // ids are distinct: sorted has no duplicates, as the pairs have none
        assert(p.no_duplicates()) by {
            assert forall|x: int, y: int| 0 <= x < p.len() && 0 <= y < p.len() && x != y implies p[x] != p[y] by {
                assert(p[x].1 == x as u32 && p[y].1 == y as u32);
            }
        }
        p.lemma_multiset_has_no_duplicates();
        sorted@.lemma_multiset_has_no_duplicates_conv();
        assert forall|x: int, y: int| 0 <= x < y < ids.len() implies preferred(loads@, #[trigger] ids@[x], #[trigger] ids@[y]) by {
            assert(pair_le(sorted@[x], sorted@[y]));
            assert(sorted@[x] != sorted@[y]);
        }
        assert forall|c: u32| c < loads.len() && !ids@.contains(c) implies forall|x: int| 0 <= x < ids.len() ==> preferred(loads@, #[trigger] ids@[x], c) by {
            let pc = (loads@[c as int], c);
            assert(p[c as int] == pc);
            assert(p.contains(pc));
            assert(p.to_multiset().count(pc) > 0);
            assert(sorted@.contains(pc));
            let j = choose|j: int| 0 <= j < sorted@.len() && sorted@[j] == pc;
            if j < ids.len() {
                assert(ids@[j] == c);
            }
            assert forall|x: int| 0 <= x < ids.len() implies preferred(loads@, #[trigger] ids@[x], c) by {
                assert(pair_le(sorted@[x], sorted@[j]));
                assert(sorted@[x] != sorted@[j]);
            }
        }
    }
    Some(ids)
}

/// `a` comes no later than `b` in lexicographic order of characters (which is
/// the byte order of their UTF-8 text).
pub open spec fn text_le(a: Seq<char>, b: Seq<char>) -> bool
    decreases a.len(),
{
    if a.len() == 0 {
        true
    } else if b.len() == 0 {
        false
    } else if a[0] != b[0] {
        a[0] < b[0]
    } else {
        text_le(a.drop_first(), b.drop_first())
    }
}

/// Relies on itertools' `sorted`: the same items in ascending order, where
/// a `(String, u32)` compares by its string first (std's `Ord` for tuples),
/// and strings compare by their bytes, which orders UTF-8 text as its
/// characters.
#[verifier::external_body]
fn sorted_by_name(v: Vec<(String, u32)>) -> (r: Vec<(String, u32)>)
    ensures
        r.deep_view().to_multiset() == v.deep_view().to_multiset(),
        forall|i: int, j: int| 0 <= i < j < r.len() ==> text_le(#[trigger] r@[i].0@, #[trigger] r@[j].0@),
{
    itertools::Itertools::sorted(v.into_iter()).collect()
}

/// The largest and the smallest load.
pub open spec fn max_load(s: Seq<u32>) -> u32
    decreases s.len(),
{
    if s.len() <= 1 {
        if s.len() == 1 { s[0] } else { 0 }
    } else {
        let m = max_load(s.drop_last());
        if s.last() > m { s.last() } else { m }
    }
}

pub open spec fn min_load(s: Seq<u32>) -> u32
    decreases s.len(),
{
    if s.len() <= 1 {
        if s.len() == 1 { s[0] } else { 0 }
    } else {
        let m = min_load(s.drop_last());
        if s.last() < m { s.last() } else { m }
    }
}

/// Sum of the CPU counts.
pub open spec fn total_cpus(s: Seq<(Seq<char>, u32)>) -> nat
    decreases s.len(),
{
    if s.len() == 0 {
        0
    } else {
        total_cpus(s.drop_last()) + s.last().1 as nat
    }
}

/// `k` CPU ids handed out round robin over `n` CPUs, starting at `start`.
pub open spec fn round_robin(start: nat, k: nat, n: nat) -> Seq<u32> {
    Seq::new(k, |j: int| ((start + j) % (n as int)) as u32)
}

/// The new layout for jails in order `s`: each jail, in turn, gets as many
/// CPUs as it holds now, handed out round robin from CPU 0 on.
pub open spec fn is_layout(plan: Seq<(Seq<char>, Seq<u32>)>, s: Seq<(Seq<char>, u32)>, n: nat) -> bool {
    &&& plan.len() == s.len()
    &&& forall|i: int| 0 <= i < s.len() ==> (#[trigger] plan[i]).0 == s[i].0 && plan[i].1 == round_robin(
        total_cpus(s.take(i)),
        s[i].1 as nat,
        n,
    )
}

/// Names in lexicographic order.
pub open spec fn is_sorted_by_name(s: Seq<(Seq<char>, u32)>) -> bool {
    forall|i: int, j: int| 0 <= i < j < s.len() ==> text_le(#[trigger] s[i].0, #[trigger] s[j].0)
}

/// `plan` is the layout for the constrained jails `c` taken in name order.
pub open spec fn is_rebalance_plan(plan: Seq<(Seq<char>, Seq<u32>)>, c: Seq<(Seq<char>, u32)>, n: nat) -> bool {
    exists|s: Seq<(Seq<char>, u32)>| #[trigger] is_layout(plan, s, n) && s.to_multiset() == c.to_multiset() && is_sorted_by_name(s)
}

/// A new CPU layout when the loads of `loads` differ by more than one: the
/// constrained jails in name order, each given as many CPUs as now, handed
/// out round robin over the CPUs; nothing when the loads are balanced.
pub fn rebalance(loads: &Vec<u32>, constraints: Vec<(String, u32)>) -> (r: Option<Vec<(String, Vec<u32>)>>)
    requires
        loads.len() <= u32::MAX,
    ensures
        r is None <==> (loads.len() == 0 || max_load(loads@) - min_load(loads@) <= 1),
        r matches Some(plan) ==> is_rebalance_plan(plan.deep_view(), constraints.deep_view(), loads.len() as nat),
{
    let n = loads.len();
    if n == 0 {
        return None;
    }
    let mut max: u32 = loads[0];
    let mut min: u32 = loads[0];
    let mut i: usize = 1;
    proof {
        assert(loads@.take(1) =~= seq![loads@[0]]);
    }
    while i < n
        invariant
            1 <= i <= n,
            n == loads.len(),
            max == max_load(loads@.take(i as int)),
            min == min_load(loads@.take(i as int)),
        decreases n - i,
    {
        proof {
            assert(loads@.take(i + 1).drop_last() =~= loads@.take(i as int));
        }
        if loads[i] > max {
            max = loads[i];
        }
        if loads[i] < min {
            min = loads[i];
        }
        i = i + 1;
    }
    proof {
        assert(loads@.take(n as int) =~= loads@);
    }
    if max - min <= 1 {
        return None;
    }
    let ghost cv = constraints.deep_view();
    let sorted = sorted_by_name(constraints);
    let ghost s = sorted.deep_view();
    let mut plan: Vec<(String, Vec<u32>)> = Vec::new();
    let mut counter: u32 = 0;
    let mut k: usize = 0;
    while k < sorted.len()
        invariant
            k <= sorted.len(),
            n == loads.len(),
            0 < n <= u32::MAX,
            s == sorted.deep_view(),
            counter < n,
            counter as nat == total_cpus(s.take(k as int)) % (n as nat),
            is_layout(plan.deep_view(), s.take(k as int), n as nat),
        decreases sorted.len() - k,
    {
        let amount = sorted[k].1;
        let ghost start = total_cpus(s.take(k as int));
        let mut cpus: Vec<u32> = Vec::new();
        let mut j: u32 = 0;
        while j < amount
            invariant
                j <= amount,
                0 < n <= u32::MAX,
                counter < n,
                counter as nat == (start + j as nat) % (n as nat),
                cpus@ == round_robin(start, j as nat, n as nat),
            decreases amount - j,
        {
            cpus.push(counter);
            proof {
                assert(cpus@ =~= round_robin(start, (j + 1) as nat, n as nat));
            }
            let ghost prev = counter;
            counter = if counter + 1 == n as u32 { 0 } else { counter + 1 };
            proof {
                let x = (start + j as nat) as int;
                vstd::arithmetic::div_mod::lemma_add_mod_noop(x, 1, n as int);
                if n == 1 {
                    vstd::arithmetic::div_mod::lemma_mod_self_0(1);
                    assert((x + 1) % 1 == 0) by (nonlinear_arith);
                } else {
                    vstd::arithmetic::div_mod::lemma_small_mod(1, n as nat);
                    if prev + 1 == n {
                        vstd::arithmetic::div_mod::lemma_mod_self_0(n as int);
                    } else {
                        vstd::arithmetic::div_mod::lemma_small_mod((prev + 1) as nat, n as nat);
                    }
                }
            }
            j = j + 1;
        }
        let ghost before = plan.deep_view();
        proof {
            assert(cpus.deep_view() =~= cpus@);
        }
        plan.push((sorted[k].0.clone(), cpus));
        proof {
            assert(s[k as int] == (sorted@[k as int].0@, sorted@[k as int].1));
            assert(s.take(k + 1).drop_last() =~= s.take(k as int));
            assert(plan.deep_view() =~= before.push((s[k as int].0, round_robin(start, amount as nat, n as nat))));
            let sk = s.take(k + 1);
            assert forall|x: int| 0 <= x < sk.len() implies (#[trigger] plan.deep_view()[x]).0 == sk[x].0
                && plan.deep_view()[x].1 == round_robin(total_cpus(sk.take(x)), sk[x].1 as nat, n as nat) by {
                if x < k {
                    assert(sk.take(x) =~= s.take(k as int).take(x));
                } else {
                    assert(sk.take(x) =~= s.take(k as int));
                }
            }
        }
        k = k + 1;
    }
    proof {
        assert(s.take(sorted.len() as int) =~= s);
        assert forall|x: int, y: int| 0 <= x < y < s.len() implies text_le(#[trigger] s[x].0, #[trigger] s[y].0) by {
            assert(s[x].0 == sorted@[x].0@ && s[y].0 == sorted@[y].0@);
        }
        assert(s.to_multiset() == cv.to_multiset());
        assert(is_layout(plan.deep_view(), s, n as nat));
        assert(cv == constraints.deep_view());
        assert(is_sorted_by_name(s));
        assert(is_rebalance_plan(plan.deep_view(), cv, n as nat));
    }
    Some(plan)
}

/// The CPU count that the first constraint named `name` requests, if any.
pub fn requested_cpus(constraints: &Vec<(String, u32)>, name: &str) -> (r: Option<u32>)
    ensures
        r matches Some(n) ==> exists|k: int| 0 <= k < constraints.len() && constraints@[k].0@ == name@
            && constraints@[k].1 == n && forall|j: int| 0 <= j < k ==> (#[trigger] constraints@[j]).0@ != name@,
        r is None ==> forall|j: int| 0 <= j < constraints.len() ==> (#[trigger] constraints@[j]).0@ != name@,
{
    let mut i: usize = 0;
    while i < constraints.len()
        invariant
            i <= constraints.len(),
            forall|j: int| 0 <= j < i ==> (#[trigger] constraints@[j]).0@ != name@,
        decreases constraints.len() - i,
    {
        if crate::bridge::str_eq(constraints[i].0.as_str(), name) {
            return Some(constraints[i].1);
        }
        i = i + 1;
    }
    None
}

} // verus!
