use crate::text::{lemma_split_nonempty, split_on, split_str};
use vstd::prelude::*;
use vstd::string::*;

verus! {

/// The text after the first `c` in `s`, if `s` holds a `c`.
pub open spec fn after_first(s: Seq<char>, c: char) -> Option<Seq<char>>
    decreases s.len(),
{
    if s.len() == 0 {
        None
    } else if s[0] == c {
        Some(s.drop_first())
    } else {
        after_first(s.drop_first(), c)
    }
}

/// The raw value of a `KEY=VALUE` line: the text after the first `=` (later
/// `=` included) up to the first space. A line without `=`, or whose value is
/// empty, has none.
pub open spec fn value_token(line: Seq<char>) -> Option<Seq<char>> {
    match after_first(line, '=') {
        Some(rest) => {
            let v = split_on(rest, ' ')[0];
            if v.len() == 0 {
                None
            } else {
                Some(v)
            }
        },
        None => None,
    }
}

/// `after_first` finds the first occurrence.
pub proof fn lemma_after_first(s: Seq<char>, c: char, i: int)
    requires
        0 <= i <= s.len(),
        forall|k: int| 0 <= k < i ==> s[k] != c,
    ensures
        i < s.len() && s[i] == c ==> after_first(s, c) == Some(s.skip(i + 1)),
        i == s.len() ==> after_first(s, c) is None,
    decreases i,
{
    if i > 0 {
        lemma_after_first(s.drop_first(), c, i - 1);
        if i < s.len() && s[i] == c {
            assert(s.drop_first().skip(i) =~= s.skip(i + 1));
        }
    } else if s.len() > 0 && s[0] == c {
        assert(s.drop_first() =~= s.skip(1));
    }
}

/// A type that a configuration value can be read as.
pub trait ConfValue: Sized + DeepView {
    /// What reading `t` gives, if `t` is a value of the type.
    spec fn from_token(t: Seq<char>) -> Option<Self::V>;

    fn parse_token(t: &str) -> (r: Option<Self>)
        ensures
            r.deep_view() == Self::from_token(t@),
    ;
}

impl ConfValue for String {
    open spec fn from_token(t: Seq<char>) -> Option<Seq<char>> {
        Some(t)
    }

    fn parse_token(t: &str) -> (r: Option<String>) {
        Some(String::from_str(t))
    }
}

impl ConfValue for u32 {
    open spec fn from_token(t: Seq<char>) -> Option<u32> {
        decimal_u32(t)
    }

    fn parse_token(t: &str) -> (r: Option<u32>) {
        parse_u32(t)
    }
}

/// The raw value of a `KEY=VALUE` line, as text.
pub fn value_text(line: &str) -> (r: Option<String>)
    ensures
        r.deep_view() == value_token(line@),
{
    let cs = crate::text::chars_of(line);
    let n = cs.len();
    let mut i: usize = 0;
    while i < n && cs[i] != '='
        invariant
            i <= n,
            n == cs@.len(),
            cs@ == line@,
            forall|k: int| 0 <= k < i ==> line@[k] != '=',
        decreases n - i,
    {
        i = i + 1;
    }
    proof {
        lemma_after_first(line@, '=', i as int);
    }
    if i == n {
        return None;
    }
    let rest = line.substring_char(i + 1, n);
    proof {
        assert(rest@ =~= line@.skip(i + 1));
    }
    let words = split_str(rest, ' ');
    proof {
        lemma_split_nonempty(rest@, ' ');
        assert(words.deep_view()[0] == words@[0]@);
    }
    if words[0].as_str().unicode_len() == 0 {
        return None;
    }
    Some(words[0].clone())
}

/// The value of a `KEY=VALUE` line read as a `T`: nothing when the line has
/// no `=`, when the raw value is empty, or when it is not a `T`.
pub fn get_value<T: ConfValue>(line: &str) -> (r: Option<T>)
    ensures
        r.deep_view() == (match value_token(line@) {
            Some(t) => T::from_token(t),
            None => None,
        }),
{
    match value_text(line) {
        Some(t) => T::parse_token(t.as_str()),
        None => None,
    }
}

pub open spec fn is_digit(c: char) -> bool {
    '0' <= c && c <= '9'
}

/// The number written by the decimal digits `d`.
pub open spec fn digits_value(d: Seq<char>) -> nat
    decreases d.len(),
{
    if d.len() == 0 {
        0
    } else {
        digits_value(d.drop_last()) * 10 + (d.last() as nat - '0' as nat) as nat
    }
}

pub open spec fn all_digits(d: Seq<char>) -> bool {
    forall|i: int| 0 <= i < d.len() ==> is_digit(#[trigger] d[i])
}

/// `s` without one leading `+`.
pub open spec fn strip_plus(s: Seq<char>) -> Seq<char> {
    if s.len() > 0 && s[0] == '+' {
        s.drop_first()
    } else {
        s
    }
}

/// What `u32::from_str` accepts: an optional `+`, then one or more decimal
/// digits whose value fits in 32 bits.
pub open spec fn decimal_u32(s: Seq<char>) -> Option<u32> {
    let d = strip_plus(s);
    if d.len() > 0 && all_digits(d) && digits_value(d) <= u32::MAX {
        Some(digits_value(d) as u32)
    } else {
        None
    }
}

/// A longer run of digits is worth at least as much as its prefix.
proof fn lemma_digits_prefix(d: Seq<char>, k: int)
    requires
        0 <= k <= d.len(),
        forall|i: int| 0 <= i < d.len() ==> is_digit(#[trigger] d[i]),
    ensures
        digits_value(d.take(k)) <= digits_value(d),
    decreases d.len() - k,
{
    if k < d.len() {
        lemma_digits_prefix(d, k + 1);
        assert(d.take(k + 1).drop_last() =~= d.take(k));
        assert(is_digit(d[k]));
    } else {
        assert(d.take(k) =~= d);
    }
}

/// Reads a decimal `u32` as `u32::from_str` does.
pub fn parse_u32(s: &str) -> (r: Option<u32>)
    ensures
        r == decimal_u32(s@),
{
    let cs = crate::text::chars_of(s);
    let mut i: usize = 0;
    if cs.len() > 0 && cs[0] == '+' {
        i = 1;
    }
    let start = i;
    let ghost d = strip_plus(s@);
    proof {
        assert(d =~= s@.subrange(start as int, s@.len() as int));
    }
    if i == cs.len() {
        return None;
    }
    let mut acc: u64 = 0;
    while i < cs.len()
        invariant
            cs@ == s@,
            start <= i <= cs.len(),
            d =~= s@.subrange(start as int, s@.len() as int),
            d == strip_plus(s@),
            forall|k: int| 0 <= k < i - start ==> is_digit(#[trigger] d[k]),
            acc as nat == digits_value(d.take(i - start)),
            acc <= u32::MAX,
        decreases cs.len() - i,
    {
        let c = cs[i];
        if !('0' <= c && c <= '9') {
            proof {
                assert(d[i - start] == c);
                assert(!is_digit(d[i - start]));
                assert(!all_digits(d));
            }
            return None;
        }
        let digit = (c as u32 - '0' as u32) as u64;
        proof {
            assert(d.take(i - start + 1).drop_last() =~= d.take(i - start));
            assert(d.take(i - start + 1).last() == c);
        }
        acc = acc * 10 + digit;
        proof {
            assert(d[i - start] == c);
            assert(digits_value(d.take(i - start + 1)) == acc);
        }
        if acc > 0xffff_ffff {
            proof {
                if all_digits(d) {
                    lemma_digits_prefix(d, i - start + 1);
                }
            }
            return None;
        }
        i = i + 1;
    }
    proof {
        assert(d.take(d.len() as int) =~= d);
    }
    Some(acc as u32)
}

} // verus!
