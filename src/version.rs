//! Version strings of the form `major.minor.patch`.
use vstd::prelude::*;

use crate::text::push_char;

verus! {

/// The pieces of `s` between occurrences of `sep`; always at least one.
pub open spec fn split_on(s: Seq<char>, sep: char) -> Seq<Seq<char>>
    decreases s.len(),
{
    if s.len() == 0 {
        seq![Seq::empty()]
    } else {
        let p = split_on(s.drop_last(), sep);
        if s.last() == sep {
            p.push(Seq::empty())
        } else {
            p.update(p.len() - 1, p.last().push(s.last()))
        }
    }
}

proof fn lemma_split_nonempty(s: Seq<char>, sep: char)
    ensures
        split_on(s, sep).len() >= 1,
    decreases s.len(),
{
    if s.len() > 0 {
        lemma_split_nonempty(s.drop_last(), sep);
    }
}

/// Splits `s` at every `sep`.
pub fn split_text(s: &str, sep: char) -> (r: Vec<String>)
    ensures
        r@.map_values(|p: String| p@) == split_on(s@, sep),
{
    let n = s.unicode_len();
    let mut done: Vec<String> = Vec::new();
    let mut cur = String::new();
    let mut i: usize = 0;
    while i < n
        invariant
            n == s@.len(),
            i <= n,
            done@.map_values(|p: String| p@).push(cur@) == split_on(s@.subrange(0, i as int), sep),
        decreases n - i,
    {
        let c = s.get_char(i);
        let ghost pre = s@.subrange(0, i as int);
        assert(s@.subrange(0, i as int + 1).drop_last() =~= pre);
        if c == sep {
            let ghost before = done@;
            done.push(cur);
            cur = String::new();
            assert(done@.map_values(|p: String| p@) =~= before.map_values(|p: String| p@).push(
                before.map_values(|p: String| p@).push(done@.last()@).last(),
            ));
            assert(done@.map_values(|p: String| p@).push(cur@) =~= split_on(pre, sep).push(
                Seq::empty(),
            ));
        } else {
            let ghost before = cur@;
            push_char(&mut cur, c);
            assert(done@.map_values(|p: String| p@).push(cur@) =~= split_on(pre, sep).update(
                split_on(pre, sep).len() - 1,
                split_on(pre, sep).last().push(c),
            ));
        }
        i = i + 1;
    }
    assert(s@.subrange(0, n as int) =~= s@);
    let ghost before = done@;
    done.push(cur);
    assert(done@.map_values(|p: String| p@) =~= before.map_values(|p: String| p@).push(cur@));
    done
}

pub open spec fn is_digit(c: char) -> bool {
    '0' <= c && c <= '9'
}

/// The number that a string of decimal digits denotes.
pub open spec fn digits_value(d: Seq<char>) -> int
    decreases d.len(),
{
    if d.len() == 0 {
        0
    } else {
        digits_value(d.drop_last()) * 10 + (d.last() as int - '0' as int)
    }
}

/// The digits of an unsigned number as std parses it: an optional `+`, then
/// the digits.
pub open spec fn unsigned_digits(s: Seq<char>) -> Seq<char> {
    if s.len() > 0 && s[0] == '+' {
        s.subrange(1, s.len() as int)
    } else {
        s
    }
}

/// The value of `s` as an unsigned integer no larger than `max`, if it is one.
pub open spec fn unsigned_value(s: Seq<char>, max: int) -> Option<int> {
    let d = unsigned_digits(s);
    if d.len() > 0 && (forall|i: int| 0 <= i < d.len() ==> is_digit(#[trigger] d[i])) && digits_value(
        d,
    ) <= max {
        Some(digits_value(d))
    } else {
        None
    }
}

proof fn lemma_digits_prefix(d: Seq<char>, i: int)
    requires
        0 <= i <= d.len(),
        forall|k: int| 0 <= k < d.len() ==> is_digit(#[trigger] d[k]),
    ensures
        0 <= digits_value(d.subrange(0, i)) <= digits_value(d),
    decreases d.len() - i,
{
    if i < d.len() {
        lemma_digits_prefix(d, i + 1);
        assert(d.subrange(0, i + 1).drop_last() =~= d.subrange(0, i));
    } else {
        assert(d.subrange(0, i) =~= d);
    }
    lemma_digits_nonneg(d.subrange(0, i));
}

proof fn lemma_digits_nonneg(d: Seq<char>)
    requires
        forall|k: int| 0 <= k < d.len() ==> is_digit(#[trigger] d[k]),
    ensures
        digits_value(d) >= 0,
    decreases d.len(),
{
    if d.len() > 0 {
        lemma_digits_nonneg(d.drop_last());
    }
}

/// Reads `s` as an unsigned integer no larger than `max`.
pub fn parse_unsigned(s: &str, max: u64) -> (r: Option<u64>)
    ensures
        r matches Some(v) ==> unsigned_value(s@, max as int) == Some(v as int),
        r is None ==> unsigned_value(s@, max as int) is None,
{
    let n = s.unicode_len();
    let start: usize = if n > 0 && s.get_char(0) == '+' {
        1
    } else {
        0
    };
    let ghost d = unsigned_digits(s@);
    assert(d =~= s@.subrange(start as int, n as int));
    if start == n {
        return None;
    }
    let mut v: u64 = 0;
    let mut i: usize = start;
    while i < n
        invariant
            n == s@.len(),
            start <= i <= n,
            d == s@.subrange(start as int, n as int),
            d == unsigned_digits(s@),
            forall|k: int| 0 <= k < i - start ==> is_digit(#[trigger] d[k]),
            v as int == digits_value(d.subrange(0, i - start)),
            v <= max,
        decreases n - i,
    {
        let c = s.get_char(i);
        assert(d[i - start] == c);
        if !('0' <= c && c <= '9') {
            assert(!is_digit(d[i - start]));
            return None;
        }
        let digit = (c as u32 - '0' as u32) as u64;
        assert(d.subrange(0, i - start + 1).drop_last() =~= d.subrange(0, i - start));
        if v > max / 10 || v * 10 > max || digit > max - v * 10 {
            proof {
                if v > max / 10 {
                    assert(v * 10 + digit > max) by (nonlinear_arith)
                        requires
                            v > max / 10,
                    ;
                }
                if unsigned_value(s@, max as int) is Some {
                    lemma_digits_prefix(d, i - start + 1);
                }
            }
            return None;
        }
        v = v * 10 + digit;
        i = i + 1;
    }
    assert(d.subrange(0, n - start) =~= d);
    Some(v)
}

/// A version text whose first three dot-separated pieces are numbers from
/// 0 to 255.
pub open spec fn is_version_text(s: Seq<char>) -> bool {
    let p = split_on(s, '.');
    &&& p.len() >= 3
    &&& unsigned_value(p[0], 255) is Some
    &&& unsigned_value(p[1], 255) is Some
    &&& unsigned_value(p[2], 255) is Some
}

/// The three numbers of a version text.
pub open spec fn version_of(s: Seq<char>) -> Seq<int> {
    let p = split_on(s, '.');
    seq![
        unsigned_value(p[0], 255)->Some_0,
        unsigned_value(p[1], 255)->Some_0,
        unsigned_value(p[2], 255)->Some_0,
    ]
}

/// Reads the first three numbers of a version text such as `1.2.3`.
pub fn parse_version(input: &str) -> (r: [u8; 3])
    requires
        is_version_text(input@),
    ensures
        r@.map_values(|x: u8| x as int) == version_of(input@),
{
    let parts = split_text(input, '.');
    let ghost p = split_on(input@, '.');
    assert(parts@[0]@ == p[0] && parts@[1]@ == p[1] && parts@[2]@ == p[2]);
    let a = parse_unsigned(parts[0].as_str(), 255);
    let b = parse_unsigned(parts[1].as_str(), 255);
    let c = parse_unsigned(parts[2].as_str(), 255);
    match (a, b, c) {
        (Some(a), Some(b), Some(c)) => {
            let r = [a as u8, b as u8, c as u8];
            assert(r@.map_values(|x: u8| x as int) =~= version_of(input@));
            r
        },
        _ => {
            proof {
                assert(false);
            }
            [0, 0, 0]
        },
    }
}

/// `a` comes after `b` in the order of (major, minor, patch).
pub open spec fn newer(a: Seq<int>, b: Seq<int>) -> bool {
    a[0] > b[0] || (a[0] == b[0] && (a[1] > b[1] || (a[1] == b[1] && a[2] > b[2])))
}

/// Whether `current_version` is strictly newer than `the_version`.
pub fn is_newer_version(current_version: &str, the_version: String) -> (r: bool)
    requires
        is_version_text(current_version@),
        is_version_text(the_version@),
    ensures
        r == newer(version_of(current_version@), version_of(the_version@)),
{
    let v1 = parse_version(current_version);
    let v2 = parse_version(the_version.as_str());
    assert(v1@.map_values(|x: u8| x as int)[0] == v1[0] as int);
    assert(v1@.map_values(|x: u8| x as int)[1] == v1[1] as int);
    assert(v1@.map_values(|x: u8| x as int)[2] == v1[2] as int);
    assert(v2@.map_values(|x: u8| x as int)[0] == v2[0] as int);
    assert(v2@.map_values(|x: u8| x as int)[1] == v2[1] as int);
    assert(v2@.map_values(|x: u8| x as int)[2] == v2[2] as int);
    v1[0] > v2[0] || (v1[0] == v2[0] && (v1[1] > v2[1] || (v1[1] == v2[1] && v1[2] > v2[2])))
}

/// A version number piece read leniently: anything that is not a number
/// counts as 0.
pub open spec fn lenient_number(p: Seq<char>) -> int {
    match unsigned_value(p, u32::MAX as int) {
        Some(v) => v,
        None => 0,
    }
}

/// Whether a script written for `version` may run on `this_version`: both
/// have exactly three pieces, major and minor agree, and the patch wanted
/// is no later than the one present.
pub open spec fn version_fits(version: Seq<char>, this_version: Seq<char>) -> bool {
    let a = split_on(version, '.');
    let b = split_on(this_version, '.');
    &&& a.len() == 3
    &&& b.len() == 3
    &&& lenient_number(a[0]) == lenient_number(b[0])
    &&& lenient_number(a[1]) == lenient_number(b[1])
    &&& lenient_number(a[2]) <= lenient_number(b[2])
}

fn read_lenient(p: &String) -> (r: u64)
    ensures
        r as int == lenient_number(p@),
{
    match parse_unsigned(p.as_str(), 4294967295) {
        Some(v) => v,
        None => 0,
    }
}

/// Checks that `this_version` can run what was written for `version`.
pub fn version_checker(version: &str, this_version: &str) -> (r: bool)
    ensures
        r == version_fits(version@, this_version@),
{
    let a = split_text(version, '.');
    if a.len() != 3 {
        return false;
    }
    let b = split_text(this_version, '.');
    if b.len() != 3 {
        return false;
    }
    let ghost pa = split_on(version@, '.');
    let ghost pb = split_on(this_version@, '.');
    assert(a@[0]@ == pa[0] && a@[1]@ == pa[1] && a@[2]@ == pa[2]);
    assert(b@[0]@ == pb[0] && b@[1]@ == pb[1] && b@[2]@ == pb[2]);
    let v_major = read_lenient(&a[0]);
    let v_minor = read_lenient(&a[1]);
    let v_patch = read_lenient(&a[2]);
    let u_major = read_lenient(&b[0]);
    let u_minor = read_lenient(&b[1]);
    let u_patch = read_lenient(&b[2]);
    if v_major != u_major {
        return false;
    }
    if v_minor != u_minor {
        return false;
    }
    if v_patch > u_patch {
        return false;
    }
    true
}

} // verus!
