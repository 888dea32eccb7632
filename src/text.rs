use vstd::prelude::*;
use vstd::slice::slice_subrange;

use crate::error::Error;

verus! {

/// Whether `c` is a Unicode `White_Space` character.
pub open spec fn is_space(c: char) -> bool {
    let u = c as u32;
    (0x09 <= u && u <= 0x0d) || u == 0x20 || u == 0x85 || u == 0xa0 || u == 0x1680
        || (0x2000 <= u && u <= 0x200a) || u == 0x2028 || u == 0x2029 || u == 0x202f
        || u == 0x205f || u == 0x3000
}

/// `s` without its leading white space.
pub open spec fn trim_start(s: Seq<char>) -> Seq<char>
    decreases s.len(),
{
    if s.len() > 0 && is_space(s[0]) {
        trim_start(s.drop_first())
    } else {
        s
    }
}

/// `s` without its trailing white space.
pub open spec fn trim_end(s: Seq<char>) -> Seq<char>
    decreases s.len(),
{
    if s.len() > 0 && is_space(s.last()) {
        trim_end(s.drop_last())
    } else {
        s
    }
}

/// `s` without white space at either end.
pub open spec fn trim(s: Seq<char>) -> Seq<char> {
    trim_end(trim_start(s))
}

/// `i` is the position of the first `d` in `s`.
pub open spec fn first_at<A>(s: Seq<A>, d: A, i: int) -> bool {
    0 <= i < s.len() && s[i] == d && forall|j: int| 0 <= j < i ==> s[j] != d
}

/// The position of the first `d` in `s`, if there is one.
pub open spec fn index_of<A>(s: Seq<A>, d: A) -> Option<int> {
    if exists|i: int| first_at(s, d, i) {
        Some(choose|i: int| first_at(s, d, i))
    } else {
        None
    }
}

/// The first `d` found by a scan is the one that `index_of` names.
pub proof fn lemma_index_of_found<A>(s: Seq<A>, d: A, i: int)
    requires
        first_at(s, d, i),
    ensures
        index_of(s, d) == Some(i),
{
    let k = choose|k: int| first_at(s, d, k);
    assert(first_at(s, d, k));
    if k < i {
        assert(s[k] != d);
    } else if k > i {
        assert(s[i] != d);
    }
}

/// A sequence without `d` has no first `d`.
pub proof fn lemma_index_of_absent<A>(s: Seq<A>, d: A)
    requires
        forall|j: int| 0 <= j < s.len() ==> s[j] != d,
    ensures
        index_of(s, d) is None,
{
}

/// The pieces of `s` between occurrences of `d`, as `str::split` gives them.
pub open spec fn split_all(s: Seq<char>, d: char) -> Seq<Seq<char>>
    decreases s.len(),
{
    if index_of(s, d) is Some {
        let i = index_of(s, d)->0;
        if 0 <= i < s.len() {
            seq![s.subrange(0, i)] + split_all(s.subrange(i + 1, s.len() as int), d)
        } else {
            seq![s]
        }
    } else {
        seq![s]
    }
}

/// The line `s` split at the first `d`, both halves trimmed; `None` where
/// `s` holds no `d`.
pub open spec fn key_value(s: Seq<char>, d: char) -> Option<(Seq<char>, Seq<char>)> {
    match index_of(s, d) {
        Some(i) => Some((trim(s.subrange(0, i)), trim(s.subrange(i + 1, s.len() as int)))),
        None => None,
    }
}

/// A line `k:v` whose key part holds no colon splits into the trimmed key
/// and the trimmed value, whatever the value holds.
pub proof fn lemma_header_line_splits(k: Seq<char>, v: Seq<char>)
    requires
        forall|j: int| 0 <= j < k.len() ==> k[j] != ':',
    ensures
        key_value(k + seq![':'] + v, ':') == Some((trim(k), trim(v))),
{
    let s = k + seq![':'] + v;
    lemma_index_of_found(s, ':', k.len() as int);
    assert(s.subrange(0, k.len() as int) =~= k);
    assert(s.subrange(k.len() as int + 1, s.len() as int) =~= v);
}

/// Relies on `char::is_whitespace`: true exactly for the `White_Space` characters.
#[verifier::external_body]
fn char_is_space(c: char) -> (r: bool)
    ensures
        r == is_space(c),
{
    c.is_whitespace()
}

/// Relies on `str::chars`: the characters of `s`, in order.
#[verifier::external_body]
pub(crate) fn chars_of(s: &str) -> (r: Vec<char>)
    ensures
        r@ == s@,
{
    s.chars().collect()
}

/// Relies on `FromIterator<&char> for String`: the characters of `v`, in order.
#[verifier::external_body]
pub(crate) fn string_of(v: &[char]) -> (r: String)
    ensures
        r@ == v@,
{
    v.iter().collect()
}

/// The characters of `s` in `lo..hi` as a string.
pub(crate) fn substring(s: &Vec<char>, lo: usize, hi: usize) -> (r: String)
    requires
        lo <= hi <= s@.len(),
    ensures
        r@ == s@.subrange(lo as int, hi as int),
{
    string_of(slice_subrange(s.as_slice(), lo, hi))
}

/// The bounds of `trim(s[lo..hi])` within `s`.
pub(crate) fn trim_range(s: &Vec<char>, lo: usize, hi: usize) -> (r: (usize, usize))
    requires
        lo <= hi <= s@.len(),
    ensures
        lo <= r.0 <= r.1 <= hi,
        s@.subrange(r.0 as int, r.1 as int) == trim(s@.subrange(lo as int, hi as int)),
{
    let mut a: usize = lo;
    while a < hi && char_is_space(s[a])
        invariant
            lo <= a <= hi <= s@.len(),
            trim_start(s@.subrange(lo as int, hi as int)) == trim_start(
                s@.subrange(a as int, hi as int),
            ),
        decreases hi - a,
    {
        assert(s@.subrange(a as int, hi as int).drop_first() =~= s@.subrange(
            a + 1,
            hi as int,
        ));
        a = a + 1;
    }
    assert(trim_start(s@.subrange(a as int, hi as int)) == s@.subrange(a as int, hi as int));
    let mut b: usize = hi;
    while b > a && char_is_space(s[b - 1])
        invariant
            lo <= a <= b <= hi <= s@.len(),
            trim_end(s@.subrange(a as int, hi as int)) == trim_end(s@.subrange(a as int, b as int)),
        decreases b - a,
    {
        assert(s@.subrange(a as int, b as int).drop_last() =~= s@.subrange(a as int, b - 1));
        b = b - 1;
    }
    (a, b)
}

/// The position of the first `d` in `s[lo..hi]`, counted from the start of `s`.
pub(crate) fn find_char(s: &Vec<char>, d: char, lo: usize, hi: usize) -> (r: Option<usize>)
    requires
        lo <= hi <= s@.len(),
    ensures
        match r {
            Some(i) => lo <= i < hi && index_of(s@.subrange(lo as int, hi as int), d) == Some(
                i - lo,
            ),
            None => index_of(s@.subrange(lo as int, hi as int), d) is None,
        },
{
    let mut i: usize = lo;
    while i < hi
        invariant
            lo <= i <= hi <= s@.len(),
            forall|j: int| lo <= j < i ==> s@[j] != d,
        decreases hi - i,
    {
        if s[i] == d {
            proof {
                lemma_index_of_found(s@.subrange(lo as int, hi as int), d, i - lo);
            }
            return Some(i);
        }
        i = i + 1;
    }
    proof {
        lemma_index_of_absent(s@.subrange(lo as int, hi as int), d);
    }
    None
}

/// `key_value` of `s[lo..hi]`, as two strings.
pub(crate) fn key_value_range(s: &Vec<char>, lo: usize, hi: usize, delimiter: char) -> (r: Option<
    (String, String),
>)
    requires
        lo <= hi <= s@.len(),
    ensures
        match key_value(s@.subrange(lo as int, hi as int), delimiter) {
            Some(kv) => r matches Some(p) && p.0@ == kv.0 && p.1@ == kv.1,
            None => r is None,
        },
{
    let ghost sub = s@.subrange(lo as int, hi as int);
    match find_char(s, delimiter, lo, hi) {
        Some(i) => {
            let (ka, kb) = trim_range(s, lo, i);
            let (va, vb) = trim_range(s, i + 1, hi);
            assert(sub.subrange(0, i - lo) =~= s@.subrange(lo as int, i as int));
            assert(sub.subrange(i - lo + 1, sub.len() as int) =~= s@.subrange(i + 1, hi as int));
            Some((substring(s, ka, kb), substring(s, va, vb)))
        },
        None => None,
    }
}

/// Splits `line` at the first `delimiter` and trims both halves.
pub fn get_key_value(line: &str, delimiter: char) -> (r: Result<(String, String), Error>)
    ensures
        match key_value(line@, delimiter) {
            Some(kv) => r matches Ok(p) && p.0@ == kv.0 && p.1@ == kv.1,
            None => r == Err::<(String, String), Error>(Error::ParsingError),
        },
{
    let s = chars_of(line);
    let n = s.len();
    assert(s@.subrange(0, n as int) =~= s@);
    match key_value_range(&s, 0, n, delimiter) {
        Some(p) => Ok(p),
        None => Err(Error::ParsingError),
    }
}

/// The bounds within `s` of the pieces of `split_all(s, d)`.
pub(crate) fn split_ranges(s: &Vec<char>, d: char) -> (r: Vec<(usize, usize)>)
    ensures
        r@.len() == split_all(s@, d).len(),
        forall|k: int|
            0 <= k < r@.len() ==> (#[trigger] r@[k]).0 <= r@[k].1 <= s@.len() && s@.subrange(
                r@[k].0 as int,
                r@[k].1 as int,
            ) == split_all(s@, d)[k],
{
    let n = s.len();
    let mut start: usize = 0;
    let mut r: Vec<(usize, usize)> = Vec::new();
    let ghost mut done: Seq<Seq<char>> = Seq::empty();
    assert(s@.subrange(0, n as int) =~= s@);
    loop
        invariant
            start <= n == s@.len(),
            r@.len() == done.len(),
            forall|k: int|
                0 <= k < r@.len() ==> (#[trigger] r@[k]).0 <= r@[k].1 <= s@.len()
                    && s@.subrange(r@[k].0 as int, r@[k].1 as int) == done[k],
            split_all(s@, d) == done + split_all(s@.subrange(start as int, n as int), d),
        decreases n - start,
    {
        let ghost sub = s@.subrange(start as int, n as int);
        let ghost old_done = done;
        match find_char(s, d, start, n) {
            Some(i) => {
                proof {
                    assert(sub.subrange(0, i - start) =~= s@.subrange(start as int, i as int));
                    assert(sub.subrange(i - start + 1, sub.len() as int) =~= s@.subrange(
                        i + 1,
                        n as int,
                    ));
                    assert(done + split_all(sub, d) =~= done.push(
                        s@.subrange(start as int, i as int),
                    ) + split_all(s@.subrange(i + 1, n as int), d));
                    done = done.push(s@.subrange(start as int, i as int));
                }
                let ghost old_r = r@;
                r.push((start, i));
                assert forall|k: int| 0 <= k < r@.len() implies (#[trigger] r@[k]).0 <= r@[k].1 <= s@.len()
                    && s@.subrange(r@[k].0 as int, r@[k].1 as int) == done[k] by {
                    if k < old_r.len() {
                        assert(r@[k] == old_r[k]);
                        assert(done[k] == old_done[k]);
                    }
                }
                start = i + 1;
            },
            None => {
                proof {
                    assert(done + split_all(sub, d) =~= done.push(sub));
                    done = done.push(sub);
                }
                let ghost old_r = r@;
                r.push((start, n));
                assert forall|k: int| 0 <= k < r@.len() implies (#[trigger] r@[k]).0 <= r@[k].1 <= s@.len()
                    && s@.subrange(r@[k].0 as int, r@[k].1 as int) == done[k] by {
                    if k < old_r.len() {
                        assert(r@[k] == old_r[k]);
                        assert(done[k] == old_done[k]);
                    }
                }
                assert(split_all(s@, d) =~= done);
                return r;
            },
        }
    }
}

} // verus!

verus! {

/// Whether `s` holds exactly the characters of `lit`.
pub(crate) fn same_text(s: &String, lit: &str) -> (r: bool)
    ensures
        r == (s@ == lit@),
{
    let t = lit.to_owned();
    *s == t
}

} // verus!
