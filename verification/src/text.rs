//! Character-sequence utilities shared by the grammar compiler, the parsing
//! engine and the HTML generator. All text inside the library is handled as
//! vectors of `char`, viewed as `Seq<char>`.
use vstd::prelude::*;

verus! {

use vstd::string::StrSliceExecFns;

/// ASCII whitespace: space, tab, newline, carriage return, vertical tab, form feed.
pub open spec fn is_space_char(c: char) -> bool {
    c == ' ' || c == '\t' || c == '\n' || c == '\r' || c == '\u{b}' || c == '\u{c}'
}

/// `needle` occurs in `hay` starting at position `i`.
pub open spec fn match_at(hay: Seq<char>, needle: Seq<char>, i: int) -> bool {
    0 <= i && i + needle.len() <= hay.len() && hay.subrange(i, i + needle.len()) == needle
}

/// Position of the first occurrence of `needle` in `hay` at or after `from`.
pub open spec fn find_from(hay: Seq<char>, needle: Seq<char>, from: int) -> Option<int>
    decreases hay.len() - from,
{
    if from + needle.len() > hay.len() {
        Option::None
    } else if needle.len() == 0 {
        Option::Some(from)
    } else if match_at(hay, needle, from) {
        Option::Some(from)
    } else {
        find_from(hay, needle, from + 1)
    }
}

proof fn lemma_find_from_bounds(hay: Seq<char>, needle: Seq<char>, from: int)
    ensures
        match find_from(hay, needle, from) {
            Option::Some(i) => from <= i && i + needle.len() <= hay.len(),
            Option::None => true,
        },
    decreases hay.len() - from,
{
    if from + needle.len() > hay.len() {
    } else if needle.len() == 0 {
    } else if match_at(hay, needle, from) {
    } else {
        lemma_find_from_bounds(hay, needle, from + 1);
    }
}

/// Split on every occurrence of `sep`, scanning left to right from `from`.
/// An empty separator yields the remainder as a single part.
pub open spec fn split_rec(s: Seq<char>, sep: Seq<char>, from: int) -> Seq<Seq<char>>
    decreases s.len() - from,
    via split_rec_dec
{
    if sep.len() == 0 {
        seq![s.subrange(from, s.len() as int)]
    } else {
        match find_from(s, sep, from) {
            Option::Some(i) => seq![s.subrange(from, i)] + split_rec(s, sep, i + sep.len()),
            Option::None => seq![s.subrange(if from <= s.len() { from } else { s.len() as int }, s.len() as int)],
        }
    }
}

#[via_fn]
proof fn split_rec_dec(s: Seq<char>, sep: Seq<char>, from: int) {
    if sep.len() > 0 {
        lemma_find_from_bounds(s, sep, from);
    }
}

/// The digits of `n` in decimal, most significant first.
pub open spec fn dec_digit(d: nat) -> char {
    if d == 0 { '0' }
    else if d == 1 { '1' }
    else if d == 2 { '2' }
    else if d == 3 { '3' }
    else if d == 4 { '4' }
    else if d == 5 { '5' }
    else if d == 6 { '6' }
    else if d == 7 { '7' }
    else if d == 8 { '8' }
    else { '9' }
}

pub open spec fn dec_chars(n: nat) -> Seq<char>
    decreases n,
{
    if n < 10 {
        seq![dec_digit(n)]
    } else {
        dec_chars(n / 10).push(dec_digit(n % 10))
    }
}

/// `s` ends with `p`.
pub open spec fn seq_ends_with(s: Seq<char>, p: Seq<char>) -> bool {
    p.len() <= s.len() && s.subrange(s.len() - p.len(), s.len() as int) == p
}

/// Leading whitespace ends at this index.
pub open spec fn trim_start_idx(s: Seq<char>, i: int) -> int
    decreases s.len() - i,
{
    if 0 <= i < s.len() && is_space_char(s[i]) {
        trim_start_idx(s, i + 1)
    } else {
        i
    }
}

/// Trailing whitespace starts at this index.
pub open spec fn trim_end_idx(s: Seq<char>, j: int) -> int
    decreases j,
{
    if 0 < j <= s.len() && is_space_char(s[j - 1]) {
        trim_end_idx(s, j - 1)
    } else {
        j
    }
}

/// `s` with leading and trailing ASCII whitespace removed.
pub open spec fn trim_spec(s: Seq<char>) -> Seq<char> {
    let a = trim_start_idx(s, 0);
    let b = trim_end_idx(s, s.len() as int);
    if a < b {
        s.subrange(a, b)
    } else {
        Seq::empty()
    }
}

/// Builds a `String` out of the accumulated characters.
///
/// Relies on `Iterator::collect` for `String` from `char`s: the collected
/// string consists of exactly the characters of the iterator, in order.
#[verifier::external_body]
pub(crate) fn chars_to_string(v: &Vec<char>) -> (s: String)
    ensures
        s@ == v@,
{
    v.iter().collect()
}

/// Appends every character of `s` to `acc`.
pub fn push_str_chars(acc: &mut Vec<char>, s: &str)
    ensures
        final(acc)@ == old(acc)@ + s@,
{
    let n = s.unicode_len();
    let mut i: usize = 0;
    while i < n
        invariant
            n == s@.len(),
            i <= n,
            acc@ == old(acc)@ + s@.subrange(0, i as int),
        decreases n - i,
    {
        acc.push(s.get_char(i));
        i = i + 1;
        proof {
            assert(old(acc)@ + s@.subrange(0, i as int) =~= old(acc)@ + s@.subrange(
                0,
                i - 1,
            ) + seq![s@[i - 1]]);
        }
    }
    proof {
        assert(s@.subrange(0, n as int) =~= s@);
    }
}

/// The characters of `s` as a vector.
pub fn str_to_chars(s: &str) -> (v: Vec<char>)
    ensures
        v@ == s@,
{
    let mut v: Vec<char> = Vec::new();
    push_str_chars(&mut v, s);
    v
}

/// A copy of `v`.
pub fn clone_chars(v: &Vec<char>) -> (r: Vec<char>)
    ensures
        r@ == v@,
{
    copy_range(v, 0, v.len())
}

/// A copy of `v[from..to]`.
pub fn copy_range(v: &Vec<char>, from: usize, to: usize) -> (r: Vec<char>)
    requires
        from <= to <= v@.len(),
    ensures
        r@ == v@.subrange(from as int, to as int),
{
    let mut r: Vec<char> = Vec::new();
    let mut i = from;
    while i < to
        invariant
            from <= i <= to <= v@.len(),
            r@ == v@.subrange(from as int, i as int),
        decreases to - i,
    {
        r.push(v[i]);
        i = i + 1;
        proof {
            assert(v@.subrange(from as int, i as int) =~= v@.subrange(from as int, i - 1).push(
                v@[i - 1],
            ));
        }
    }
    r
}

/// Appends `src[from..to]` to `acc`.
pub fn push_range(acc: &mut Vec<char>, src: &Vec<char>, from: usize, to: usize)
    requires
        from <= to <= src@.len(),
    ensures
        final(acc)@ == old(acc)@ + src@.subrange(from as int, to as int),
{
    let mut i = from;
    while i < to
        invariant
            from <= i <= to <= src@.len(),
            acc@ == old(acc)@ + src@.subrange(from as int, i as int),
        decreases to - i,
    {
        acc.push(src[i]);
        i = i + 1;
        proof {
            assert(old(acc)@ + src@.subrange(from as int, i as int) =~= old(acc)@ + src@.subrange(
                from as int,
                i - 1,
            ) + seq![src@[i - 1]]);
        }
    }
}

/// The two vectors hold the same characters.
pub fn chars_eq(a: &Vec<char>, b: &Vec<char>) -> (r: bool)
    ensures
        r == (a@ == b@),
{
    if a.len() != b.len() {
        return false;
    }
    let mut i: usize = 0;
    while i < a.len()
        invariant
            i <= a@.len(),
            a@.len() == b@.len(),
            forall|j: int| 0 <= j < i ==> a@[j] == b@[j],
        decreases a@.len() - i,
    {
        if a[i] != b[i] {
            return false;
        }
        i = i + 1;
    }
    proof {
        assert(a@ =~= b@);
    }
    true
}

/// `v` holds exactly the characters of `s`.
pub fn chars_eq_str(v: &Vec<char>, s: &str) -> (r: bool)
    ensures
        r == (v@ == s@),
{
    let sv = str_to_chars(s);
    chars_eq(v, &sv)
}

/// Whether `needle` occurs in `hay` at position `pos`.
pub fn starts_with_at(hay: &Vec<char>, pos: usize, needle: &Vec<char>) -> (r: bool)
    requires
        pos <= hay@.len(),
    ensures
        r == match_at(hay@, needle@, pos as int),
{
    let hlen = hay.len();
    let nlen = needle.len();
    if nlen > hlen - pos {
        return false;
    }
    let mut j: usize = 0;
    while j < nlen
        invariant
            j <= nlen,
            nlen == needle@.len(),
            hlen == hay@.len(),
            pos + nlen <= hlen,
            forall|k: int| 0 <= k < j ==> hay@[pos + k] == needle@[k],
        decreases nlen - j,
    {
        if hay[pos + j] != needle[j] {
            proof {
                assert(hay@.subrange(pos as int, pos + needle@.len())[j as int] != needle@[j as int]);
            }
            return false;
        }
        j = j + 1;
    }
    proof {
        assert(hay@.subrange(pos as int, pos + needle@.len()) =~= needle@);
    }
    true
}

/// Position of the first occurrence of `needle` in `hay` at or after `from`.
pub fn find_sub_from(hay: &Vec<char>, needle: &Vec<char>, from: usize) -> (r: Option<usize>)
    requires
        from <= hay@.len(),
    ensures
        match r {
            Option::Some(i) => find_from(hay@, needle@, from as int) == Option::Some(i as int)
                && from <= i && i + needle@.len() <= hay@.len()
                && match_at(hay@, needle@, i as int),
            Option::None => find_from(hay@, needle@, from as int) is None,
        },
{
    if needle.len() > hay.len() - from {
        return Option::None;
    }
    let bound = hay.len() - needle.len();
    let mut i = from;
    loop
        invariant
            from <= i <= bound,
            bound == hay@.len() - needle@.len(),
            find_from(hay@, needle@, from as int) == find_from(hay@, needle@, i as int),
        decreases bound - i,
    {
        if starts_with_at(hay, i, needle) {
            return Option::Some(i);
        }
        proof {
            assert(needle@.len() > 0) by {
                if needle@.len() == 0 {
                    assert(hay@.subrange(i as int, i as int) =~= needle@);
                }
            }
        }
        if i >= bound {
            proof {
                assert(find_from(hay@, needle@, i + 1) is None);
            }
            return Option::None;
        }
        i = i + 1;
    }
}

/// Position of the first occurrence of `needle` in `hay`.
pub fn find_sub(hay: &Vec<char>, needle: &Vec<char>) -> (r: Option<usize>)
    ensures
        match r {
            Option::Some(i) => find_from(hay@, needle@, 0) == Option::Some(i as int)
                && i + needle@.len() <= hay@.len()
                && match_at(hay@, needle@, i as int),
            Option::None => find_from(hay@, needle@, 0) is None,
        },
{
    find_sub_from(hay, needle, 0)
}

/// All the parts of `s` split on `sep`.
pub fn split_sub(s: &Vec<char>, sep: &Vec<char>) -> (r: Vec<Vec<char>>)
    requires
        sep@.len() > 0,
    ensures
        r@.map_values(|p: Vec<char>| p@) == split_rec(s@, sep@, 0),
{
    let mut r: Vec<Vec<char>> = Vec::new();
    let mut from: usize = 0;
    loop
        invariant
            from <= s@.len(),
            sep@.len() > 0,
            split_rec(s@, sep@, 0) == r@.map_values(|p: Vec<char>| p@) + split_rec(
                s@,
                sep@,
                from as int,
            ),
        decreases s@.len() - from,
    {
        let ghost r_before = r@;
        let slen = s.len();
        match find_sub_from(s, sep, from) {
            Option::Some(i) => {
                proof {
                    assert(i + sep@.len() <= slen);
                }
                let part = copy_range(s, from, i);
                r.push(part);
                proof {
                    assert(r@.map_values(|p: Vec<char>| p@) =~= r_before.map_values(
                        |p: Vec<char>| p@,
                    ) + seq![s@.subrange(from as int, i as int)]);
                }
                from = i + sep.len();
            },
            Option::None => {
                let part = copy_range(s, from, s.len());
                r.push(part);
                proof {
                    assert(r@.map_values(|p: Vec<char>| p@) =~= r_before.map_values(
                        |p: Vec<char>| p@,
                    ) + seq![s@.subrange(from as int, s@.len() as int)]);
                }
                return r;
            },
        }
    }
}

/// `s` with leading and trailing ASCII whitespace removed.
pub fn trim_chars(v: &Vec<char>) -> (r: Vec<char>)
    ensures
        r@ == trim_spec(v@),
{
    let mut a: usize = 0;
    while a < v.len() && is_space_exec(v[a])
        invariant
            a <= v@.len(),
            trim_start_idx(v@, 0) == trim_start_idx(v@, a as int),
        decreases v@.len() - a,
    {
        a = a + 1;
    }
    let mut b: usize = v.len();
    while b > 0 && is_space_exec(v[b - 1])
        invariant
            b <= v@.len(),
            trim_end_idx(v@, v@.len() as int) == trim_end_idx(v@, b as int),
        decreases b,
    {
        b = b - 1;
    }
    if a < b {
        copy_range(v, a, b)
    } else {
        Vec::new()
    }
}

/// Whether `c` is ASCII whitespace.
pub fn is_space_exec(c: char) -> (r: bool)
    ensures
        r == is_space_char(c),
{
    c == ' ' || c == '\t' || c == '\n' || c == '\r' || c == '\u{b}' || c == '\u{c}'
}

/// Whether `acc` ends with `pat`.
pub fn ends_with(acc: &Vec<char>, pat: &Vec<char>) -> (r: bool)
    ensures
        r == seq_ends_with(acc@, pat@),
{
    let alen = acc.len();
    let plen = pat.len();
    if plen > alen {
        return false;
    }
    let mut j: usize = 0;
    let base = alen - plen;
    while j < plen
        invariant
            j <= plen,
            plen == pat@.len(),
            alen == acc@.len(),
            base == alen - plen,
            forall|k: int| 0 <= k < j ==> acc@[base + k] == pat@[k],
        decreases plen - j,
    {
        if acc[base + j] != pat[j] {
            proof {
                assert(acc@.subrange(acc@.len() - pat@.len(), acc@.len() as int)[j as int] != pat@[
                    j as int
                ]);
            }
            return false;
        }
        j = j + 1;
    }
    proof {
        assert(acc@.subrange(acc@.len() - pat@.len(), acc@.len() as int) =~= pat@);
    }
    true
}

/// Appends the decimal digits of `n` to `acc`.
pub fn push_dec(acc: &mut Vec<char>, n: usize)
    ensures
        final(acc)@ == old(acc)@ + dec_chars(n as nat),
    decreases n,
{
    if n >= 10 {
        push_dec(acc, n / 10);
        acc.push(dec_digit_exec(n % 10));
        proof {
            assert(acc@ =~= old(acc)@ + dec_chars(n as nat));
        }
    } else {
        acc.push(dec_digit_exec(n));
        proof {
            assert(acc@ =~= old(acc)@ + dec_chars(n as nat));
        }
    }
}

/// The character for decimal digit `d`.
pub fn dec_digit_exec(d: usize) -> (c: char)
    ensures
        c == dec_digit(d as nat),
{
    if d == 0 { '0' }
    else if d == 1 { '1' }
    else if d == 2 { '2' }
    else if d == 3 { '3' }
    else if d == 4 { '4' }
    else if d == 5 { '5' }
    else if d == 6 { '6' }
    else if d == 7 { '7' }
    else if d == 8 { '8' }
    else { '9' }
}

} // verus!
