//! Character-level utilities shared by the schema loader, the record reader
//! and the record validator: conversions between `str`, `Vec<char>` and byte
//! offsets, padding trims, and decimal rendering and parsing of `usize`.

use vstd::prelude::*;
use vstd::std_specs::iter::IteratorSpec;
use vstd::string::StringSliceAdditionalSpecFns;
use vstd::utf8::*;

verus! {

broadcast use vstd::string::group_string_axioms, vstd::utf8::group_utf8_lib;

/// The characters of `s`, in order.
pub fn str_to_chars(s: &str) -> (r: Vec<char>)
    ensures
        r@ == s@,
{
    let mut out: Vec<char> = Vec::new();
    let mut it = s.chars();
    loop
        invariant
            it.obeys_prophetic_iter_laws(),
            it.decrease() is Some,
            out@ + it.remaining() == s@,
        ensures
            out@ == s@,
        decreases it.decrease()->0,
    {
        match it.next() {
            Some(c) => {
                out.push(c);
            },
            None => {
                proof {
                    assert(it.remaining().len() == 0);
                    assert(out@ =~= out@ + it.remaining());
                }
                break ;
            },
        }
    }
    out
}

/// Relies on `core::iter::Iterator::collect` for `String`: collecting the
/// characters of a vector yields the string made of exactly those characters.
#[verifier::external_body]
pub fn chars_to_string(v: &Vec<char>) -> (r: String)
    ensures
        r@ == v@,
{
    v.iter().collect()
}

/// Whether two string slices hold the same characters.
pub fn str_eq(a: &str, b: &str) -> (r: bool)
    ensures
        r == (a@ == b@),
{
    let va = str_to_chars(a);
    let vb = str_to_chars(b);
    chars_eq(&va, &vb)
}

/// Whether two character vectors hold the same characters.
pub fn chars_eq(a: &Vec<char>, b: &Vec<char>) -> (r: bool)
    ensures
        r == (a@ == b@),
{
    if a.len() != b.len() {
        return false;
    }
    let mut i: usize = 0;
    while i < a.len()
        invariant
            0 <= i <= a@.len(),
            a@.len() == b@.len(),
            forall|j: int| 0 <= j < i ==> a@[j] == b@[j],
        decreases a@.len() - i,
    {
        if a[i] != b[i] {
            return false;
        }
        i += 1;
    }
    assert(a@ =~= b@);
    true
}

/// The substring of `s` between byte offsets `start` and `end`, as `str::get`
/// computes it: defined only when both offsets are in bounds, ordered, and on
/// character boundaries of the UTF-8 encoding.
pub open spec fn spec_byte_range(s: Seq<char>, start: int, end: int) -> Option<Seq<char>> {
    let bytes = encode_utf8(s);
    if 0 <= start <= end <= bytes.len() && is_char_boundary(bytes, start) && is_char_boundary(
        bytes,
        end,
    ) {
        Some(decode_utf8(bytes.subrange(start, end)))
    } else {
        None
    }
}

/// Extract the byte range `start..end` of `s`, or `None` when the offsets do
/// not denote a well-formed substring.
pub fn byte_range<'a>(s: &'a str, start: usize, end: usize) -> (r: Option<&'a str>)
    ensures
        r is Some <==> spec_byte_range(s@, start as int, end as int) is Some,
        r is Some ==> r->0@ == spec_byte_range(s@, start as int, end as int)->0,
{
    let ghost bytes = encode_utf8(s@);
    if start > end {
        return None;
    }
    if !s.is_char_boundary(start) || !s.is_char_boundary(end) {
        return None;
    }
    proof {
        if end != 0 {
            assert(is_char_boundary(bytes, end as int));
            assert(end as int <= bytes.len());
        }
    }
    let (prefix, _) = s.split_at(end);
    proof {
        assert(prefix.spec_bytes() == bytes.subrange(0, end as int));
        lemma_boundary_in_prefix(bytes, start as int, end as int);
    }
    let (_, mid) = prefix.split_at(start);
    proof {
        assert(mid.spec_bytes() =~= bytes.subrange(start as int, end as int));
        assert(decode_utf8(encode_utf8(mid@)) == mid@);
    }
    Some(mid)
}

/// A character boundary of a valid byte sequence is still one of any prefix
/// that is cut at a character boundary at or after it.
proof fn lemma_boundary_in_prefix(bytes: Seq<u8>, start: int, end: int)
    requires
        valid_utf8(bytes),
        0 <= start <= end <= bytes.len(),
        is_char_boundary(bytes, start),
        is_char_boundary(bytes, end),
    ensures
        is_char_boundary(bytes.subrange(0, end), start),
{
    let prefix = bytes.subrange(0, end);
    assert(valid_utf8(prefix));
    if start == 0 {
    } else if start == end {
    } else {
        assert(is_char_boundary(bytes, start) <==> !is_continuation_byte(bytes[start]));
        assert(prefix[start] == bytes[start]);
        assert(is_char_boundary(prefix, start) <==> !is_continuation_byte(prefix[start]));
    }
}

/// `s` with every leading character drawn from `pads` removed.
pub open spec fn spec_trim_start(s: Seq<char>, pads: Seq<char>) -> Seq<char>
    decreases s.len(),
{
    if s.len() > 0 && pads.contains(s[0]) {
        spec_trim_start(s.drop_first(), pads)
    } else {
        s
    }
}

/// `s` with every trailing character drawn from `pads` removed.
pub open spec fn spec_trim_end(s: Seq<char>, pads: Seq<char>) -> Seq<char>
    decreases s.len(),
{
    if s.len() > 0 && pads.contains(s[s.len() - 1]) {
        spec_trim_end(s.drop_last(), pads)
    } else {
        s
    }
}

/// `s` trimmed on both sides.
pub open spec fn spec_trim_both(s: Seq<char>, pads: Seq<char>) -> Seq<char> {
    spec_trim_end(spec_trim_start(s, pads), pads)
}

/// Whether `c` occurs in `pads`.
fn char_in(pads: &Vec<char>, c: char) -> (r: bool)
    ensures
        r == pads@.contains(c),
{
    let mut i: usize = 0;
    while i < pads.len()
        invariant
            0 <= i <= pads@.len(),
            forall|j: int| 0 <= j < i ==> pads@[j] != c,
        decreases pads@.len() - i,
    {
        if pads[i] == c {
            return true;
        }
        i += 1;
    }
    false
}

proof fn lemma_trim_start_index(s: Seq<char>, pads: Seq<char>, i: int)
    requires
        0 <= i <= s.len(),
        forall|j: int| 0 <= j < i ==> pads.contains(#[trigger] s[j]),
        i < s.len() ==> !pads.contains(s[i]),
    ensures
        spec_trim_start(s, pads) == s.subrange(i, s.len() as int),
    decreases i,
{
    if i == 0 {
        assert(s.subrange(0, s.len() as int) =~= s);
    } else {
        let t = s.drop_first();
        lemma_trim_start_index(t, pads, i - 1);
        assert(t.subrange(i - 1, t.len() as int) =~= s.subrange(i, s.len() as int));
    }
}

proof fn lemma_trim_end_index(s: Seq<char>, pads: Seq<char>, i: int)
    requires
        0 <= i <= s.len(),
        forall|j: int| i <= j < s.len() ==> pads.contains(#[trigger] s[j]),
        i > 0 ==> !pads.contains(s[i - 1]),
    ensures
        spec_trim_end(s, pads) == s.subrange(0, i),
    decreases s.len() - i,
{
    if i == s.len() {
        assert(s.subrange(0, s.len() as int) =~= s);
    } else {
        let t = s.drop_last();
        lemma_trim_end_index(t, pads, i);
        assert(t.subrange(0, i) =~= s.subrange(0, i));
    }
}

/// `v` with leading characters from `pads` removed.
pub fn trim_start_chars(v: &Vec<char>, pads: &Vec<char>) -> (r: Vec<char>)
    ensures
        r@ == spec_trim_start(v@, pads@),
{
    let mut i: usize = 0;
    while i < v.len() && char_in(pads, v[i])
        invariant
            0 <= i <= v@.len(),
            forall|j: int| 0 <= j < i ==> pads@.contains(#[trigger] v@[j]),
        decreases v@.len() - i,
    {
        i += 1;
    }
    proof {
        lemma_trim_start_index(v@, pads@, i as int);
    }
    copy_range(v, i, v.len())
}

/// `v` with trailing characters from `pads` removed.
pub fn trim_end_chars(v: &Vec<char>, pads: &Vec<char>) -> (r: Vec<char>)
    ensures
        r@ == spec_trim_end(v@, pads@),
{
    let mut i: usize = v.len();
    while i > 0 && char_in(pads, v[i - 1])
        invariant
            0 <= i <= v@.len(),
            forall|j: int| i <= j < v@.len() ==> pads@.contains(#[trigger] v@[j]),
        decreases i,
    {
        i -= 1;
    }
    proof {
        lemma_trim_end_index(v@, pads@, i as int);
    }
    copy_range(v, 0, i)
}

/// `v` trimmed on both sides.
pub fn trim_both_chars(v: &Vec<char>, pads: &Vec<char>) -> (r: Vec<char>)
    ensures
        r@ == spec_trim_both(v@, pads@),
{
    let started = trim_start_chars(v, pads);
    trim_end_chars(&started, pads)
}

/// The elements of `v` between `start` and `end`.
pub fn copy_range(v: &Vec<char>, start: usize, end: usize) -> (r: Vec<char>)
    requires
        0 <= start <= end <= v@.len(),
    ensures
        r@ == v@.subrange(start as int, end as int),
{
    let mut out: Vec<char> = Vec::new();
    let mut i: usize = start;
    while i < end
        invariant
            start <= i <= end <= v@.len(),
            out@ == v@.subrange(start as int, i as int),
        decreases end - i,
    {
        let c = v[i];
        out.push(c);
        proof {
            assert(out@ =~= v@.subrange(start as int, i + 1 as int));
        }
        i += 1;
    }
    out
}

/// The value of the decimal digit character `c`.
pub open spec fn spec_digit_value(c: char) -> nat {
    (c as u32 - '0' as u32) as nat
}

/// Whether `c` is an ASCII decimal digit.
pub open spec fn spec_is_digit(c: char) -> bool {
    '0' <= c && c <= '9'
}

/// The numeric value of a sequence of decimal digit characters.
pub open spec fn spec_digits_value(s: Seq<char>) -> nat
    decreases s.len(),
{
    if s.len() == 0 {
        0
    } else {
        spec_digits_value(s.drop_last()) * 10 + spec_digit_value(s[s.len() - 1])
    }
}

/// Whether every character of `s` is an ASCII decimal digit.
pub open spec fn spec_all_digits(s: Seq<char>) -> bool {
    forall|j: int| 0 <= j < s.len() ==> spec_is_digit(#[trigger] s[j])
}

/// The digit part of a number as `str::parse` sees it: everything after an
/// optional leading `+`.
pub open spec fn spec_parse_digits_of(s: Seq<char>) -> Seq<char> {
    if s.len() > 0 && s[0] == '+' {
        s.drop_first()
    } else {
        s
    }
}

/// How `str::parse::<usize>` reads `s`: an optional leading `+`, then one or
/// more ASCII digits, whose value must fit in `usize`.
pub open spec fn spec_parse_usize(s: Seq<char>) -> Option<nat> {
    if spec_parse_digits_of(s).len() > 0 && spec_all_digits(spec_parse_digits_of(s))
        && spec_digits_value(spec_parse_digits_of(s)) <= usize::MAX {
        Some(spec_digits_value(spec_parse_digits_of(s)))
    } else {
        None
    }
}

/// `str::parse::<usize>` on `s`, with `0` for any failure, as the schema
/// loader reads numeric attributes.
pub fn parse_usize_or_zero(v: &Vec<char>) -> (r: usize)
    ensures
        spec_parse_usize(v@) is Some ==> r == spec_parse_usize(v@)->0,
        spec_parse_usize(v@) is None ==> r == 0,
{
    let start: usize = if v.len() > 0 && v[0] == '+' {
        1
    } else {
        0
    };
    let ghost digits = if v@.len() > 0 && v@[0] == '+' {
        v@.drop_first()
    } else {
        v@
    };
    if v.len() == start {
        return 0;
    }
    let mut acc: usize = 0;
    let mut overflowed = false;
    let mut i: usize = start;
    while i < v.len()
        invariant
            start <= i <= v@.len(),
            start <= 1,
            start == 1 ==> v@.len() > 0 && v@[0] == '+',
            start == 0 ==> !(v@.len() > 0 && v@[0] == '+'),
            digits == v@.subrange(start as int, v@.len() as int),
            forall|j: int| start <= j < i ==> spec_is_digit(#[trigger] v@[j]),
            !overflowed ==> acc == spec_digits_value(v@.subrange(start as int, i as int)),
            overflowed ==> spec_digits_value(v@.subrange(start as int, i as int)) > usize::MAX,
        decreases v@.len() - i,
    {
        let c = v[i];
        if !('0' <= c && c <= '9') {
            proof {
                assert(!spec_is_digit(digits[i - start]));
                assert(digits =~= spec_parse_digits_of(v@));
                assert(!spec_all_digits(spec_parse_digits_of(v@)));
                assert(spec_parse_usize(v@) is None);
            }
            return 0;
        }
        let d: usize = (c as u32 as usize) - ('0' as u32 as usize);
        let ghost prefix = v@.subrange(start as int, i as int);
        let ghost extended = v@.subrange(start as int, i + 1 as int);
        proof {
            assert(extended.drop_last() =~= prefix);
            assert(extended[extended.len() - 1] == v@[i as int]);
        }
        proof {
            assert(spec_digits_value(extended) == spec_digits_value(prefix) * 10
                + spec_digit_value(v@[i as int]));
            assert(spec_digit_value(v@[i as int]) == d);
        }
        if !overflowed {
            match acc.checked_mul(10) {
                Some(m) => {
                    match m.checked_add(d) {
                        Some(t) => {
                            acc = t;
                        },
                        None => {
                            overflowed = true;
                            proof {
                                assert(spec_digits_value(extended) > usize::MAX);
                            }
                        },
                    }
                },
                None => {
                    overflowed = true;
                    proof {
                        assert(spec_digits_value(prefix) * 10 > usize::MAX);
                        assert(spec_digits_value(extended) > usize::MAX);
                    }
                },
            }
        } else {
            proof {
                assert(extended =~= prefix.push(v@[i as int]));
                lemma_digits_grow(prefix, v@[i as int]);
            }
        }
        i += 1;
    }
    proof {
        assert(v@.subrange(start as int, v@.len() as int) =~= digits);
        assert forall|j: int| 0 <= j < digits.len() implies spec_is_digit(
            #[trigger] digits[j],
        ) by {
            assert(digits[j] == v@[start + j]);
        }
    }
    if overflowed {
        0
    } else {
        acc
    }
}

/// Appending a digit to a sequence whose value exceeds a bound keeps the
/// value over that bound.
proof fn lemma_digits_grow(prefix: Seq<char>, c: char)
    requires
        spec_digits_value(prefix) > usize::MAX,
    ensures
        spec_digits_value(prefix.push(c)) > usize::MAX,
{
    let whole = prefix.push(c);
    assert(whole.drop_last() =~= prefix);
    assert(spec_digits_value(whole) == spec_digits_value(prefix) * 10 + spec_digit_value(c));
    assert(spec_digits_value(prefix) * 10 >= spec_digits_value(prefix)) by (nonlinear_arith)
        requires
            spec_digits_value(prefix) >= 0,
    ;
}

/// The decimal rendering of `n`, most significant digit first.
pub open spec fn spec_usize_chars(n: nat) -> Seq<char>
    decreases n,
{
    if n < 10 {
        seq![spec_char_of_digit(n)]
    } else {
        spec_usize_chars(n / 10).push(spec_char_of_digit(n % 10))
    }
}

/// The digit character for a value below ten.
pub open spec fn spec_char_of_digit(d: nat) -> char {
    (('0' as u32) + d) as char
}

/// Render `n` in decimal, as `usize::to_string` would.
pub fn usize_to_chars(n: usize) -> (r: Vec<char>)
    ensures
        r@ == spec_usize_chars(n as nat),
{
    let mut rev: Vec<char> = Vec::new();
    let mut m: usize = n;
    loop
        invariant_except_break
            rev@.len() == 0 ==> m == n,
            rev@.len() > 0 ==> m > 0 && spec_usize_chars(n as nat) == spec_usize_chars(m as nat)
                + rev@.reverse(),
        ensures
            rev@.len() > 0,
            spec_usize_chars(n as nat) == rev@.reverse(),
        decreases m,
    {
        let d: u8 = (m % 10) as u8;
        let zero: u8 = 48;
        let c: char = (zero + d) as char;
        let ghost old_rev = rev@;
        let ghost old_m = m as nat;
        rev.push(c);
        m = m / 10;
        proof {
            assert(c == spec_char_of_digit(old_m % 10)) by {
                assert(c as u32 == '0' as u32 + old_m % 10);
            }
            assert(rev@.reverse() =~= seq![c] + old_rev.reverse());
            if old_rev.len() == 0 {
                if old_m < 10 {
                    assert(spec_usize_chars(old_m) =~= seq![c] + old_rev.reverse());
                } else {
                    assert(spec_usize_chars(old_m) == spec_usize_chars(old_m / 10).push(c));
                    assert(spec_usize_chars(old_m) =~= spec_usize_chars(m as nat) + rev@.reverse());
                }
            } else {
                if old_m < 10 {
                    assert(spec_usize_chars(old_m) =~= seq![c]);
                    assert(spec_usize_chars(n as nat) =~= rev@.reverse());
                } else {
                    assert(spec_usize_chars(old_m) == spec_usize_chars(old_m / 10).push(c));
                    assert(spec_usize_chars(old_m) + old_rev.reverse() =~= spec_usize_chars(
                        m as nat,
                    ) + rev@.reverse());
                }
            }
        }
        if m == 0 {
            proof {
                assert(spec_usize_chars(n as nat) == rev@.reverse());
            }
            break ;
        }
    }
    let ghost whole = rev@;
    let mut out: Vec<char> = Vec::new();
    let mut i: usize = rev.len();
    while i > 0
        invariant
            0 <= i <= rev@.len(),
            rev@ == whole,
            out@ == rev@.subrange(i as int, rev@.len() as int).reverse(),
        decreases i,
    {
        i -= 1;
        let c = rev[i];
        out.push(c);
        proof {
            assert(out@ =~= rev@.subrange(i as int, rev@.len() as int).reverse());
        }
    }
    proof {
        assert(rev@.subrange(0, rev@.len() as int) =~= rev@);
        assert(out@ == rev@.reverse());
    }
    out
}

/// Append every character of `src` to `dst`.
pub fn push_all(dst: &mut Vec<char>, src: &Vec<char>)
    ensures
        final(dst)@ == old(dst)@ + src@,
{
    let mut i: usize = 0;
    while i < src.len()
        invariant
            0 <= i <= src@.len(),
            dst@ == old(dst)@ + src@.subrange(0, i as int),
        decreases src@.len() - i,
    {
        let c = src[i];
        dst.push(c);
        proof {
            assert(dst@ =~= old(dst)@ + src@.subrange(0, i + 1 as int));
        }
        i += 1;
    }
    proof {
        assert(src@.subrange(0, src@.len() as int) =~= src@);
    }
}

/// Relies on `String::from_utf8`: it succeeds exactly on valid UTF-8 input
/// and yields the decoded characters.
#[verifier::external_body]
pub fn bytes_to_string(bytes: Vec<u8>) -> (r: Option<String>)
    ensures
        r is Some <==> valid_utf8(bytes@),
        r is Some ==> r->0@ == decode_utf8(bytes@),
{
    match String::from_utf8(bytes) {
        Ok(s) => Some(s),
        Err(_) => None,
    }
}

/// What `str::to_lowercase` returns: a function of the characters alone.
pub uninterp spec fn lower_of(s: Seq<char>) -> Seq<char>;

/// Relies on `str::to_lowercase`: the result depends only on the input
/// characters.
#[verifier::external_body]
pub fn lowercase(s: &str) -> (r: String)
    ensures
        r@ == lower_of(s@),
{
    s.to_lowercase()
}

} // verus!
