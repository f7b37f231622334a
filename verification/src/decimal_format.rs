//! A Java-style `DecimalFormat` pattern compiler. A pattern is split on `;`
//! into a positive and an optional negative sub-pattern (quotes protect
//! literal text), each sub-pattern is translated into an anchored regex, and
//! validation accepts an input matched by either regex.

use vstd::prelude::*;

use crate::regex_support::{regex_is_match, regex_matches, regex_new, regex_ok, regex_source};
use crate::text::{chars_to_string, push_all, str_to_chars};

verus! {

/// A compiled decimal-format pattern: one validating regex for positive
/// values and one for negative values.
#[derive(Debug)]
pub struct DecimalFormat {
    positive_regex: regex::Regex,
    negative_regex: regex::Regex,
}

/// The characters with a meaning outside quoted sections of a pattern.
pub open spec fn spec_is_special(c: char) -> bool {
    c == '\'' || c == '(' || c == ')' || c == '0' || c == '.' || c == ',' || c == '#' || c == ';'
        || c == '\u{a4}' || c == '%'
}

/// One pattern character applied to the quote-aware splitter: the parts
/// collected so far and the quote state, or the offending character.
pub open spec fn spec_split_step(parts: Seq<Seq<char>>, inq: bool, c: char) -> Result<
    (Seq<Seq<char>>, bool),
    char,
>
    recommends
        parts.len() > 0,
{
    if !inq && c == '\'' {
        Ok((spec_push_last(parts, c), true))
    } else if inq && c == '\'' {
        Ok((spec_push_last(parts, c), false))
    } else if !inq && !spec_is_special(c) {
        Err(c)
    } else if !inq && c == ';' {
        Ok((parts.push(seq![]), inq))
    } else {
        Ok((spec_push_last(parts, c), inq))
    }
}

/// Append `c` to the last part.
pub open spec fn spec_push_last(parts: Seq<Seq<char>>, c: char) -> Seq<Seq<char>>
    recommends
        parts.len() > 0,
{
    parts.update(parts.len() - 1, parts.last().push(c))
}

/// The splitter run from position `i` of `p` onwards.
pub open spec fn spec_split_from(p: Seq<char>, i: int, parts: Seq<Seq<char>>, inq: bool) -> Result<
    (Seq<Seq<char>>, bool),
    char,
>
    decreases p.len() - i,
{
    if i < 0 || i >= p.len() {
        Ok((parts, inq))
    } else {
        match spec_split_step(parts, inq, p[i]) {
            Err(c) => Err(c),
            Ok((ps, q)) => spec_split_from(p, i + 1, ps, q),
        }
    }
}

/// The `;`-separated parts of a pattern, or the first character that is
/// neither special nor quoted.
pub open spec fn spec_split(p: Seq<char>) -> Result<Seq<Seq<char>>, char> {
    match spec_split_from(p, 0, seq![seq![]], false) {
        Err(c) => Err(c),
        Ok((parts, q)) => Ok(parts),
    }
}

/// One sub-pattern character applied to the regex translator.
pub open spec fn spec_to_regex_step(acc: Seq<char>, inq: bool, c: char) -> (Seq<char>, bool) {
    if !inq && c == '\'' {
        (acc, true)
    } else if inq && c == '\'' {
        (acc, false)
    } else if inq {
        (acc.push(c), inq)
    } else if c == '0' {
        (acc + seq!['\\', 'd'], inq)
    } else if c == '#' {
        (acc + seq!['\\', 'd', '?'], inq)
    } else if c == ',' {
        (acc + seq!['\\', ','], inq)
    } else if c == '.' {
        (acc + seq!['\\', '.'], inq)
    } else if c == ';' {
        (acc + seq!['\\', ';'], inq)
    } else if c == '\u{a4}' {
        (acc + seq!['\\', '$'], inq)
    } else {
        (acc.push(c), inq)
    }
}

/// The regex translator run from position `i` of `p` onwards.
pub open spec fn spec_to_regex_from(p: Seq<char>, i: int, acc: Seq<char>, inq: bool) -> (
    Seq<char>,
    bool,
)
    decreases p.len() - i,
{
    if i < 0 || i >= p.len() {
        (acc, inq)
    } else {
        let (a, q) = spec_to_regex_step(acc, inq, p[i]);
        spec_to_regex_from(p, i + 1, a, q)
    }
}

/// The anchored regex emitted for one sub-pattern.
pub open spec fn spec_to_regex(p: Seq<char>) -> Seq<char> {
    spec_to_regex_from(p, 0, seq!['^'], false).0.push('$')
}

/// The positive sub-pattern of `p`.
pub open spec fn spec_positive_sub(p: Seq<char>) -> Seq<char>
    recommends
        spec_split(p) is Ok,
{
    spec_split(p)->Ok_0[0]
}

/// The negative sub-pattern of `p`: the second part, or the positive one,
/// prefixed with a literal minus sign.
pub open spec fn spec_negative_sub(p: Seq<char>) -> Seq<char>
    recommends
        spec_split(p) is Ok,
{
    let parts = spec_split(p)->Ok_0;
    if parts.len() >= 2 {
        seq!['-'] + parts[1]
    } else {
        seq!['-'] + parts[0]
    }
}

/// The regex that validates positive values of pattern `p`.
pub open spec fn spec_positive_regex(p: Seq<char>) -> Seq<char> {
    spec_to_regex(spec_positive_sub(p))
}

/// The regex that validates negative values of pattern `p`.
pub open spec fn spec_negative_regex(p: Seq<char>) -> Seq<char> {
    spec_to_regex(spec_negative_sub(p))
}

/// Whether compiling pattern `p` succeeds: the split is clean, it yields at
/// most two parts, and both emitted regexes compile.
pub open spec fn spec_decimal_ok(p: Seq<char>) -> bool {
    &&& spec_split(p) is Ok
    &&& spec_split(p)->Ok_0.len() <= 2
    &&& regex_ok(spec_positive_regex(p))
    &&& regex_ok(spec_negative_regex(p))
}

/// The message reported when compiling pattern `p` fails.
pub open spec fn spec_decimal_err(p: Seq<char>) -> Seq<char>
    recommends
        !spec_decimal_ok(p),
{
    if spec_split(p) is Err {
        "Invalid character: "@.push(spec_split(p)->Err_0)
    } else if spec_split(p)->Ok_0.len() > 2 {
        "Invalid pattern"@
    } else {
        "Invalid regex pattern"@
    }
}

impl DecimalFormat {
    /// The pattern the positive regex was built from.
    pub closed spec fn positive_source(self) -> Seq<char> {
        regex_source(self.positive_regex)
    }

    /// The pattern the negative regex was built from.
    pub closed spec fn negative_source(self) -> Seq<char> {
        regex_source(self.negative_regex)
    }

    /// Compile `pattern`. Fails on a character that is neither special nor
    /// quoted, on more than two `;`-separated parts, and on an emitted regex
    /// that the regex engine refuses.
    pub fn new(pattern: &str) -> (r: Result<Self, String>)
        ensures
            r is Ok <==> spec_decimal_ok(pattern@),
            r is Ok ==> r->Ok_0.positive_source() == spec_positive_regex(pattern@),
            r is Ok ==> r->Ok_0.negative_source() == spec_negative_regex(pattern@),
            r is Err ==> r->Err_0@ == spec_decimal_err(pattern@),
    {
        let chars = str_to_chars(pattern);
        let mut part0: Vec<char> = Vec::new();
        let mut part1: Vec<char> = Vec::new();
        let mut part_index: usize = 0;
        let mut in_quotes = false;
        let ghost mut parts_full: Seq<Seq<char>> = seq![seq![]];
        let mut i: usize = 0;
        while i < chars.len()
            invariant
                0 <= i <= chars@.len(),
                chars@ == pattern@,
                part_index <= i,
                parts_full.len() == part_index + 1,
                part0@ == parts_full[0],
                part_index == 0 ==> part1@.len() == 0,
                part_index >= 1 ==> part1@ == parts_full[1],
                spec_split_from(pattern@, i as int, parts_full, in_quotes) == spec_split_from(
                    pattern@,
                    0,
                    seq![seq![]],
                    false,
                ),
            decreases chars@.len() - i,
        {
            let c = chars[i];
            let special = c == '\'' || c == '(' || c == ')' || c == '0' || c == '.' || c == ','
                || c == '#' || c == ';' || c == '\u{a4}' || c == '%';
            if !in_quotes && c == '\'' {
                in_quotes = true;
                if part_index == 0 {
                    part0.push(c);
                } else if part_index == 1 {
                    part1.push(c);
                }
                proof {
                    parts_full = spec_push_last(parts_full, c);
                }
            } else if in_quotes && c == '\'' {
                in_quotes = false;
                if part_index == 0 {
                    part0.push(c);
                } else if part_index == 1 {
                    part1.push(c);
                }
                proof {
                    parts_full = spec_push_last(parts_full, c);
                }
            } else if !in_quotes && !special {
                proof {
                    assert(spec_split(pattern@) is Err && spec_split(pattern@)->Err_0 == c);
                }
                let mut msg = str_to_chars("Invalid character: ");
                msg.push(c);
                return Err(chars_to_string(&msg));
            } else if c == ';' && !in_quotes {
                part_index += 1;
                proof {
                    parts_full = parts_full.push(seq![]);
                }
            } else {
                if part_index == 0 {
                    part0.push(c);
                } else if part_index == 1 {
                    part1.push(c);
                }
                proof {
                    parts_full = spec_push_last(parts_full, c);
                }
            }
            proof {
                if part_index >= 1 {
                    assert(part1@ == parts_full[1]);
                }
                assert(part0@ == parts_full[0]);
            }
            i += 1;
        }
        proof {
            assert(spec_split(pattern@) is Ok && spec_split(pattern@)->Ok_0 == parts_full);
        }
        if part_index >= 2 {
            return Err(chars_to_string(&str_to_chars("Invalid pattern")));
        }
        let mut negative_sub: Vec<char> = Vec::new();
        negative_sub.push('-');
        if part_index == 1 {
            push_all(&mut negative_sub, &part1);
        } else {
            push_all(&mut negative_sub, &part0);
        }
        proof {
            assert(negative_sub@ =~= spec_negative_sub(pattern@));
            assert(part0@ == spec_positive_sub(pattern@));
        }
        let positive_rx = Self::pattern_to_regex(&part0);
        let negative_rx = Self::pattern_to_regex(&negative_sub);
        let positive_regex = match regex_new(chars_to_string(&positive_rx).as_str()) {
            Some(re) => re,
            None => {
                return Err(chars_to_string(&str_to_chars("Invalid regex pattern")));
            },
        };
        let negative_regex = match regex_new(chars_to_string(&negative_rx).as_str()) {
            Some(re) => re,
            None => {
                return Err(chars_to_string(&str_to_chars("Invalid regex pattern")));
            },
        };
        Ok(DecimalFormat { positive_regex, negative_regex })
    }

    /// Whether `input` matches the positive or the negative regex.
    pub fn validate_number(&self, input: &str) -> (r: Result<(), &'static str>)
        ensures
            r is Ok <==> (regex_matches(self.positive_source(), input@) || regex_matches(
                self.negative_source(),
                input@,
            )),
            r is Err ==> r->Err_0@ == "Input does not match pattern"@,
    {
        if regex_is_match(&self.positive_regex, input) || regex_is_match(
            &self.negative_regex,
            input,
        ) {
            Ok(())
        } else {
            Err("Input does not match pattern")
        }
    }

    /// Translate one sub-pattern into an anchored regex.
    fn pattern_to_regex(sub: &Vec<char>) -> (r: Vec<char>)
        ensures
            r@ == spec_to_regex(sub@),
    {
        let mut acc: Vec<char> = Vec::new();
        acc.push('^');
        let mut in_quotes = false;
        let mut i: usize = 0;
        while i < sub.len()
            invariant
                0 <= i <= sub@.len(),
                spec_to_regex_from(sub@, i as int, acc@, in_quotes) == spec_to_regex_from(
                    sub@,
                    0,
                    seq!['^'],
                    false,
                ),
            decreases sub@.len() - i,
        {
            let c = sub[i];
            let ghost before = acc@;
            if !in_quotes && c == '\'' {
                in_quotes = true;
            } else if in_quotes && c == '\'' {
                in_quotes = false;
            } else if in_quotes {
                acc.push(c);
            } else if c == '0' {
                acc.push('\\');
                acc.push('d');
                proof {
                    assert(acc@ =~= before + seq!['\\', 'd']);
                }
            } else if c == '#' {
                acc.push('\\');
                acc.push('d');
                acc.push('?');
                proof {
                    assert(acc@ =~= before + seq!['\\', 'd', '?']);
                }
            } else if c == ',' {
                acc.push('\\');
                acc.push(',');
                proof {
                    assert(acc@ =~= before + seq!['\\', ',']);
                }
            } else if c == '.' {
                acc.push('\\');
                acc.push('.');
                proof {
                    assert(acc@ =~= before + seq!['\\', '.']);
                }
            } else if c == ';' {
                acc.push('\\');
                acc.push(';');
                proof {
                    assert(acc@ =~= before + seq!['\\', ';']);
                }
            } else if c == '\u{a4}' {
                acc.push('\\');
                acc.push('$');
                proof {
                    assert(acc@ =~= before + seq!['\\', '$']);
                }
            } else {
                acc.push(c);
            }
            i += 1;
        }
        acc.push('$');
        acc
    }
}

} // verus!
