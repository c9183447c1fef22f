//! Numeric lexemes: decimal integer parsing and the decimal float syntax.
//!
//! A numeric lexeme is tried first as a signed 64-bit integer with the
//! standard decimal syntax (an optional sign, then decimal digits, value
//! in range), and on failure as a 64-bit float with the standard decimal
//! float syntax (an optional sign, then `inf`, `infinity` or `nan`
//! case-insensitively, or digits with an optional point, fraction and
//! exponent).  The float value itself cannot be represented here; only
//! the syntax is decided, and the lexeme text is kept verbatim.

use vstd::prelude::*;

verus! {

/// Whether a character is an ASCII decimal digit.
pub open spec fn spec_digit(c: char) -> bool {
    '0' <= c && c <= '9'
}

/// The value of an ASCII decimal digit.
pub open spec fn digit_value(c: char) -> int {
    c as u32 - '0' as u32
}

/// Whether every character of the sequence is an ASCII decimal digit.
pub open spec fn all_digits(s: Seq<char>) -> bool {
    forall|i: int| 0 <= i < s.len() ==> spec_digit(#[trigger] s[i])
}

/// The value of a sequence of decimal digits, most significant first.
pub open spec fn dec_value(s: Seq<char>) -> int
    decreases s.len(),
{
    if s.len() == 0 {
        0
    } else {
        dec_value(s.drop_last()) * 10 + digit_value(s.last())
    }
}

/// The digits of an integer lexeme: everything after an optional
/// leading sign.
pub open spec fn int_digits(s: Seq<char>) -> Seq<char> {
    if s.len() > 0 && (s[0] == '+' || s[0] == '-') {
        s.drop_first()
    } else {
        s
    }
}

/// Whether an integer lexeme carries a leading minus sign.
pub open spec fn int_negative(s: Seq<char>) -> bool {
    s.len() > 0 && s[0] == '-'
}

/// The signed value of an integer lexeme.
pub open spec fn spec_int_value(s: Seq<char>) -> int {
    if int_negative(s) {
        -dec_value(int_digits(s))
    } else {
        dec_value(int_digits(s))
    }
}

/// Whether a lexeme has the standard decimal integer syntax with a value
/// that fits in a signed 64-bit integer: an optional sign, then one or
/// more decimal digits, the signed value in range.
pub open spec fn spec_int_lexeme(s: Seq<char>) -> bool {
    &&& int_digits(s).len() > 0
    &&& all_digits(int_digits(s))
    &&& i64::MIN <= spec_int_value(s) <= i64::MAX
}

/// The value of a digit sequence is never negative.
pub proof fn lemma_dec_value_nonneg(s: Seq<char>)
    requires
        all_digits(s),
    ensures
        0 <= dec_value(s),
    decreases s.len(),
{
    if s.len() > 0 {
        assert(all_digits(s.drop_last()));
        lemma_dec_value_nonneg(s.drop_last());
    }
}

/// Extending a digit prefix by one digit multiplies its value by ten and
/// adds the digit.
pub proof fn lemma_dec_value_take_step(s: Seq<char>, j: int)
    requires
        0 <= j < s.len(),
    ensures
        dec_value(s.take(j + 1)) == dec_value(s.take(j)) * 10 + digit_value(s[j]),
{
    assert(s.take(j + 1).drop_last() =~= s.take(j));
    assert(s.take(j + 1).last() == s[j]);
}

/// Over a run of digits, the value of a longer prefix is at least the
/// value of a shorter one.
pub proof fn lemma_dec_value_grows(s: Seq<char>, j: int, k: int)
    requires
        0 <= j <= k <= s.len(),
        forall|m: int| j <= m < k ==> spec_digit(#[trigger] s[m]),
        0 <= dec_value(s.take(j)),
    ensures
        dec_value(s.take(j)) <= dec_value(s.take(k)),
    decreases k - j,
{
    if j < k {
        lemma_dec_value_take_step(s, j);
        lemma_dec_value_grows(s, j + 1, k);
    }
}

/// Parses a lexeme as a signed 64-bit decimal integer.  Returns the
/// value exactly when the lexeme has the decimal integer syntax and the
/// value fits; returns nothing otherwise.
#[verifier::loop_isolation(false)]
pub fn parse_int_lexeme(v: &Vec<char>) -> (r: Option<i64>)
    ensures
        r is Some <==> spec_int_lexeme(v@),
        r is Some ==> r->0 as int == spec_int_value(v@),
{
    let n = v.len();
    let mut start: usize = 0;
    let mut neg = false;
    if n > 0 && (v[0] == '+' || v[0] == '-') {
        neg = v[0] == '-';
        start = 1;
    }
    let ghost d = int_digits(v@);
    proof {
        assert(d =~= v@.skip(start as int));
        assert(neg == int_negative(v@));
    }
    if start == n {
        return None;
    }
    let limit: u64 = if neg {
        9223372036854775808
    } else {
        9223372036854775807
    };
    let mut mag: u64 = 0;
    let mut j: usize = start;
    while j < n
        invariant
            start <= j <= n,
            forall|k: int| 0 <= k < j - start ==> spec_digit(#[trigger] d[k]),
            mag == dec_value(d.take(j - start)),
            mag <= limit,
        decreases n - j,
    {
        let c = v[j];
        proof {
            assert(d[j - start] == v@[j as int]);
        }
        if c < '0' || c > '9' {
            assert(!spec_digit(d[j - start]));
            return None;
        }
        let dv = (c as u32 - 48) as u64;
        proof {
            assert(dv == digit_value(c) && 0 <= digit_value(c) <= 9);
        }
        assert(limit / 10 == 922337203685477580 && (limit % 10 == 7 || limit % 10 == 8));
        if mag > limit / 10 || (mag == limit / 10 && dv > limit % 10) {
            proof {
                lemma_dec_value_take_step(d, j - start);
                assert(dec_value(d.take(j - start + 1)) > limit);
                if all_digits(d) {
                    lemma_dec_value_grows(d, j - start + 1, d.len() as int);
                    assert(d.take(d.len() as int) =~= d);
                    assert(dec_value(d) > limit);
                }
            }
            return None;
        }
        proof {
            lemma_dec_value_take_step(d, j - start);
        }
        mag = mag * 10 + dv;
        j = j + 1;
    }
    proof {
        assert(d.take(d.len() as int) =~= d);
        assert(all_digits(d));
    }
    if neg {
        if mag == 9223372036854775808 {
            Some(i64::MIN)
        } else {
            Some(-(mag as i64))
        }
    } else {
        Some(mag as i64)
    }
}

/// The length of the longest prefix made of ASCII decimal digits.
pub open spec fn digits_prefix_len(s: Seq<char>) -> nat
    decreases s.len(),
{
    if s.len() > 0 && spec_digit(s[0]) {
        1 + digits_prefix_len(s.drop_first())
    } else {
        0
    }
}

/// The digit prefix is made of digits, does not pass the end, and stops
/// at the first non-digit.
pub proof fn lemma_digits_prefix(s: Seq<char>)
    ensures
        digits_prefix_len(s) <= s.len(),
        forall|m: int| 0 <= m < digits_prefix_len(s) ==> spec_digit(#[trigger] s[m]),
        digits_prefix_len(s) < s.len() ==> !spec_digit(s[digits_prefix_len(s) as int]),
    decreases s.len(),
{
    if s.len() > 0 && spec_digit(s[0]) {
        lemma_digits_prefix(s.drop_first());
        assert forall|m: int| 0 <= m < digits_prefix_len(s) implies spec_digit(
            #[trigger] s[m],
        ) by {
            if m >= 1 {
                assert(s[m] == s.drop_first()[m - 1]);
            }
        }
        if digits_prefix_len(s) < s.len() {
            assert(s[digits_prefix_len(s) as int] == s.drop_first()[digits_prefix_len(
                s.drop_first(),
            ) as int]);
        }
    }
}

/// A count of leading digits stopping at the end or at a non-digit is
/// the digit prefix length.
pub proof fn lemma_digits_prefix_is(s: Seq<char>, k: int)
    requires
        0 <= k <= s.len(),
        forall|m: int| 0 <= m < k ==> spec_digit(#[trigger] s[m]),
        k == s.len() || !spec_digit(s[k]),
    ensures
        digits_prefix_len(s) == k,
    decreases s.len(),
{
    if k == 0 {
    } else {
        assert(spec_digit(s[0]));
        assert(forall|m: int| 0 <= m < k - 1 ==> spec_digit(#[trigger] s.drop_first()[m]));
        lemma_digits_prefix_is(s.drop_first(), k - 1);
    }
}

/// Everything after an optional leading sign.
pub open spec fn strip_sign(s: Seq<char>) -> Seq<char> {
    if s.len() > 0 && (s[0] == '+' || s[0] == '-') {
        s.drop_first()
    } else {
        s
    }
}

/// An ASCII upper-case letter folded to lower case; any other character
/// unchanged.
pub open spec fn ascii_lower(c: char) -> char {
    if 'A' <= c && c <= 'Z' {
        ((c as u32) + 32) as char
    } else {
        c
    }
}

/// Whether the sequence spells `inf`, `infinity` or `nan`, compared
/// case-insensitively.
pub open spec fn spec_float_keyword(s: Seq<char>) -> bool {
    ||| (s.len() == 3 && ascii_lower(s[0]) == 'i' && ascii_lower(s[1]) == 'n' && ascii_lower(s[2])
        == 'f')
    ||| (s.len() == 8 && ascii_lower(s[0]) == 'i' && ascii_lower(s[1]) == 'n' && ascii_lower(s[2])
        == 'f' && ascii_lower(s[3]) == 'i' && ascii_lower(s[4]) == 'n' && ascii_lower(s[5]) == 'i'
        && ascii_lower(s[6]) == 't' && ascii_lower(s[7]) == 'y')
    ||| (s.len() == 3 && ascii_lower(s[0]) == 'n' && ascii_lower(s[1]) == 'a' && ascii_lower(s[2])
        == 'n')
}

/// Whether the sequence is a well-formed exponent part (`e` or `E`, an
/// optional sign, one or more digits) or is empty.
pub open spec fn spec_exp_opt(s: Seq<char>) -> bool {
    ||| s.len() == 0
    ||| ((s[0] == 'e' || s[0] == 'E') && strip_sign(s.drop_first()).len() > 0 && all_digits(
        strip_sign(s.drop_first()),
    ))
}

/// Whether the sequence is a well-formed unsigned decimal float number:
/// digits with an optional point, optional fraction digits and an
/// optional exponent, or a point with fraction digits and an optional
/// exponent.
pub open spec fn spec_number(s: Seq<char>) -> bool {
    let c1 = digits_prefix_len(s) as int;
    if c1 > 0 {
        let r1 = s.skip(c1);
        if r1.len() > 0 && r1[0] == '.' {
            let r2 = r1.drop_first();
            spec_exp_opt(r2.skip(digits_prefix_len(r2) as int))
        } else {
            spec_exp_opt(r1)
        }
    } else {
        s.len() > 0 && s[0] == '.' && {
            let t = s.drop_first();
            digits_prefix_len(t) > 0 && spec_exp_opt(t.skip(digits_prefix_len(t) as int))
        }
    }
}

/// Whether a lexeme has the standard decimal float syntax: an optional
/// sign, then `inf`, `infinity` or `nan` case-insensitively, or a
/// decimal number.
pub open spec fn spec_float_lexeme(s: Seq<char>) -> bool {
    spec_float_keyword(strip_sign(s)) || spec_number(strip_sign(s))
}

/// The index just past the run of digits starting at `from`.
fn scan_digits(v: &Vec<char>, from: usize) -> (to: usize)
    requires
        from <= v.len(),
    ensures
        from <= to <= v.len(),
        to - from == digits_prefix_len(v@.skip(from as int)),
{
    let n = v.len();
    let mut to: usize = from;
    loop
        invariant
            n == v.len(),
            from <= to <= n,
            forall|m: int| 0 <= m < to - from ==> spec_digit(#[trigger] v@.skip(from as int)[m]),
        ensures
            n == v.len(),
            from <= to <= n,
            forall|m: int| 0 <= m < to - from ==> spec_digit(#[trigger] v@.skip(from as int)[m]),
            to == n || !spec_digit(v@[to as int]),
        decreases n - to,
    {
        if to == n {
            break ;
        }
        let c = v[to];
        if c < '0' || c > '9' {
            break ;
        }
        proof {
            assert(v@.skip(from as int)[to - from] == v@[to as int]);
        }
        to = to + 1;
    }
    proof {
        lemma_digits_prefix_is(v@.skip(from as int), to - from);
    }
    to
}

/// Whether folding `c` to lower case gives the ASCII lower-case letter
/// `l`.
fn matches_lower(c: char, l: char) -> (r: bool)
    requires
        'a' <= l && l <= 'z',
    ensures
        r == (ascii_lower(c) == l),
{
    let cu = c as u32;
    let lu = l as u32;
    cu == lu || cu + 32 == lu
}

/// Whether the characters from `from` on spell `inf`, `infinity` or
/// `nan`, compared case-insensitively.
fn check_float_keyword(v: &Vec<char>, from: usize) -> (r: bool)
    requires
        from <= v.len(),
    ensures
        r == spec_float_keyword(v@.skip(from as int)),
{
    let n = v.len();
    let len = n - from;
    if len == 3 {
        (matches_lower(v[from], 'i') && matches_lower(v[from + 1], 'n') && matches_lower(
            v[from + 2],
            'f',
        )) || (matches_lower(v[from], 'n') && matches_lower(v[from + 1], 'a') && matches_lower(
            v[from + 2],
            'n',
        ))
    } else if len == 8 {
        matches_lower(v[from], 'i') && matches_lower(v[from + 1], 'n') && matches_lower(
            v[from + 2],
            'f',
        ) && matches_lower(v[from + 3], 'i') && matches_lower(v[from + 4], 'n') && matches_lower(
            v[from + 5],
            'i',
        ) && matches_lower(v[from + 6], 't') && matches_lower(v[from + 7], 'y')
    } else {
        false
    }
}

/// Whether the characters from `from` on form a well-formed exponent
/// part, or there are none left.
fn check_exp_opt(v: &Vec<char>, from: usize) -> (r: bool)
    requires
        from <= v.len(),
    ensures
        r == spec_exp_opt(v@.skip(from as int)),
{
    let n = v.len();
    if from == n {
        return true;
    }
    let c = v[from];
    if !(c == 'e' || c == 'E') {
        return false;
    }
    let mut i = from + 1;
    if i < n && (v[i] == '+' || v[i] == '-') {
        i = i + 1;
    }
    proof {
        assert(v@.skip(from as int).drop_first() =~= v@.skip(from as int + 1));
        assert(strip_sign(v@.skip(from as int + 1)) =~= v@.skip(i as int));
    }
    if i == n {
        return false;
    }
    let j = scan_digits(v, i);
    proof {
        lemma_digits_prefix(v@.skip(i as int));
        if j == n {
            assert(all_digits(v@.skip(i as int)));
        } else {
            assert(!spec_digit(v@.skip(i as int)[j - i]));
        }
    }
    j == n
}

/// Whether the characters from `from` on form a well-formed unsigned
/// decimal float number.
fn check_number(v: &Vec<char>, from: usize) -> (r: bool)
    requires
        from <= v.len(),
    ensures
        r == spec_number(v@.skip(from as int)),
{
    let n = v.len();
    let ghost s = v@.skip(from as int);
    let d1 = scan_digits(v, from);
    if d1 > from {
        proof {
            assert(s.skip(d1 - from) =~= v@.skip(d1 as int));
        }
        if d1 < n && v[d1] == '.' {
            proof {
                assert(v@.skip(d1 as int).drop_first() =~= v@.skip(d1 as int + 1));
            }
            let d2 = scan_digits(v, d1 + 1);
            proof {
                assert(v@.skip(d1 as int + 1).skip(d2 - (d1 + 1)) =~= v@.skip(d2 as int));
            }
            check_exp_opt(v, d2)
        } else {
            check_exp_opt(v, d1)
        }
    } else {
        if from < n && v[from] == '.' {
            proof {
                assert(s.drop_first() =~= v@.skip(from as int + 1));
            }
            let d2 = scan_digits(v, from + 1);
            if d2 == from + 1 {
                false
            } else {
                proof {
                    assert(v@.skip(from as int + 1).skip(d2 - (from + 1)) =~= v@.skip(d2 as int));
                }
                check_exp_opt(v, d2)
            }
        } else {
            false
        }
    }
}

/// Decides whether a lexeme has the standard decimal float syntax.  The
/// float value itself is not computed here; the caller keeps the lexeme
/// text.
pub fn is_float_lexeme(v: &Vec<char>) -> (r: bool)
    ensures
        r == spec_float_lexeme(v@),
{
    let n = v.len();
    let mut from: usize = 0;
    if n > 0 && (v[0] == '+' || v[0] == '-') {
        from = 1;
    }
    proof {
        assert(strip_sign(v@) =~= v@.skip(from as int));
    }
    if check_float_keyword(v, from) {
        return true;
    }
    check_number(v, from)
}

} // verus!
