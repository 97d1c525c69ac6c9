//! The text forms of numbers that the protocol accepts: decimal counts and
//! floating-point literals. A word is a floating-point literal when it has
//! the form that std documents for reading an `f32` from text:
//!
//! ```text
//! Float  ::= Sign? ( 'inf' | 'infinity' | 'nan' | Number )
//! Number ::= ( Digit+ | Digit+ '.' Digit* | Digit* '.' Digit+ ) Exp?
//! Exp    ::= 'e' Sign? Digit+
//! Sign   ::= [+-]
//! Digit  ::= [0-9]
//! ```
//!
//! with letters in either case.

use vstd::prelude::*;

verus! {

/// An ASCII decimal digit.
pub open spec fn is_digit(c: char) -> bool {
    48 <= (c as u32) <= 57
}

/// A sign character.
pub open spec fn is_sign(c: char) -> bool {
    c == '+' || c == '-'
}

/// The number of decimal digits in `s` from position `i` on, up to the first
/// character that is not one.
pub open spec fn digit_run(s: Seq<char>, i: int) -> nat
    decreases s.len() - i,
{
    if 0 <= i < s.len() && is_digit(s[i]) {
        1 + digit_run(s, i + 1)
    } else {
        0
    }
}

/// `c` is the lower-case ASCII letter `l`, in either case.
pub open spec fn letter_is(c: char, l: char) -> bool {
    c == l || (c as u32) + 32 == (l as u32)
}

/// `s` spells the lower-case word `lit`, letters in either case.
pub open spec fn word_is(s: Seq<char>, lit: Seq<char>) -> bool {
    s.len() == lit.len() && forall|i: int| 0 <= i < s.len() ==> #[trigger] letter_is(s[i], lit[i])
}

/// From position `e` to its end, `s` is an exponent: `e` or `E`, an optional
/// sign, one or more digits.
pub open spec fn is_exponent_at(s: Seq<char>, e: int) -> bool {
    let j = if e + 1 < s.len() && is_sign(s[e + 1]) {
        e + 2
    } else {
        e + 1
    };
    &&& 0 <= e < s.len()
    &&& s[e] == 'e' || s[e] == 'E'
    &&& digit_run(s, j) > 0
    &&& j + digit_run(s, j) == s.len()
}

/// From position `p` to its end, `s` is a `Number`: digits, optionally a
/// point and more digits, with at least one digit in all, then an optional
/// exponent.
pub open spec fn is_number_at(s: Seq<char>, p: int) -> bool {
    let a = digit_run(s, p);
    let dot = p + a < s.len() && s[p + a] == '.';
    let f = if dot {
        digit_run(s, p + a + 1)
    } else {
        0
    };
    let e = if dot {
        p + a + 1 + f
    } else {
        p + a
    };
    a + f > 0 && (e == s.len() || is_exponent_at(s, e))
}

/// `s` is a floating-point literal.
pub open spec fn is_float_text(s: Seq<char>) -> bool {
    let p: int = if s.len() > 0 && is_sign(s[0]) {
        1
    } else {
        0
    };
    let b = s.skip(p);
    ||| word_is(b, seq!['i', 'n', 'f'])
    ||| word_is(b, seq!['i', 'n', 'f', 'i', 'n', 'i', 't', 'y'])
    ||| word_is(b, seq!['n', 'a', 'n'])
    ||| is_number_at(s, p)
}

/// Relies on `str::chars`: the characters of `s`, in order.
#[verifier::external_body]
pub(crate) fn chars_of(s: &str) -> (r: Vec<char>)
    ensures
        r@ == s@,
{
    s.chars().collect()
}

fn is_digit_char(c: char) -> (r: bool)
    ensures
        r == is_digit(c),
{
    let u = c as u32;
    48 <= u && u <= 57
}

fn is_sign_char(c: char) -> (r: bool)
    ensures
        r == is_sign(c),
{
    c == '+' || c == '-'
}

/// End of the run of digits that starts at `i`.
fn run_end(c: &Vec<char>, i: usize) -> (r: usize)
    requires
        i <= c.len(),
    ensures
        i <= r <= c.len(),
        r - i == digit_run(c@, i as int),
{
    let mut j: usize = i;
    while j < c.len() && is_digit_char(c[j])
        invariant
            i <= j <= c.len(),
            digit_run(c@, i as int) == (j - i) + digit_run(c@, j as int),
        decreases c.len() - j,
    {
        j += 1;
    }
    j
}

/// Whether the characters from `p` on spell `lit` (lower-case letters).
fn word_at(c: &Vec<char>, p: usize, lit: &Vec<char>) -> (r: bool)
    requires
        p <= c.len(),
        forall|i: int| 0 <= i < lit.len() ==> 97 <= #[trigger] (lit@[i] as u32) <= 122,
    ensures
        r == word_is(c@.skip(p as int), lit@),
{
    if c.len() - p != lit.len() {
        return false;
    }
    let mut i: usize = 0;
    while i < lit.len()
        invariant
            p + lit.len() == c.len(),
            i <= lit.len(),
            forall|i: int| 0 <= i < lit.len() ==> 97 <= #[trigger] (lit@[i] as u32) <= 122,
            forall|k: int| 0 <= k < i ==> #[trigger] letter_is(c@.skip(p as int)[k], lit@[k]),
        decreases lit.len() - i,
    {
        let x = c[p + i];
        let l = lit[i];
        assert(97 <= (lit@[i as int] as u32));
        if !(x == l || (x as u32) == (l as u32) - 32) {
            assert(!letter_is(c@.skip(p as int)[i as int], lit@[i as int]));
            return false;
        }
        i += 1;
    }
    true
}

fn is_float_chars(c: &Vec<char>) -> (r: bool)
    ensures
        r == is_float_text(c@),
{
    let ghost s = c@;
    let p: usize = if c.len() > 0 && is_sign_char(c[0]) {
        1
    } else {
        0
    };
    let inf = vec!['i', 'n', 'f'];
    let infinity = vec!['i', 'n', 'f', 'i', 'n', 'i', 't', 'y'];
    let nan = vec!['n', 'a', 'n'];
    assert(inf@ == seq!['i', 'n', 'f']);
    assert(infinity@ == seq!['i', 'n', 'f', 'i', 'n', 'i', 't', 'y']);
    assert(nan@ == seq!['n', 'a', 'n']);
    if word_at(c, p, &inf) || word_at(c, p, &infinity) || word_at(c, p, &nan) {
        return true;
    }
    let a_end = run_end(c, p);
    let mut e = a_end;
    let mut some_digit = a_end > p;
    if a_end < c.len() && c[a_end] == '.' {
        let f_end = run_end(c, a_end + 1);
        some_digit = some_digit || f_end > a_end + 1;
        e = f_end;
    }
    if !some_digit {
        return false;
    }
    if e == c.len() {
        return true;
    }
    if !(c[e] == 'e' || c[e] == 'E') {
        return false;
    }
    let j = if e + 1 < c.len() && is_sign_char(c[e + 1]) {
        e + 2
    } else {
        e + 1
    };
    let x_end = run_end(c, j);
    x_end > j && x_end == c.len()
}

/// Whether `w` is a floating-point literal.
pub fn is_float_word(w: &String) -> (r: bool)
    ensures
        r == is_float_text(w@),
{
    let c = chars_of(w.as_str());
    is_float_chars(&c)
}

/// Every character of `d` is a decimal digit.
pub open spec fn all_digits(d: Seq<char>) -> bool {
    forall|i: int| 0 <= i < d.len() ==> #[trigger] is_digit(d[i])
}

/// The number that a string of decimal digits writes.
pub open spec fn decimal_value(s: Seq<char>) -> nat
    decreases s.len(),
{
    if s.len() == 0 {
        0
    } else {
        decimal_value(s.drop_last()) * 10 + ((s.last() as u32) - 48) as nat
    }
}

/// The `usize` that `s` writes: an optional `+`, then one or more decimal
/// digits, of a value that fits.
pub open spec fn usize_of_text(s: Seq<char>) -> Option<usize> {
    let d = if s.len() > 0 && s[0] == '+' {
        s.drop_first()
    } else {
        s
    };
    if d.len() > 0 && all_digits(d) && decimal_value(d) <= usize::MAX {
        Some(decimal_value(d) as usize)
    } else {
        None
    }
}

/// A string of digits is worth at least as much as any of its prefixes.
proof fn lemma_prefix_value(s: Seq<char>, a: int, m: int, n: int)
    requires
        0 <= a <= m <= n <= s.len(),
        forall|j: int| a <= j < n ==> #[trigger] is_digit(s[j]),
    ensures
        decimal_value(s.subrange(a, m)) <= decimal_value(s.subrange(a, n)),
    decreases n - m,
{
    if m < n {
        lemma_prefix_value(s, a, m, n - 1);
        assert(s.subrange(a, n).drop_last() =~= s.subrange(a, n - 1));
        assert(is_digit(s[n - 1]));
    }
}

/// Reads a count: an optional `+` and one or more decimal digits whose value
/// fits in a `usize`.
pub fn parse_usize(s: &str) -> (r: Option<usize>)
    ensures
        r == usize_of_text(s@),
{
    let c = chars_of(s);
    let start: usize = if c.len() > 0 && c[0] == '+' {
        1
    } else {
        0
    };
    let ghost d = if c@.len() > 0 && c@[0] == '+' {
        c@.drop_first()
    } else {
        c@
    };
    assert(d =~= c@.subrange(start as int, c@.len() as int));
    if start == c.len() {
        return None;
    }
    let mut v: usize = 0;
    let mut overflow = false;
    let mut i: usize = start;
    while i < c.len()
        invariant
            c@ == s@,
            d == (if c@.len() > 0 && c@[0] == '+' {
                c@.drop_first()
            } else {
                c@
            }),
            d == c@.subrange(start as int, c@.len() as int),
            start < c.len(),
            start <= i <= c.len(),
            forall|j: int| start <= j < i ==> #[trigger] is_digit(c@[j]),
            !overflow ==> v == decimal_value(c@.subrange(start as int, i as int)),
            overflow ==> decimal_value(c@.subrange(start as int, i as int)) > usize::MAX,
        decreases c.len() - i,
    {
        if !is_digit_char(c[i]) {
            proof {
                assert(d[i - start] == c@[i as int]);
                assert(!is_digit(d[i - start]));
                assert(!all_digits(d));
            }
            return None;
        }
        let ghost prev = c@.subrange(start as int, i as int);
        assert(c@.subrange(start as int, i + 1).drop_last() =~= prev);
        if overflow {
            proof {
                lemma_prefix_value(c@, start as int, i as int, i + 1);
            }
        } else {
            let digit = (c[i] as u32 - 48) as usize;
            match v.checked_mul(10) {
                Some(t) => match t.checked_add(digit) {
                    Some(u) => {
                        v = u;
                    },
                    None => {
                        overflow = true;
                    },
                },
                None => {
                    overflow = true;
                },
            }
        }
        i += 1;
    }
    if overflow {
        None
    } else {
        Some(v)
    }
}

} // verus!
