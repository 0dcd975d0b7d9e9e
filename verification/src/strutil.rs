//! Characters, strings and decimal numerals: the ground the wire formats
//! are built on.
//!
//! Everything here is verified except two thin wrappers over std:
//! appending one character to a `String`, and turning a code point back
//! into a `char`.

use vstd::prelude::*;
use vstd::string::StrSliceExecFns;

verus! {

/// Whether `v` is a Unicode scalar value, i.e. the code of some `char`:
/// not a surrogate and not above `char::MAX`.
pub open spec fn is_scalar_value(v: u32) -> bool {
    v < 0xD800 || (0xE000 <= v && v <= 0x10FFFF)
}

/// Whether `c` sits at a Unicode scalar code point.  Every character a
/// program can hold satisfies this; spec-level reasoning about the
/// characters inside a sequence needs it stated, and [`char_code`] is the
/// executable witness.
pub open spec fn valid_char(c: char) -> bool {
    (0 <= c as int && (c as int) < 0xD800) || (0xE000 <= c as int && c as int <= 0x10FFFF)
}

/// Whether every character of `s` sits at a Unicode scalar code point.
pub open spec fn valid_chars(s: Seq<char>) -> bool {
    forall|i: int| 0 <= i < s.len() ==> valid_char(#[trigger] s[i])
}

/// The code point of `c`, together with the facts that hold of every
/// character: it is a Unicode scalar value, and the cast loses nothing.
pub fn char_code(c: char) -> (r: u32)
    ensures
        r == c as u32,
        r as int == c as int,
        valid_char(c),
{
    c as u32
}

/// Relies on `char::from_u32`: it returns `Some` exactly when `v` is a
/// Unicode scalar value (not a surrogate, not above `char::MAX`), and the
/// returned character sits at code point `v`.
#[verifier::external_body]
pub(crate) fn char_from_u32(v: u32) -> (r: Option<char>)
    ensures
        r is Some <==> is_scalar_value(v),
        r matches Some(c) ==> c as u32 == v && c as int == v as int && valid_char(c),
{
    char::from_u32(v)
}

/// Relies on `String::push`: it appends the given character to the end of
/// the string.
#[verifier::external_body]
pub(crate) fn push_char(s: &mut String, c: char)
    ensures
        final(s)@ == old(s)@.push(c),
{
    s.push(c);
}

/// The characters of `s`, as a vector.
pub fn string_to_chars(s: &str) -> (v: Vec<char>)
    ensures
        v@ == s@,
        valid_chars(s@),
{
    let n = s.unicode_len();
    let mut v: Vec<char> = Vec::new();
    let mut i: usize = 0;
    while i < n
        invariant
            i <= n,
            n == s@.len(),
            v@ == s@.take(i as int),
            valid_chars(v@),
        decreases n - i,
    {
        let ghost prev = v@;
        let c = s.get_char(i);
        char_code(c);
        v.push(c);
        proof {
            assert(v@ =~= s@.take(i + 1));
            assert forall|j: int| 0 <= j < v@.len() implies valid_char(#[trigger] v@[j]) by {
                if j < prev.len() {
                    assert(v@[j] == prev[j]);
                    assert(valid_char(prev[j]));
                }
            }
        }
        i += 1;
    }
    proof {
        assert(s@.take(n as int) =~= s@);
        assert(valid_chars(s@));
    }
    v
}

/// A `String` holding exactly the characters of `v`.
pub fn chars_to_string(v: &Vec<char>) -> (s: String)
    ensures
        s@ == v@,
{
    let n = v.len();
    let mut s = String::new();
    let mut i: usize = 0;
    while i < n
        invariant
            i <= n,
            n == v@.len(),
            s@ == v@.take(i as int),
        decreases n - i,
    {
        push_char(&mut s, v[i]);
        proof {
            assert(s@ =~= v@.take(i + 1));
        }
        i += 1;
    }
    proof {
        assert(v@.take(n as int) =~= v@);
    }
    s
}

/// Whether `c` is a decimal digit.
pub open spec fn is_digit(c: char) -> bool {
    48 <= c as int && c as int <= 57
}

/// Whether `c` is a decimal digit, decided executably.
pub fn is_digit_x(c: char) -> (r: bool)
    ensures
        r == is_digit(c),
{
    let code = char_code(c);
    48 <= code && code <= 57
}

/// The value of the decimal digit `c`.
pub open spec fn digit_val(c: char) -> int {
    c as int - 48
}

/// The decimal digit character for `d` in `0..=9`.
pub open spec fn dec_digit(d: int) -> char {
    ((48 + d) as u8) as char
}

/// The digit character of `d` is a digit and carries the value `d`.
pub proof fn lemma_dec_digit_val(d: int)
    requires
        0 <= d < 10,
    ensures
        is_digit(dec_digit(d)),
        digit_val(dec_digit(d)) == d,
{
    assert(((48 + d) as u8) as int == 48 + d);
    assert((((48 + d) as u8) as char) as int == ((48 + d) as u8) as int);
}

/// The decimal numeral of `n`, most significant digit first, without
/// leading zeros (the numeral of zero is `"0"`).
pub open spec fn dec_of(n: int) -> Seq<char>
    decreases n,
{
    if n < 10 {
        seq![dec_digit(if n < 0 { 0 } else { n })]
    } else {
        dec_of(n / 10).push(dec_digit(n % 10))
    }
}

/// Whether every character of `s` is a decimal digit.
pub open spec fn all_digits(s: Seq<char>) -> bool {
    forall|i: int| 0 <= i < s.len() ==> is_digit(#[trigger] s[i])
}

/// The value of the digit string `s`, most significant digit first.
pub open spec fn dec_val(s: Seq<char>) -> int
    decreases s.len(),
{
    if s.len() == 0 {
        0
    } else {
        dec_val(s.drop_last()) * 10 + digit_val(s.last())
    }
}

/// What parsing a decimal numeral yields under the bound `cap`: the value
/// of the digits, or nothing if `s` is empty, holds a non-digit, or its
/// value exceeds `cap`.
pub open spec fn spec_parse_dec(s: Seq<char>, cap: int) -> Option<u64> {
    if s.len() == 0 || !all_digits(s) || dec_val(s) > cap {
        None
    } else {
        Some(dec_val(s) as u64)
    }
}

/// The digit character for an executable digit value.
pub(crate) fn digit_char(d: u8) -> (c: char)
    requires
        d < 10,
    ensures
        c == dec_digit(d as int),
{
    (48 + d) as char
}

/// Appends the decimal numeral of `n` to `out`.
pub fn push_dec_u64(n: u64, out: &mut Vec<char>)
    ensures
        final(out)@ == old(out)@ + dec_of(n as int),
    decreases n,
{
    if n < 10 {
        out.push(digit_char(n as u8));
        proof {
            assert(out@ =~= old(out)@ + dec_of(n as int));
        }
    } else {
        push_dec_u64(n / 10, out);
        out.push(digit_char((n % 10) as u8));
        proof {
            assert(out@ =~= old(out)@ + dec_of(n as int));
        }
    }
}

/// The decimal numeral of `n`, as characters.
pub fn dec_chars_u64(n: u64) -> (v: Vec<char>)
    ensures
        v@ == dec_of(n as int),
{
    let mut v: Vec<char> = Vec::new();
    push_dec_u64(n, &mut v);
    proof {
        assert(v@ =~= dec_of(n as int));
    }
    v
}

/// The decimal numeral of `n`, as a `String`.
pub fn dec_string_u64(n: u64) -> (s: String)
    ensures
        s@ == dec_of(n as int),
{
    let v = dec_chars_u64(n);
    chars_to_string(&v)
}

/// Parses the digit string `v` under the bound `cap`; returns exactly what
/// [`spec_parse_dec`] says.
pub fn parse_dec(v: &Vec<char>, cap: u64) -> (r: Option<u64>)
    ensures
        r == spec_parse_dec(v@, cap as int),
{
    let n = v.len();
    if n == 0 {
        return None;
    }
    let mut acc: u64 = 0;
    let mut over: bool = false;
    let mut i: usize = 0;
    while i < n
        invariant
            i <= n,
            n == v@.len(),
            all_digits(v@.take(i as int)),
            !over ==> acc == dec_val(v@.take(i as int)),
            over ==> dec_val(v@.take(i as int)) > u64::MAX,
        decreases n - i,
    {
        let c = v[i];
        let cv = char_code(c);
        if cv < 48 || cv > 57 {
            proof {
                assert(!is_digit(v@[i as int]));
            }
            return None;
        }
        let d: u64 = (cv - 48) as u64;
        proof {
            assert(v@.take(i + 1).drop_last() =~= v@.take(i as int));
            assert(v@.take(i + 1).last() == v@[i as int]);
            assert(is_digit(v@[i as int]));
            assert(digit_val(v@[i as int]) == d);
            assert forall|j: int| 0 <= j < i + 1 implies is_digit(#[trigger] v@.take(i + 1)[j]) by {
                if j < i {
                    assert(v@.take(i + 1)[j] == v@.take(i as int)[j]);
                    assert(is_digit(v@.take(i as int)[j]));
                }
            }
            assert(dec_val(v@.take(i + 1)) == dec_val(v@.take(i as int)) * 10 + d);
        }
        if over {
            proof {
                let p = dec_val(v@.take(i as int));
                assert(dec_val(v@.take(i + 1)) == p * 10 + digit_val(v@[i as int]));
                assert(p * 10 >= p) by (nonlinear_arith)
                    requires p >= 0;
            }
        } else {
            match acc.checked_mul(10) {
                Some(x) => {
                    match x.checked_add(d) {
                        Some(y) => {
                            acc = y;
                        },
                        None => {
                            over = true;
                        },
                    }
                },
                None => {
                    over = true;
                },
            }
        }
        i += 1;
    }
    proof {
        assert(v@.take(n as int) =~= v@);
    }
    if over {
        None
    } else if acc > cap {
        None
    } else {
        Some(acc)
    }
}

/// Parsing the numeral of `n` under any sufficient bound gives `n` back.
pub proof fn lemma_dec_roundtrip(n: int, cap: int)
    requires
        0 <= n <= cap,
        cap <= u64::MAX,
    ensures
        spec_parse_dec(dec_of(n), cap) == Some(n as u64),
{
    lemma_dec_of_digits(n);
    lemma_dec_of_val(n);
}

/// Every character of a numeral is a digit.
pub proof fn lemma_dec_of_digits(n: int)
    ensures
        all_digits(dec_of(n)),
        dec_of(n).len() >= 1,
    decreases n,
{
    if n < 10 {
        lemma_dec_digit_val(if n < 0 { 0 } else { n });
    } else {
        lemma_dec_of_digits(n / 10);
        lemma_dec_digit_val(n % 10);
        assert forall|i: int| 0 <= i < dec_of(n).len() implies is_digit(#[trigger] dec_of(n)[i]) by {
            if i < dec_of(n / 10).len() {
                assert(dec_of(n)[i] == dec_of(n / 10)[i]);
            } else {
                assert(dec_of(n)[i] == dec_digit(n % 10));
            }
        }
    }
}

/// The value of the numeral of `n` is `n`.
pub proof fn lemma_dec_of_val(n: int)
    requires
        0 <= n,
    ensures
        dec_val(dec_of(n)) == n,
    decreases n,
{
    if n < 10 {
        lemma_dec_digit_val(n);
        assert(dec_of(n).drop_last() =~= Seq::<char>::empty());
        assert(dec_of(n).last() == dec_digit(n));
        assert(dec_val(Seq::<char>::empty()) == 0);
    } else {
        lemma_dec_of_val(n / 10);
        lemma_dec_digit_val(n % 10);
        assert(dec_of(n).drop_last() =~= dec_of(n / 10));
        assert(dec_of(n).last() == dec_digit(n % 10));
    }
}

} // verus!
