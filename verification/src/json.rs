//! The JSON wire format: the grammar the dispatcher accepts and the
//! canonical text it emits.
//!
//! Inbound frames are JSON objects of at most two levels: fields hold
//! strings, unsigned integers, booleans, null, or one nested object of such
//! scalars.  That is exactly what the envelope, the command payloads and the
//! identity service's bodies use.  Strings know the escapes `\" \\ \/ \b
//! \f \n \r \t` and `\uXXXX` for Unicode scalar values; numbers are
//! unsigned integers.  Outbound text (response envelopes and the room's
//! canonical form) is built by the functions at the end.

use vstd::prelude::*;
use crate::strutil::{all_digits, char_code, char_from_u32, chars_to_string, dec_of, dec_val,
    dec_digit, digit_val, is_digit, is_scalar_value, parse_dec};

verus! {

// ===================== scalars and fields =====================

/// Mathematical model of a parsed scalar.
#[verifier::ext_equal]
pub ghost enum ScalarV {
    Null,
    Bool(bool),
    UInt(u64),
    Str(Seq<char>),
}

/// A parsed JSON scalar: null, a boolean, an unsigned integer, or a string.
#[derive(Debug)]
pub enum JsonScalar {
    Null,
    Bool(bool),
    UInt(u64),
    Str(String),
}

impl View for JsonScalar {
    type V = ScalarV;

    open spec fn view(&self) -> ScalarV {
        match self {
            JsonScalar::Null => ScalarV::Null,
            JsonScalar::Bool(b) => ScalarV::Bool(*b),
            JsonScalar::UInt(v) => ScalarV::UInt(*v),
            JsonScalar::Str(s) => ScalarV::Str(s@),
        }
    }
}

/// Mathematical model of a parsed field value.
#[verifier::ext_equal]
pub ghost enum FieldV {
    Scalar(ScalarV),
    Obj(Seq<(Seq<char>, ScalarV)>),
}

/// A parsed field value: a scalar, or one nested object of scalars.
#[derive(Debug)]
pub enum JsonField {
    Scalar(JsonScalar),
    Obj(Vec<(String, JsonScalar)>),
}

/// The view of a nested object's members.
pub open spec fn inner_views(m: Seq<(String, JsonScalar)>) -> Seq<(Seq<char>, ScalarV)> {
    m.map_values(|p: (String, JsonScalar)| (p.0@, p.1@))
}

impl View for JsonField {
    type V = FieldV;

    open spec fn view(&self) -> FieldV {
        match self {
            JsonField::Scalar(sc) => FieldV::Scalar(sc@),
            JsonField::Obj(m) => FieldV::Obj(inner_views(m@)),
        }
    }
}

/// The view of a parsed object's members.
pub open spec fn member_views(m: Seq<(String, JsonField)>) -> Seq<(Seq<char>, FieldV)> {
    m.map_values(|p: (String, JsonField)| (p.0@, p.1@))
}

// ===================== the grammar =====================

/// JSON whitespace.
pub open spec fn is_ws(c: char) -> bool {
    c == ' ' || c == '\t' || c == '\n' || c == '\r'
}

/// The first position at or after `i` that holds no whitespace.
pub open spec fn skip_ws(s: Seq<char>, i: int) -> int
    decreases s.len() - i,
{
    if 0 <= i && i < s.len() && is_ws(s[i]) {
        skip_ws(s, i + 1)
    } else {
        i
    }
}

/// The value of a hexadecimal digit, or -1.
pub open spec fn hex_val(c: char) -> int {
    if is_digit(c) {
        digit_val(c)
    } else if 97 <= c as int && c as int <= 102 {
        c as int - 87
    } else if 65 <= c as int && c as int <= 70 {
        c as int - 55
    } else {
        -1
    }
}

/// Whether `c` is a hexadecimal digit.
pub open spec fn is_hex(c: char) -> bool {
    hex_val(c) >= 0
}

/// The code point of a `\uXXXX` escape whose digits start at `i`.
pub open spec fn hex4_val(s: Seq<char>, i: int) -> int {
    hex_val(s[i]) * 4096 + hex_val(s[i + 1]) * 256 + hex_val(s[i + 2]) * 16 + hex_val(s[i + 3])
}

/// Parses a JSON string body starting right after the opening quote:
/// the characters up to the closing quote, escapes resolved, and the
/// position after the closing quote.  Unescaped control characters, bad
/// escapes, `\uXXXX` surrogates and unterminated strings are rejected.
pub open spec fn parse_jstring(s: Seq<char>, i: int) -> Option<(Seq<char>, int)>
    decreases s.len() - i,
{
    if !(0 <= i && i < s.len()) {
        None
    } else {
        let c = s[i];
        if c == '"' {
            Some((Seq::<char>::empty(), i + 1))
        } else if c == '\\' {
            if i + 1 < s.len() {
                let e = s[i + 1];
                if e == 'u' {
                    if i + 6 <= s.len() && is_hex(s[i + 2]) && is_hex(s[i + 3]) && is_hex(s[i + 4])
                        && is_hex(s[i + 5]) && is_scalar_value(hex4_val(s, i + 2) as u32) {
                        match parse_jstring(s, i + 6) {
                            Option::None => None,
                            Option::Some((rest, k)) => Some(
                                (seq![(hex4_val(s, i + 2) as u32) as char] + rest, k),
                            ),
                        }
                    } else {
                        None
                    }
                } else {
                    let d: char = if e == '"' {
                        '"'
                    } else if e == '\\' {
                        '\\'
                    } else if e == '/' {
                        '/'
                    } else if e == 'n' {
                        '\n'
                    } else if e == 'r' {
                        '\r'
                    } else if e == 't' {
                        '\t'
                    } else if e == 'b' {
                        '\u{8}'
                    } else if e == 'f' {
                        '\u{c}'
                    } else {
                        ' '
                    };
                    if e == '"' || e == '\\' || e == '/' || e == 'n' || e == 'r' || e == 't'
                        || e == 'b' || e == 'f' {
                        match parse_jstring(s, i + 2) {
                            Option::None => None,
                            Option::Some((rest, k)) => Some((seq![d] + rest, k)),
                        }
                    } else {
                        None
                    }
                }
            } else {
                None
            }
        } else if 32 <= c as int {
            match parse_jstring(s, i + 1) {
                Option::None => None,
                Option::Some((rest, k)) => Some((seq![c] + rest, k)),
            }
        } else {
            None
        }
    }
}

/// The first position at or after `i` that holds no decimal digit.
pub open spec fn scan_digits(s: Seq<char>, i: int) -> int
    decreases s.len() - i,
{
    if 0 <= i && i < s.len() && is_digit(s[i]) {
        scan_digits(s, i + 1)
    } else {
        i
    }
}

/// Parses an unsigned integer at `i`: at least one digit, value within
/// `u64`.
pub open spec fn parse_juint(s: Seq<char>, i: int) -> Option<(u64, int)> {
    let j = scan_digits(s, i);
    if j == i {
        None
    } else if dec_val(s.subrange(i, j)) > u64::MAX {
        None
    } else {
        Some((dec_val(s.subrange(i, j)) as u64, j))
    }
}

/// Whether the four characters of `w` stand at `i` in `s`.
pub open spec fn word_at(s: Seq<char>, i: int, w: Seq<char>) -> bool {
    &&& 0 <= i
    &&& i + w.len() <= s.len()
    &&& s.subrange(i, i + w.len()) == w
}

/// Parses a scalar at `i` (no leading whitespace): a string, an unsigned
/// integer, `true`, `false` or `null`.
pub open spec fn parse_scalar(s: Seq<char>, i: int) -> Option<(ScalarV, int)> {
    if !(0 <= i && i < s.len()) {
        None
    } else if s[i] == '"' {
        match parse_jstring(s, i + 1) {
            Option::None => None,
            Option::Some((body, k)) => Some((ScalarV::Str(body), k)),
        }
    } else if is_digit(s[i]) {
        match parse_juint(s, i) {
            Option::None => None,
            Option::Some((v, k)) => Some((ScalarV::UInt(v), k)),
        }
    } else if word_at(s, i, seq!['t', 'r', 'u', 'e']) {
        Some((ScalarV::Bool(true), i + 4))
    } else if word_at(s, i, seq!['f', 'a', 'l', 's', 'e']) {
        Some((ScalarV::Bool(false), i + 5))
    } else if word_at(s, i, seq!['n', 'u', 'l', 'l']) {
        Some((ScalarV::Null, i + 4))
    } else {
        None
    }
}

/// Skipping whitespace stays within the text and never goes backwards.
pub proof fn lemma_skip_ws_bounds(s: Seq<char>, i: int)
    requires
        0 <= i <= s.len(),
    ensures
        i <= skip_ws(s, i) <= s.len(),
    decreases s.len() - i,
{
    if i < s.len() && is_ws(s[i]) {
        lemma_skip_ws_bounds(s, i + 1);
    }
}

/// A parsed string body ends after its opening position, within the text.
pub proof fn lemma_parse_jstring_advances(s: Seq<char>, i: int)
    ensures
        parse_jstring(s, i) matches Some(t) ==> i < t.1 <= s.len(),
    decreases s.len() - i,
{
    if 0 <= i && i < s.len() {
        let c = s[i];
        if c == '\\' && i + 1 < s.len() {
            if s[i + 1] == 'u' {
                if i + 6 <= s.len() {
                    lemma_parse_jstring_advances(s, i + 6);
                }
            } else {
                lemma_parse_jstring_advances(s, i + 2);
            }
        } else if c != '"' && 32 <= c as int {
            lemma_parse_jstring_advances(s, i + 1);
        }
    }
}

/// Scanning digits stays within the text, never goes backwards, and what it
/// passed over are exactly digits.
pub proof fn lemma_scan_digits_bounds(s: Seq<char>, i: int)
    requires
        0 <= i <= s.len(),
    ensures
        i <= scan_digits(s, i) <= s.len(),
        all_digits(s.subrange(i, scan_digits(s, i))),
        scan_digits(s, i) < s.len() ==> !is_digit(s[scan_digits(s, i)]),
    decreases s.len() - i,
{
    if i < s.len() && is_digit(s[i]) {
        lemma_scan_digits_bounds(s, i + 1);
        let j = scan_digits(s, i);
        assert forall|t: int| 0 <= t < j - i implies is_digit(#[trigger] s.subrange(i, j)[t]) by {
            if t == 0 {
            } else {
                assert(s.subrange(i + 1, j)[t - 1] == s.subrange(i, j)[t]);
            }
        }
    } else {
        assert(s.subrange(i, i) =~= Seq::<char>::empty());
    }
}

/// A parsed scalar ends after its starting position, within the text.
pub proof fn lemma_parse_scalar_advances(s: Seq<char>, i: int)
    ensures
        parse_scalar(s, i) matches Some(t) ==> i < t.1 <= s.len(),
{
    if 0 <= i && i < s.len() {
        if s[i] == '"' {
            lemma_parse_jstring_advances(s, i + 1);
        } else if is_digit(s[i]) {
            lemma_scan_digits_bounds(s, i);
            assert(scan_digits(s, i) != i || !is_digit(s.subrange(i, i + 0)[0])) by {
                if scan_digits(s, i) == i {
                }
            }
        }
    }
}

/// Parses the members of the nested scalar object whose first key starts at
/// `i`, up to and including the closing brace.
pub open spec fn parse_inner_members(s: Seq<char>, i: int) -> Option<(Seq<(Seq<char>, ScalarV)>, int)>
    decreases s.len() - i,
        when 0 <= i && i <= s.len()
        via parse_inner_members_dec
{
    if !(i < s.len() && s[i] == '"') {
        None
    } else {
        match parse_jstring(s, i + 1) {
            Option::None => None,
            Option::Some((key, j)) => {
                let j2 = skip_ws(s, j);
                if j2 < s.len() && s[j2] == ':' {
                    let j3 = skip_ws(s, j2 + 1);
                    match parse_scalar(s, j3) {
                        Option::None => None,
                        Option::Some((v, j4)) => {
                            let j5 = skip_ws(s, j4);
                            if j5 < s.len() && s[j5] == '}' {
                                Some((seq![(key, v)], j5 + 1))
                            } else if j5 < s.len() && s[j5] == ',' {
                                let j6 = skip_ws(s, j5 + 1);
                                match parse_inner_members(s, j6) {
                                    Option::None => None,
                                    Option::Some((rest, k)) => Some((seq![(key, v)] + rest, k)),
                                }
                            } else {
                                None
                            }
                        },
                    }
                } else {
                    None
                }
            },
        }
    }
}

#[via_fn]
proof fn parse_inner_members_dec(s: Seq<char>, i: int) {
    if 0 <= i && i < s.len() && s[i] == '"' {
        lemma_parse_jstring_advances(s, i + 1);
        if parse_jstring(s, i + 1) is Some {
            let (key, j) = parse_jstring(s, i + 1).unwrap();
            lemma_skip_ws_bounds(s, j);
            let j2 = skip_ws(s, j);
            if j2 < s.len() && s[j2] == ':' {
                lemma_skip_ws_bounds(s, j2 + 1);
                let j3 = skip_ws(s, j2 + 1);
                lemma_parse_scalar_advances(s, j3);
                if parse_scalar(s, j3) is Some {
                    let (v, j4) = parse_scalar(s, j3).unwrap();
                    lemma_skip_ws_bounds(s, j4);
                    let j5 = skip_ws(s, j4);
                    if j5 < s.len() && s[j5] == ',' {
                        lemma_skip_ws_bounds(s, j5 + 1);
                    }
                }
            }
        }
    }
}

/// Parses a nested scalar object whose opening brace stands at `i`.
pub open spec fn parse_inner_obj(s: Seq<char>, i: int) -> Option<(Seq<(Seq<char>, ScalarV)>, int)> {
    if 0 <= i && i < s.len() && s[i] == '{' {
        let j = skip_ws(s, i + 1);
        if j < s.len() && s[j] == '}' {
            Some((Seq::<(Seq<char>, ScalarV)>::empty(), j + 1))
        } else {
            parse_inner_members(s, j)
        }
    } else {
        None
    }
}

/// Parses a field value at `i`: a nested object or a scalar.
pub open spec fn parse_field(s: Seq<char>, i: int) -> Option<(FieldV, int)> {
    if 0 <= i && i < s.len() && s[i] == '{' {
        match parse_inner_obj(s, i) {
            Option::None => None,
            Option::Some((m, k)) => Some((FieldV::Obj(m), k)),
        }
    } else {
        match parse_scalar(s, i) {
            Option::None => None,
            Option::Some((v, k)) => Some((FieldV::Scalar(v), k)),
        }
    }
}

/// Parsed inner members end after their starting position, within the text.
pub proof fn lemma_parse_inner_members_advances(s: Seq<char>, i: int)
    requires
        0 <= i <= s.len(),
    ensures
        parse_inner_members(s, i) matches Some(t) ==> i < t.1 <= s.len(),
    decreases s.len() - i,
{
    if i < s.len() && s[i] == '"' && parse_jstring(s, i + 1) is Some {
        lemma_parse_jstring_advances(s, i + 1);
        let (key, j) = parse_jstring(s, i + 1).unwrap();
        lemma_skip_ws_bounds(s, j);
        let j2 = skip_ws(s, j);
        if j2 < s.len() && s[j2] == ':' {
            lemma_skip_ws_bounds(s, j2 + 1);
            let j3 = skip_ws(s, j2 + 1);
            lemma_parse_scalar_advances(s, j3);
            if parse_scalar(s, j3) is Some {
                let (v, j4) = parse_scalar(s, j3).unwrap();
                lemma_skip_ws_bounds(s, j4);
                let j5 = skip_ws(s, j4);
                if j5 < s.len() && s[j5] == ',' {
                    lemma_skip_ws_bounds(s, j5 + 1);
                    let j6 = skip_ws(s, j5 + 1);
                    lemma_parse_inner_members_advances(s, j6);
                }
            }
        }
    }
}

/// A parsed field ends after its starting position, within the text.
pub proof fn lemma_parse_field_advances(s: Seq<char>, i: int)
    ensures
        parse_field(s, i) matches Some(t) ==> i < t.1 <= s.len(),
{
    if 0 <= i && i < s.len() && s[i] == '{' {
        lemma_skip_ws_bounds(s, i + 1);
        let j = skip_ws(s, i + 1);
        if !(j < s.len() && s[j] == '}') {
            lemma_parse_inner_members_advances(s, j);
        }
    } else {
        lemma_parse_scalar_advances(s, i);
    }
}

/// Parses the members of the outer object whose first key starts at `i`,
/// up to and including the closing brace.
pub open spec fn parse_members(s: Seq<char>, i: int) -> Option<(Seq<(Seq<char>, FieldV)>, int)>
    decreases s.len() - i,
        when 0 <= i && i <= s.len()
        via parse_members_dec
{
    if !(i < s.len() && s[i] == '"') {
        None
    } else {
        match parse_jstring(s, i + 1) {
            Option::None => None,
            Option::Some((key, j)) => {
                let j2 = skip_ws(s, j);
                if j2 < s.len() && s[j2] == ':' {
                    let j3 = skip_ws(s, j2 + 1);
                    match parse_field(s, j3) {
                        Option::None => None,
                        Option::Some((v, j4)) => {
                            let j5 = skip_ws(s, j4);
                            if j5 < s.len() && s[j5] == '}' {
                                Some((seq![(key, v)], j5 + 1))
                            } else if j5 < s.len() && s[j5] == ',' {
                                let j6 = skip_ws(s, j5 + 1);
                                match parse_members(s, j6) {
                                    Option::None => None,
                                    Option::Some((rest, k)) => Some((seq![(key, v)] + rest, k)),
                                }
                            } else {
                                None
                            }
                        },
                    }
                } else {
                    None
                }
            },
        }
    }
}

#[via_fn]
proof fn parse_members_dec(s: Seq<char>, i: int) {
    if 0 <= i && i < s.len() && s[i] == '"' {
        lemma_parse_jstring_advances(s, i + 1);
        if parse_jstring(s, i + 1) is Some {
            let (key, j) = parse_jstring(s, i + 1).unwrap();
            lemma_skip_ws_bounds(s, j);
            let j2 = skip_ws(s, j);
            if j2 < s.len() && s[j2] == ':' {
                lemma_skip_ws_bounds(s, j2 + 1);
                let j3 = skip_ws(s, j2 + 1);
                lemma_parse_field_advances(s, j3);
                if parse_field(s, j3) is Some {
                    let (v, j4) = parse_field(s, j3).unwrap();
                    lemma_skip_ws_bounds(s, j4);
                    let j5 = skip_ws(s, j4);
                    if j5 < s.len() && s[j5] == ',' {
                        lemma_skip_ws_bounds(s, j5 + 1);
                    }
                }
            }
        }
    }
}

/// What a whole frame parses to: one object of fields, with whitespace
/// allowed around it, and nothing after it.
pub open spec fn parse_object(s: Seq<char>) -> Option<Seq<(Seq<char>, FieldV)>> {
    let i = skip_ws(s, 0);
    if i < s.len() && s[i] == '{' {
        let j = skip_ws(s, i + 1);
        let inner = if j < s.len() && s[j] == '}' {
            Some((Seq::<(Seq<char>, FieldV)>::empty(), j + 1))
        } else {
            parse_members(s, j)
        };
        match inner {
            Option::None => None,
            Option::Some((m, k)) => if skip_ws(s, k) == s.len() {
                Some(m)
            } else {
                None
            },
        }
    } else {
        None
    }
}

/// The first value under `key`, where lookups walk the members in order.
pub open spec fn obj_lookup(m: Seq<(Seq<char>, FieldV)>, key: Seq<char>) -> Option<FieldV>
    decreases m.len(),
{
    if m.len() == 0 {
        None
    } else if m[0].0 == key {
        Some(m[0].1)
    } else {
        obj_lookup(m.drop_first(), key)
    }
}

/// The first value under `key` in a nested object.
pub open spec fn inner_lookup(m: Seq<(Seq<char>, ScalarV)>, key: Seq<char>) -> Option<ScalarV>
    decreases m.len(),
{
    if m.len() == 0 {
        None
    } else if m[0].0 == key {
        Some(m[0].1)
    } else {
        inner_lookup(m.drop_first(), key)
    }
}

// ===================== the executable parser =====================

/// The first non-whitespace position at or after `i`; exactly [`skip_ws`].
pub fn skip_ws_x(s: &Vec<char>, i: usize) -> (r: usize)
    requires
        i <= s@.len(),
    ensures
        r == skip_ws(s@, i as int),
        i <= r <= s@.len(),
{
    let n = s.len();
    let mut cur: usize = i;
    while cur < n && (s[cur] == ' ' || s[cur] == '\t' || s[cur] == '\n' || s[cur] == '\r')
        invariant
            i <= cur <= n,
            n == s@.len(),
            skip_ws(s@, i as int) == skip_ws(s@, cur as int),
        decreases n - cur,
    {
        cur += 1;
    }
    proof {
        assert(skip_ws(s@, cur as int) == cur as int);
    }
    cur
}

/// The hexadecimal value of `c`, if any; exactly [`hex_val`].
fn hex_val_x(c: char) -> (r: Option<u32>)
    ensures
        r is Some <==> is_hex(c),
        r matches Some(v) ==> v == hex_val(c) && v <= 15,
{
    let code = char_code(c);
    if 48 <= code && code <= 57 {
        Some(code - 48)
    } else if 97 <= code && code <= 102 {
        Some(code - 87)
    } else if 65 <= code && code <= 70 {
        Some(code - 55)
    } else {
        None
    }
}

/// Parses a JSON string body of `s` starting right after the opening quote;
/// exactly [`parse_jstring`].
pub fn parse_jstring_x(s: &Vec<char>, i: usize) -> (r: Option<(String, usize)>)
    requires
        i <= s@.len(),
    ensures
        r is Some <==> parse_jstring(s@, i as int) is Some,
        r matches Some((body, k)) ==> parse_jstring(s@, i as int) == Some((body@, k as int)) && k
            <= s@.len(),
{
    let ghost total = parse_jstring(s@, i as int);
    let n = s.len();
    let mut acc: Vec<char> = Vec::new();
    let mut cur: usize = i;
    loop
        invariant
            i <= cur <= n,
            n == s@.len(),
            total == parse_jstring(s@, i as int),
            ({
                let rest = parse_jstring(s@, cur as int);
                total == match rest {
                    Option::None => Option::<(Seq<char>, int)>::None,
                    Option::Some((body, k)) => Option::Some((acc@ + body, k)),
                }
            }),
        decreases n - cur,
    {
        if cur >= n {
            return None;
        }
        let c = s[cur];
        let code = char_code(c);
        if c == '"' {
            proof {
                assert(acc@ + Seq::<char>::empty() =~= acc@);
            }
            let body = chars_to_string(&acc);
            return Some((body, cur + 1));
        } else if c == '\\' {
            if cur + 1 >= n {
                return None;
            }
            let e = s[cur + 1];
            if e == 'u' {
                if n - cur < 6 {
                    return None;
                }
                let h0 = match hex_val_x(s[cur + 2]) {
                    Option::Some(v) => v,
                    Option::None => {
                        return None;
                    },
                };
                let h1 = match hex_val_x(s[cur + 3]) {
                    Option::Some(v) => v,
                    Option::None => {
                        return None;
                    },
                };
                let h2 = match hex_val_x(s[cur + 4]) {
                    Option::Some(v) => v,
                    Option::None => {
                        return None;
                    },
                };
                let h3 = match hex_val_x(s[cur + 5]) {
                    Option::Some(v) => v,
                    Option::None => {
                        return None;
                    },
                };
                let value: u32 = h0 * 4096 + h1 * 256 + h2 * 16 + h3;
                proof {
                    assert(value == hex4_val(s@, cur + 2));
                }
                let d = match char_from_u32(value) {
                    Option::Some(d) => d,
                    Option::None => {
                        return None;
                    },
                };
                let ghost prev = acc@;
                acc.push(d);
                proof {
                    assert(d == (hex4_val(s@, cur + 2) as u32) as char);
                    let rest = parse_jstring(s@, cur as int);
                    let rest2 = parse_jstring(s@, cur + 6);
                    if rest2 is Some {
                        let (b2, k2) = rest2.unwrap();
                        assert(rest == Some((seq![d] + b2, k2)));
                        assert(prev + (seq![d] + b2) =~= acc@ + b2);
                    }
                }
                cur = cur + 6;
            } else {
                let d: char = if e == '"' {
                    '"'
                } else if e == '\\' {
                    '\\'
                } else if e == '/' {
                    '/'
                } else if e == 'n' {
                    '\n'
                } else if e == 'r' {
                    '\r'
                } else if e == 't' {
                    '\t'
                } else if e == 'b' {
                    '\u{8}'
                } else if e == 'f' {
                    '\u{c}'
                } else {
                    ' '
                };
                if !(e == '"' || e == '\\' || e == '/' || e == 'n' || e == 'r' || e == 't'
                    || e == 'b' || e == 'f') {
                    return None;
                }
                let ghost prev = acc@;
                acc.push(d);
                proof {
                    let rest = parse_jstring(s@, cur as int);
                    let rest2 = parse_jstring(s@, cur + 2);
                    if rest2 is Some {
                        let (b2, k2) = rest2.unwrap();
                        assert(rest == Some((seq![d] + b2, k2)));
                        assert(prev + (seq![d] + b2) =~= acc@ + b2);
                    }
                }
                cur = cur + 2;
            }
        } else if code >= 32 {
            let ghost prev = acc@;
            acc.push(c);
            proof {
                let rest = parse_jstring(s@, cur as int);
                let rest2 = parse_jstring(s@, cur + 1);
                if rest2 is Some {
                    let (b2, k2) = rest2.unwrap();
                    assert(rest == Some((seq![c] + b2, k2)));
                    assert(prev + (seq![c] + b2) =~= acc@ + b2);
                }
            }
            cur = cur + 1;
        } else {
            return None;
        }
    }
}

/// Parses an unsigned integer of `s` at `i`; exactly [`parse_juint`].
pub fn parse_juint_x(s: &Vec<char>, i: usize) -> (r: Option<(u64, usize)>)
    requires
        i <= s@.len(),
    ensures
        r is Some <==> parse_juint(s@, i as int) is Some,
        r matches Some((v, k)) ==> parse_juint(s@, i as int) == Some((v, k as int)) && k
            <= s@.len(),
{
    let n = s.len();
    let mut j: usize = i;
    while j < n && crate::strutil::is_digit_x(s[j])
        invariant
            i <= j <= n,
            n == s@.len(),
            scan_digits(s@, i as int) == scan_digits(s@, j as int),
            all_digits(s@.subrange(i as int, j as int)),
        decreases n - j,
    {
        proof {
            assert(is_digit(s@[j as int]));
            assert forall|t: int| 0 <= t < j + 1 - i implies is_digit(
                #[trigger] s@.subrange(i as int, j + 1)[t],
            ) by {
                if t < j - i {
                    assert(s@.subrange(i as int, j + 1)[t] == s@.subrange(i as int, j as int)[t]);
                }
            }
        }
        j += 1;
    }
    proof {
        if j < n {
            let code = s@[j as int];
            assert(!is_digit(s@[j as int]));
        }
        assert(scan_digits(s@, j as int) == j as int);
    }
    if j == i {
        return None;
    }
    let mut digits: Vec<char> = Vec::new();
    let mut t: usize = i;
    while t < j
        invariant
            i <= t <= j <= n,
            n == s@.len(),
            digits@ == s@.subrange(i as int, t as int),
        decreases j - t,
    {
        digits.push(s[t]);
        proof {
            assert(digits@ =~= s@.subrange(i as int, t + 1));
        }
        t += 1;
    }
    match parse_dec(&digits, u64::MAX) {
        Option::Some(v) => Some((v, j)),
        Option::None => None,
    }
}

/// Parses a scalar of `s` at `i`; exactly [`parse_scalar`].
pub fn parse_scalar_x(s: &Vec<char>, i: usize) -> (r: Option<(JsonScalar, usize)>)
    requires
        i <= s@.len(),
    ensures
        r is Some <==> parse_scalar(s@, i as int) is Some,
        r matches Some((v, k)) ==> parse_scalar(s@, i as int) == Some((v@, k as int)) && k
            <= s@.len(),
{
    let n = s.len();
    if i >= n {
        return None;
    }
    let c = s[i];
    let code = char_code(c);
    if c == '"' {
        match parse_jstring_x(s, i + 1) {
            Option::Some((body, k)) => Some((JsonScalar::Str(body), k)),
            Option::None => None,
        }
    } else if 48 <= code && code <= 57 {
        proof {
            assert(is_digit(s@[i as int]));
        }
        match parse_juint_x(s, i) {
            Option::Some((v, k)) => Some((JsonScalar::UInt(v), k)),
            Option::None => None,
        }
    } else {
        proof {
            assert(!is_digit(s@[i as int]));
        }
        if c == 't' && n - i >= 4 && s[i + 1] == 'r' && s[i + 2] == 'u' && s[i + 3] == 'e' {
            proof {
                assert(s@.subrange(i as int, i + 4) =~= seq!['t', 'r', 'u', 'e']);
            }
            Some((JsonScalar::Bool(true), i + 4))
        } else if c == 'f' && n - i >= 5 && s[i + 1] == 'a' && s[i + 2] == 'l' && s[i + 3] == 's'
            && s[i + 4] == 'e' {
            proof {
                assert(s@.subrange(i as int, i + 5) =~= seq!['f', 'a', 'l', 's', 'e']);
            }
            Some((JsonScalar::Bool(false), i + 5))
        } else if c == 'n' && n - i >= 4 && s[i + 1] == 'u' && s[i + 2] == 'l' && s[i + 3] == 'l' {
            proof {
                assert(s@.subrange(i as int, i + 4) =~= seq!['n', 'u', 'l', 'l']);
            }
            Some((JsonScalar::Null, i + 4))
        } else {
            proof {
                if word_at(s@, i as int, seq!['t', 'r', 'u', 'e']) {
                    assert(s@[i as int] == 't' && s@[i + 1] == 'r' && s@[i + 2] == 'u'
                        && s@[i + 3] == 'e');
                }
                if word_at(s@, i as int, seq!['f', 'a', 'l', 's', 'e']) {
                    assert(s@[i as int] == 'f' && s@[i + 1] == 'a' && s@[i + 2] == 'l'
                        && s@[i + 3] == 's' && s@[i + 4] == 'e');
                }
                if word_at(s@, i as int, seq!['n', 'u', 'l', 'l']) {
                    assert(s@[i as int] == 'n' && s@[i + 1] == 'u' && s@[i + 2] == 'l'
                        && s@[i + 3] == 'l');
                }
            }
            None
        }
    }
}

/// Parses the members of a nested scalar object; exactly
/// [`parse_inner_members`].
pub fn parse_inner_members_x(s: &Vec<char>, i: usize) -> (r: Option<
    (Vec<(String, JsonScalar)>, usize),
>)
    requires
        i <= s@.len(),
    ensures
        r is Some <==> parse_inner_members(s@, i as int) is Some,
        r matches Some((m, k)) ==> parse_inner_members(s@, i as int) == Some(
            (inner_views(m@), k as int),
        ) && k <= s@.len(),
    decreases s@.len() - i,
{
    let n = s.len();
    if !(i < n && s[i] == '"') {
        return None;
    }
    let (key, j) = match parse_jstring_x(s, i + 1) {
        Option::Some(p) => p,
        Option::None => {
            return None;
        },
    };
    let j2 = skip_ws_x(s, j);
    if !(j2 < n && s[j2] == ':') {
        return None;
    }
    let j3 = skip_ws_x(s, j2 + 1);
    let (v, j4) = match parse_scalar_x(s, j3) {
        Option::Some(p) => p,
        Option::None => {
            return None;
        },
    };
    let j5 = skip_ws_x(s, j4);
    if j5 < n && s[j5] == '}' {
        let mut m: Vec<(String, JsonScalar)> = Vec::new();
        m.push((key, v));
        proof {
            assert(inner_views(m@) =~= seq![(key@, v@)]);
        }
        Some((m, j5 + 1))
    } else if j5 < n && s[j5] == ',' {
        let j6 = skip_ws_x(s, j5 + 1);
        proof {
            lemma_parse_jstring_advances(s@, i + 1);
            lemma_parse_scalar_advances(s@, j3 as int);
        }
        match parse_inner_members_x(s, j6) {
            Option::Some((mut rest, k)) => {
                rest.insert(0, (key, v));
                proof {
                    assert(inner_views(rest@) =~= seq![(key@, v@)] + inner_views(rest@.drop_first()));
                }
                Some((rest, k))
            },
            Option::None => None,
        }
    } else {
        None
    }
}

/// Parses a nested scalar object at its opening brace; exactly
/// [`parse_inner_obj`].
pub fn parse_inner_obj_x(s: &Vec<char>, i: usize) -> (r: Option<
    (Vec<(String, JsonScalar)>, usize),
>)
    requires
        i <= s@.len(),
    ensures
        r is Some <==> parse_inner_obj(s@, i as int) is Some,
        r matches Some((m, k)) ==> parse_inner_obj(s@, i as int) == Some(
            (inner_views(m@), k as int),
        ) && k <= s@.len(),
{
    let n = s.len();
    if !(i < n && s[i] == '{') {
        return None;
    }
    let j = skip_ws_x(s, i + 1);
    if j < n && s[j] == '}' {
        let m: Vec<(String, JsonScalar)> = Vec::new();
        proof {
            assert(inner_views(m@) =~= Seq::<(Seq<char>, ScalarV)>::empty());
        }
        Some((m, j + 1))
    } else {
        parse_inner_members_x(s, j)
    }
}

/// Parses a field value; exactly [`parse_field`].
pub fn parse_field_x(s: &Vec<char>, i: usize) -> (r: Option<(JsonField, usize)>)
    requires
        i <= s@.len(),
    ensures
        r is Some <==> parse_field(s@, i as int) is Some,
        r matches Some((f, k)) ==> parse_field(s@, i as int) == Some((f@, k as int)) && k
            <= s@.len(),
{
    let n = s.len();
    if i < n && s[i] == '{' {
        match parse_inner_obj_x(s, i) {
            Option::Some((m, k)) => Some((JsonField::Obj(m), k)),
            Option::None => None,
        }
    } else {
        match parse_scalar_x(s, i) {
            Option::Some((v, k)) => Some((JsonField::Scalar(v), k)),
            Option::None => None,
        }
    }
}

/// Parses the members of the outer object; exactly [`parse_members`].
pub fn parse_members_x(s: &Vec<char>, i: usize) -> (r: Option<(Vec<(String, JsonField)>, usize)>)
    requires
        i <= s@.len(),
    ensures
        r is Some <==> parse_members(s@, i as int) is Some,
        r matches Some((m, k)) ==> parse_members(s@, i as int) == Some(
            (member_views(m@), k as int),
        ) && k <= s@.len(),
    decreases s@.len() - i,
{
    let n = s.len();
    if !(i < n && s[i] == '"') {
        return None;
    }
    let (key, j) = match parse_jstring_x(s, i + 1) {
        Option::Some(p) => p,
        Option::None => {
            return None;
        },
    };
    let j2 = skip_ws_x(s, j);
    if !(j2 < n && s[j2] == ':') {
        return None;
    }
    let j3 = skip_ws_x(s, j2 + 1);
    let (v, j4) = match parse_field_x(s, j3) {
        Option::Some(p) => p,
        Option::None => {
            return None;
        },
    };
    let j5 = skip_ws_x(s, j4);
    if j5 < n && s[j5] == '}' {
        let mut m: Vec<(String, JsonField)> = Vec::new();
        m.push((key, v));
        proof {
            assert(member_views(m@) =~= seq![(key@, v@)]);
        }
        Some((m, j5 + 1))
    } else if j5 < n && s[j5] == ',' {
        let j6 = skip_ws_x(s, j5 + 1);
        proof {
            lemma_parse_jstring_advances(s@, i + 1);
            lemma_parse_field_advances(s@, j3 as int);
        }
        match parse_members_x(s, j6) {
            Option::Some((mut rest, k)) => {
                rest.insert(0, (key, v));
                proof {
                    assert(member_views(rest@) =~= seq![(key@, v@)] + member_views(
                        rest@.drop_first(),
                    ));
                }
                Some((rest, k))
            },
            Option::None => None,
        }
    } else {
        None
    }
}

/// Parses a whole frame as one object; exactly [`parse_object`].
pub fn parse_object_x(s: &Vec<char>) -> (r: Option<Vec<(String, JsonField)>>)
    ensures
        r is Some <==> parse_object(s@) is Some,
        r matches Some(m) ==> parse_object(s@) == Some(member_views(m@)),
{
    let n = s.len();
    let i = skip_ws_x(s, 0);
    if !(i < n && s[i] == '{') {
        return None;
    }
    let j = skip_ws_x(s, i + 1);
    let (m, k) = if j < n && s[j] == '}' {
        let m: Vec<(String, JsonField)> = Vec::new();
        proof {
            assert(member_views(m@) =~= Seq::<(Seq<char>, FieldV)>::empty());
        }
        (m, j + 1)
    } else {
        match parse_members_x(s, j) {
            Option::Some(p) => p,
            Option::None => {
                return None;
            },
        }
    };
    if skip_ws_x(s, k) == n {
        Some(m)
    } else {
        None
    }
}

/// The first value under `key` among the outer members; exactly
/// [`obj_lookup`].
pub fn obj_get<'a>(m: &'a Vec<(String, JsonField)>, key: &String) -> (r: Option<&'a JsonField>)
    ensures
        r is Some <==> obj_lookup(member_views(m@), key@) is Some,
        r matches Some(f) ==> obj_lookup(member_views(m@), key@) == Some(f@),
{
    let n = m.len();
    let mut i: usize = 0;
    proof {
        assert(member_views(m@).skip(0) =~= member_views(m@));
    }
    while i < n
        invariant
            i <= n,
            n == m@.len(),
            obj_lookup(member_views(m@), key@) == obj_lookup(
                member_views(m@).skip(i as int),
                key@,
            ),
        decreases n - i,
    {
        proof {
            assert(member_views(m@).skip(i as int)[0] == member_views(m@)[i as int]);
            assert(member_views(m@).skip(i as int).drop_first() =~= member_views(m@).skip(i + 1));
        }
        if m[i].0.eq(key) {
            return Some(&m[i].1);
        }
        i += 1;
    }
    proof {
        assert(member_views(m@).skip(n as int) =~= Seq::<(Seq<char>, FieldV)>::empty());
    }
    None
}

/// The first value under `key` among a nested object's members; exactly
/// [`inner_lookup`].
pub fn inner_get<'a>(m: &'a Vec<(String, JsonScalar)>, key: &String) -> (r: Option<&'a JsonScalar>)
    ensures
        r is Some <==> inner_lookup(inner_views(m@), key@) is Some,
        r matches Some(f) ==> inner_lookup(inner_views(m@), key@) == Some(f@),
{
    let n = m.len();
    let mut i: usize = 0;
    proof {
        assert(inner_views(m@).skip(0) =~= inner_views(m@));
    }
    while i < n
        invariant
            i <= n,
            n == m@.len(),
            inner_lookup(inner_views(m@), key@) == inner_lookup(
                inner_views(m@).skip(i as int),
                key@,
            ),
        decreases n - i,
    {
        proof {
            assert(inner_views(m@).skip(i as int)[0] == inner_views(m@)[i as int]);
            assert(inner_views(m@).skip(i as int).drop_first() =~= inner_views(m@).skip(i + 1));
        }
        if m[i].0.eq(key) {
            return Some(&m[i].1);
        }
        i += 1;
    }
    proof {
        assert(inner_views(m@).skip(n as int) =~= Seq::<(Seq<char>, ScalarV)>::empty());
    }
    None
}

// ===================== building text =====================

/// The lower-case hexadecimal digit character for `d` in `0..=15`.
pub open spec fn hex_digit(d: int) -> char {
    if d < 10 {
        dec_digit(d)
    } else {
        ((87 + d) as u8) as char
    }
}

/// How one character appears inside a JSON string: quote, backslash and the
/// named control characters get their short escapes, other control
/// characters a `\u00XX` escape, everything else stands as itself.
pub open spec fn esc_char(c: char) -> Seq<char> {
    if c == '"' {
        seq!['\\', '"']
    } else if c == '\\' {
        seq!['\\', '\\']
    } else if c == '\n' {
        seq!['\\', 'n']
    } else if c == '\r' {
        seq!['\\', 'r']
    } else if c == '\t' {
        seq!['\\', 't']
    } else if c == '\u{8}' {
        seq!['\\', 'b']
    } else if c == '\u{c}' {
        seq!['\\', 'f']
    } else if 0 <= c as int && (c as int) < 32 {
        seq!['\\', 'u', '0', '0', hex_digit(c as int / 16), hex_digit(c as int % 16)]
    } else {
        seq![c]
    }
}

/// A string's characters, escaped for JSON.
pub open spec fn esc_str(s: Seq<char>) -> Seq<char>
    decreases s.len(),
{
    if s.len() == 0 {
        Seq::<char>::empty()
    } else {
        esc_char(s[0]) + esc_str(s.drop_first())
    }
}

/// Appending one character appends its escape.
pub proof fn lemma_esc_str_push(s: Seq<char>, c: char)
    ensures
        esc_str(s.push(c)) == esc_str(s) + esc_char(c),
    decreases s.len(),
{
    if s.len() == 0 {
        assert(s.push(c).drop_first() =~= Seq::<char>::empty());
        assert(s.push(c)[0] == c);
        assert(esc_str(s) =~= Seq::<char>::empty());
        assert(esc_str(s.push(c).drop_first()) =~= Seq::<char>::empty());
        assert(esc_str(s.push(c)) == esc_char(c) + esc_str(s.push(c).drop_first()));
        assert(esc_str(s.push(c)) =~= esc_str(s) + esc_char(c));
    } else {
        assert(s.push(c).drop_first() =~= s.drop_first().push(c));
        lemma_esc_str_push(s.drop_first(), c);
        assert(s.push(c)[0] == s[0]);
        assert(esc_str(s.push(c)) == esc_char(s[0]) + (esc_str(s.drop_first()) + esc_char(c)));
        vstd::seq_lib::lemma_concat_associative(esc_char(s[0]), esc_str(s.drop_first()), esc_char(c));
        assert(esc_str(s.push(c)) =~= esc_str(s) + esc_char(c));
    }
}

/// A string as JSON text: quoted and escaped.
pub open spec fn json_quote(s: Seq<char>) -> Seq<char> {
    seq!['"'] + esc_str(s) + seq!['"']
}

/// JSON array text: the items joined by commas.
pub open spec fn join_comma(xs: Seq<Seq<char>>) -> Seq<char>
    decreases xs.len(),
{
    if xs.len() == 0 {
        Seq::<char>::empty()
    } else if xs.len() == 1 {
        xs[0]
    } else {
        xs[0] + seq![','] + join_comma(xs.drop_first())
    }
}

/// Appending one item appends a comma (unless first) and the item.
pub proof fn lemma_join_comma_push(xs: Seq<Seq<char>>, x: Seq<char>)
    ensures
        join_comma(xs.push(x)) == if xs.len() == 0 {
            x
        } else {
            join_comma(xs) + seq![','] + x
        },
    decreases xs.len(),
{
    if xs.len() == 0 {
        assert(xs.push(x)[0] == x);
        assert(join_comma(xs.push(x)) == x);
    } else if xs.len() == 1 {
        assert(xs.push(x).drop_first() =~= xs.drop_first().push(x));
        assert(xs.push(x)[0] == xs[0]);
        assert(xs.drop_first().push(x) =~= seq![x]);
        assert(join_comma(seq![x]) == x);
        assert(join_comma(xs.push(x)) == xs[0] + seq![','] + join_comma(seq![x]));
        assert(join_comma(xs) == xs[0]);
        assert(join_comma(xs.push(x)) =~= join_comma(xs) + seq![','] + x);
    } else {
        assert(xs.push(x).drop_first() =~= xs.drop_first().push(x));
        lemma_join_comma_push(xs.drop_first(), x);
        assert(xs.push(x)[0] == xs[0]);
        assert(join_comma(xs.push(x)) == xs[0] + seq![','] + (join_comma(xs.drop_first()) + seq![','] + x));
        assert(join_comma(xs.push(x)) =~= join_comma(xs) + seq![','] + x);
    }
}

/// Appends the characters of `lit` to `out`.
pub fn push_lit(lit: &str, out: &mut Vec<char>)
    ensures
        final(out)@ == old(out)@ + lit@,
{
    let mut cs = crate::strutil::string_to_chars(lit);
    out.append(&mut cs);
}

/// The lower-case hexadecimal digit character, executably.
fn hex_digit_x(d: u32) -> (c: char)
    requires
        d < 16,
    ensures
        c == hex_digit(d as int),
{
    if d < 10 {
        crate::strutil::digit_char(d as u8)
    } else {
        ((87 + d) as u8) as char
    }
}

/// Appends the escaped characters of `s` to `out`.
pub fn push_escaped(s: &String, out: &mut Vec<char>)
    ensures
        final(out)@ == old(out)@ + esc_str(s@),
{
    let ghost base = out@;
    let cs = crate::strutil::string_to_chars(s.as_str());
    let n = cs.len();
    let mut i: usize = 0;
    while i < n
        invariant
            i <= n,
            n == cs@.len(),
            cs@ == s@,
            out@ == base + esc_str(s@.take(i as int)),
        decreases n - i,
    {
        let c = cs[i];
        let code = char_code(c);
        if c == '"' {
            push_lit("\\\"", out);
            proof {
                assert("\\\""@ =~= esc_char(c)) by {
                    reveal_strlit("\\\"");
                }
            }
        } else if c == '\\' {
            push_lit("\\\\", out);
            proof {
                assert("\\\\"@ =~= esc_char(c)) by {
                    reveal_strlit("\\\\");
                }
            }
        } else if c == '\n' {
            push_lit("\\n", out);
            proof {
                assert("\\n"@ =~= esc_char(c)) by {
                    reveal_strlit("\\n");
                }
            }
        } else if c == '\r' {
            push_lit("\\r", out);
            proof {
                assert("\\r"@ =~= esc_char(c)) by {
                    reveal_strlit("\\r");
                }
            }
        } else if c == '\t' {
            push_lit("\\t", out);
            proof {
                assert("\\t"@ =~= esc_char(c)) by {
                    reveal_strlit("\\t");
                }
            }
        } else if code == 8 {
            push_lit("\\b", out);
            proof {
                assert("\\b"@ =~= esc_char(c)) by {
                    reveal_strlit("\\b");
                }
            }
        } else if code == 12 {
            push_lit("\\f", out);
            proof {
                assert("\\f"@ =~= esc_char(c)) by {
                    reveal_strlit("\\f");
                }
            }
        } else if code < 32 {
            push_lit("\\u00", out);
            out.push(hex_digit_x(code / 16));
            out.push(hex_digit_x(code % 16));
            proof {
                assert("\\u00"@ =~= seq!['\\', 'u', '0', '0']) by {
                    reveal_strlit("\\u00");
                }
                assert("\\u00"@ + seq![hex_digit(code as int / 16), hex_digit(code as int % 16)]
                    =~= esc_char(c));
            }
        } else {
            out.push(c);
            proof {
                assert(seq![c] =~= esc_char(c));
            }
        }
        proof {
            assert(s@.take(i + 1) =~= s@.take(i as int).push(s@[i as int]));
            lemma_esc_str_push(s@.take(i as int), s@[i as int]);
            assert(out@ =~= base + esc_str(s@.take(i + 1)));
        }
        i += 1;
    }
    proof {
        assert(s@.take(n as int) =~= s@);
    }
}

/// Appends `s` as quoted, escaped JSON string text to `out`.
pub fn push_quoted(s: &String, out: &mut Vec<char>)
    ensures
        final(out)@ == old(out)@ + json_quote(s@),
{
    let ghost base = out@;
    out.push('"');
    push_escaped(s, out);
    out.push('"');
    proof {
        assert(out@ =~= base + json_quote(s@));
    }
}

/// Appends the decimal numeral of `v` to `out`.
pub fn push_uint(v: u64, out: &mut Vec<char>)
    ensures
        final(out)@ == old(out)@ + dec_of(v as int),
{
    crate::strutil::push_dec_u64(v, out);
}

/// The JSON text of a boolean.
pub open spec fn bool_json(b: bool) -> Seq<char> {
    if b {
        "true"@
    } else {
        "false"@
    }
}

/// Appends `true` or `false` to `out`.
pub fn push_bool(b: bool, out: &mut Vec<char>)
    ensures
        final(out)@ == old(out)@ + bool_json(b),
{
    if b {
        push_lit("true", out);
    } else {
        push_lit("false", out);
    }
}

} // verus!
