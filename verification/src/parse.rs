//! The JSON text parser for the wire envelope.
//!
//! What a parse returns is pinned down exactly: a ghost recursive
//! descent over the character sequence (`sp_parse_json`) says, for
//! every input, whether it parses and to which value, and the
//! executable parser is proved to return precisely that.  The
//! grammar is strict JSON: no trailing text, no raw control
//! characters in strings, no leading zeros, and nesting deeper than
//! `RECURSION_LIMIT` is refused.

use vstd::prelude::*;

use crate::json::spec_is_digit;
use crate::json::JsonValue;
use crate::ser::spec_dec_digits;
use crate::ser::spec_escape;
use crate::ser::spec_escape_char;
use crate::ser::spec_hex_digit;
use crate::ser::spec_ser_int;
use crate::request::lemma_id_number_round_trip;
use crate::request::sp_all_digits;

verus! {

/// How deep values may nest before a parse is refused.
pub const RECURSION_LIMIT: u32 = 128;

/// The ghost shape of a parsed JSON value: what `JsonValue` holds,
/// with every string as its character sequence.
pub enum JsonRep {
    /// JSON `null`.
    Null,
    /// JSON `true` or `false`.
    Bool(bool),
    /// A number, as its literal text.
    Num(Seq<char>),
    /// A string, as its decoded character content.
    Str(Seq<char>),
    /// An array.
    Array(Seq<JsonRep>),
    /// An object: its members in order of appearance.
    Object(Seq<(Seq<char>, JsonRep)>),
}

/// The ghost shape of the first `i` elements of an array body.
pub open spec fn rep_of_list(vs: Seq<JsonValue>, i: int) -> Seq<JsonRep>
    decreases vs, i,
{
    if i <= 0 || i > vs.len() {
        Seq::empty()
    } else {
        rep_of_list(vs, i - 1).push(rep_of(vs[i - 1]))
    }
}

/// The ghost shape of the first `i` members of an object body.
pub open spec fn rep_of_members(ms: Seq<(String, JsonValue)>, i: int) -> Seq<(Seq<char>, JsonRep)>
    decreases ms, i,
{
    if i <= 0 || i > ms.len() {
        Seq::empty()
    } else {
        rep_of_members(ms, i - 1).push((ms[i - 1].0@, rep_of(ms[i - 1].1)))
    }
}

/// The ghost shape of a `JsonValue`.
pub open spec fn rep_of(v: JsonValue) -> JsonRep
    decreases v, 0int,
{
    match v {
        JsonValue::Null => JsonRep::Null,
        JsonValue::Bool(b) => JsonRep::Bool(b),
        JsonValue::Num(s) => JsonRep::Num(s@),
        JsonValue::Str(s) => JsonRep::Str(s@),
        JsonValue::Array(elems) => JsonRep::Array(rep_of_list(elems@, elems@.len() as int)),
        JsonValue::Object(members) => JsonRep::Object(
            rep_of_members(members@, members@.len() as int),
        ),
    }
}

/// Whether `c` is JSON whitespace.
pub open spec fn spec_is_ws(c: char) -> bool {
    c == ' ' || c == '\t' || c == '\n' || c == '\r'
}

/// The first index at or after `i` that does not hold whitespace.
pub open spec fn sp_skip_ws(s: Seq<char>, i: int) -> int
    decreases s.len() - i,
{
    if 0 <= i < s.len() && spec_is_ws(s[i]) {
        sp_skip_ws(s, i + 1)
    } else {
        i
    }
}

/// The value of a hexadecimal digit character, `-1` for any other
/// character.
pub open spec fn spec_hex_val(c: char) -> int {
    if '0' <= c && c <= '9' {
        c as int - '0' as int
    } else if 'a' <= c && c <= 'f' {
        c as int - 'a' as int + 10
    } else if 'A' <= c && c <= 'F' {
        c as int - 'A' as int + 10
    } else {
        -1
    }
}

/// The value of the four hexadecimal digits at `i`, `-1` if any is
/// missing or not a hexadecimal digit.
pub open spec fn sp_hex4(s: Seq<char>, i: int) -> int {
    if 0 <= i && i + 4 <= s.len() {
        let a = spec_hex_val(s[i]);
        let b = spec_hex_val(s[i + 1]);
        let c = spec_hex_val(s[i + 2]);
        let d = spec_hex_val(s[i + 3]);
        if a >= 0 && b >= 0 && c >= 0 && d >= 0 {
            a * 4096 + b * 256 + c * 16 + d
        } else {
            -1
        }
    } else {
        -1
    }
}

/// The character a short escape stands for, if the character after
/// the backslash is one of the eight short escapes.
pub open spec fn spec_unescape(c: char) -> Option<char> {
    if c == '"' {
        Some('"')
    } else if c == '\\' {
        Some('\\')
    } else if c == '/' {
        Some('/')
    } else if c == 'b' {
        Some('\u{8}')
    } else if c == 'f' {
        Some('\u{c}')
    } else if c == 'n' {
        Some('\n')
    } else if c == 'r' {
        Some('\r')
    } else if c == 't' {
        Some('\t')
    } else {
        None
    }
}

/// The decoded content and end position of a string body starting at
/// `i` (just after the opening quote): characters up to an unescaped
/// closing quote, with the short escapes, `\u` escapes, and
/// surrogate pairs decoded, and raw control characters refused.
pub open spec fn sp_parse_string_body(s: Seq<char>, i: int) -> Option<(Seq<char>, int)>
    decreases s.len() - i,
{
    if !(0 <= i < s.len()) {
        None
    } else {
        let c = s[i];
        if c == '"' {
            Some((Seq::empty(), i + 1))
        } else if c == '\\' {
            if i + 1 >= s.len() {
                None
            } else if s[i + 1] == 'u' {
                let h = sp_hex4(s, i + 2);
                if h < 0 {
                    None
                } else if 0xD800 <= h < 0xDC00 {
                    if i + 12 <= s.len() && s[i + 6] == '\\' && s[i + 7] == 'u' {
                        let l = sp_hex4(s, i + 8);
                        if 0xDC00 <= l < 0xE000 {
                            let cp = 0x10000 + (h - 0xD800) * 1024 + (l - 0xDC00);
                            match sp_parse_string_body(s, i + 12) {
                                None => None,
                                Some((t, j)) => Some((seq![cp as char] + t, j)),
                            }
                        } else {
                            None
                        }
                    } else {
                        None
                    }
                } else if 0xDC00 <= h < 0xE000 {
                    None
                } else {
                    match sp_parse_string_body(s, i + 6) {
                        None => None,
                        Some((t, j)) => Some((seq![h as char] + t, j)),
                    }
                }
            } else {
                match spec_unescape(s[i + 1]) {
                    None => None,
                    Some(d) => match sp_parse_string_body(s, i + 2) {
                        None => None,
                        Some((t, j)) => Some((seq![d] + t, j)),
                    },
                }
            }
        } else if (c as u32) < 32 {
            None
        } else {
            match sp_parse_string_body(s, i + 1) {
                None => None,
                Some((t, j)) => Some((seq![c] + t, j)),
            }
        }
    }
}

/// Relies on `char::from_u32`: `Some` exactly for the values that
/// are valid scalar values (not a surrogate, at most `0x10FFFF`),
/// and then the character with that value.
#[verifier::external_body]
fn char_from_u32(v: u32) -> (r: Option<char>)
    ensures
        r == (if v < 0xD800 || (0xE000 <= v && v <= 0x10FFFF) {
            Some(v as char)
        } else {
            None::<char>
        }),
{
    char::from_u32(v)
}

/// Skips whitespace from `i`.
fn skip_ws(s: &Vec<char>, i: usize) -> (r: usize)
    requires
        i <= s@.len(),
    ensures
        r as int == sp_skip_ws(s@, i as int),
        i <= r <= s@.len(),
{
    let mut cur = i;
    while cur < s.len() && (s[cur] == ' ' || s[cur] == '\t' || s[cur] == '\n' || s[cur] == '\r')
        invariant
            i <= cur <= s@.len(),
            sp_skip_ws(s@, i as int) == sp_skip_ws(s@, cur as int),
        decreases s@.len() - cur,
    {
        cur = cur + 1;
    }
    cur
}

/// The value of a hexadecimal digit character, `-1` for any other.
fn hex_val(c: char) -> (r: i32)
    ensures
        r as int == spec_hex_val(c),
{
    if '0' <= c && c <= '9' {
        (c as u32 as i32) - ('0' as u32 as i32)
    } else if 'a' <= c && c <= 'f' {
        (c as u32 as i32) - ('a' as u32 as i32) + 10
    } else if 'A' <= c && c <= 'F' {
        (c as u32 as i32) - ('A' as u32 as i32) + 10
    } else {
        -1
    }
}

/// The value of the four hexadecimal digits at `i`, `-1` if absent.
fn hex4(s: &Vec<char>, i: usize) -> (r: i32)
    ensures
        r as int == sp_hex4(s@, i as int),
        -1 <= r < 0x10000,
{
    if s.len() >= 4 && i <= s.len() - 4 {
        let a = hex_val(s[i]);
        let b = hex_val(s[i + 1]);
        let c = hex_val(s[i + 2]);
        let d = hex_val(s[i + 3]);
        if a >= 0 && b >= 0 && c >= 0 && d >= 0 {
            a * 4096 + b * 256 + c * 16 + d
        } else {
            -1
        }
    } else {
        -1
    }
}

/// `None` carried through prepending `pre` to a parsed string body.
pub open spec fn sp_cons_str(pre: Seq<char>, r: Option<(Seq<char>, int)>) -> Option<
    (Seq<char>, int),
> {
    match r {
        None => None,
        Some((t, j)) => Some((pre + t, j)),
    }
}

/// Parses a string body starting at `i` (just after the opening
/// quote).
#[verifier::loop_isolation(false)]
#[verifier::rlimit(60)]
fn parse_string_body(s: &Vec<char>, i: usize) -> (r: Option<(String, usize)>)
    ensures
        match r {
            None => sp_parse_string_body(s@, i as int) is None,
            Some((t, j)) => sp_parse_string_body(s@, i as int) == Some((t@, j as int)) && j
                <= s@.len(),
        },
{
    let mut acc: String = String::new();
    let mut cur = i;
    loop
        invariant
            i <= cur,
            sp_parse_string_body(s@, i as int) == sp_cons_str(
                acc@,
                sp_parse_string_body(s@, cur as int),
            ),
        decreases s@.len() - cur,
    {
        if cur >= s.len() {
            return None;
        }
        let c = s[cur];
        if c == '"' {
            proof {
                assert(acc@ + Seq::<char>::empty() =~= acc@);
            }
            return Some((acc, cur + 1));
        } else if c == '\\' {
            if cur + 1 >= s.len() {
                return None;
            }
            let e = s[cur + 1];
            if e == 'u' {
                let h = hex4(s, cur + 2);
                if h < 0 {
                    return None;
                } else if 0xD800 <= h && h < 0xDC00 {
                    if s.len() >= 12 && cur <= s.len() - 12 && s[cur + 6] == '\\' && s[cur + 7]
                        == 'u' {
                        let l = hex4(s, cur + 8);
                        if 0xDC00 <= l && l < 0xE000 {
                            let cp: u32 = 0x10000 + (h as u32 - 0xD800) * 1024 + (l as u32
                                - 0xDC00);
                            let Some(d) = char_from_u32(cp) else {
                                proof {
                                    assert(false);
                                }
                                return None;
                            };
                            proof {
                                if let Some((t, j)) = sp_parse_string_body(s@, cur as int + 12) {
                                    assert(acc@ + (seq![d] + t) =~= (acc@ + seq![d]) + t);
                                }
                            }
                            crate::ser::push_char(&mut acc, d);
                            cur = cur + 12;
                        } else {
                            return None;
                        }
                    } else {
                        return None;
                    }
                } else if 0xDC00 <= h && h < 0xE000 {
                    return None;
                } else {
                    let Some(d) = char_from_u32(h as u32) else {
                        proof {
                            assert(false);
                        }
                        return None;
                    };
                    proof {
                        if let Some((t, j)) = sp_parse_string_body(s@, cur as int + 6) {
                            assert(acc@ + (seq![d] + t) =~= (acc@ + seq![d]) + t);
                        }
                    }
                    crate::ser::push_char(&mut acc, d);
                    cur = cur + 6;
                }
            } else {
                let d: char;
                if e == '"' {
                    d = '"';
                } else if e == '\\' {
                    d = '\\';
                } else if e == '/' {
                    d = '/';
                } else if e == 'b' {
                    d = '\u{8}';
                } else if e == 'f' {
                    d = '\u{c}';
                } else if e == 'n' {
                    d = '\n';
                } else if e == 'r' {
                    d = '\r';
                } else if e == 't' {
                    d = '\t';
                } else {
                    return None;
                }
                proof {
                    if let Some((t, j)) = sp_parse_string_body(s@, cur as int + 2) {
                        assert(acc@ + (seq![d] + t) =~= (acc@ + seq![d]) + t);
                    }
                }
                crate::ser::push_char(&mut acc, d);
                cur = cur + 2;
            }
        } else if (c as u32) < 32 {
            return None;
        } else {
            proof {
                if let Some((t, j)) = sp_parse_string_body(s@, cur as int + 1) {
                    assert(acc@ + (seq![c] + t) =~= (acc@ + seq![c]) + t);
                }
            }
            crate::ser::push_char(&mut acc, c);
            cur = cur + 1;
        }
    }
}


/// The first index at or after `i` that does not hold a decimal
/// digit.
pub open spec fn sp_skip_digits(s: Seq<char>, i: int) -> int
    decreases s.len() - i,
{
    if 0 <= i < s.len() && spec_is_digit(s[i]) {
        sp_skip_digits(s, i + 1)
    } else {
        i
    }
}

/// The literal text and end position of the JSON number starting at
/// `i`: an optional minus sign, an integer part without a leading
/// zero ahead of other digits, an optional fraction, an optional
/// exponent.
pub open spec fn sp_parse_number(s: Seq<char>, i: int) -> Option<(Seq<char>, int)> {
    let p = if 0 <= i < s.len() && s[i] == '-' {
        i + 1
    } else {
        i
    };
    if !(0 <= p < s.len() && spec_is_digit(s[p])) {
        None
    } else {
        let q = if s[p] == '0' {
            p + 1
        } else {
            sp_skip_digits(s, p)
        };
        let f = if q < s.len() && s[q] == '.' {
            if q + 1 < s.len() && spec_is_digit(s[q + 1]) {
                sp_skip_digits(s, q + 1)
            } else {
                -1
            }
        } else {
            q
        };
        if f < 0 {
            None
        } else {
            let t = if f < s.len() && (s[f] == 'e' || s[f] == 'E') {
                let u = if f + 1 < s.len() && (s[f + 1] == '+' || s[f + 1] == '-') {
                    f + 2
                } else {
                    f + 1
                };
                if u < s.len() && spec_is_digit(s[u]) {
                    sp_skip_digits(s, u)
                } else {
                    -1
                }
            } else {
                f
            };
            if t < 0 {
                None
            } else {
                Some((s.subrange(i, t), t))
            }
        }
    }
}

/// Whether `c` is a decimal digit.
pub(crate) fn is_digit(c: char) -> (r: bool)
    ensures
        r == spec_is_digit(c),
{
    '0' <= c && c <= '9'
}

/// Skips decimal digits from `i`.
fn skip_digits(s: &Vec<char>, i: usize) -> (r: usize)
    requires
        i <= s@.len(),
    ensures
        r as int == sp_skip_digits(s@, i as int),
        i <= r <= s@.len(),
{
    let mut cur = i;
    while cur < s.len() && is_digit(s[cur])
        invariant
            i <= cur <= s@.len(),
            sp_skip_digits(s@, i as int) == sp_skip_digits(s@, cur as int),
        decreases s@.len() - cur,
    {
        cur = cur + 1;
    }
    cur
}

/// The characters of `s` between `i` and `j`, as a string.
fn copy_range(s: &Vec<char>, i: usize, j: usize) -> (r: String)
    requires
        i <= j <= s@.len(),
    ensures
        r@ == s@.subrange(i as int, j as int),
{
    let mut out = String::new();
    let mut k = i;
    while k < j
        invariant
            i <= k <= j <= s@.len(),
            out@ == s@.subrange(i as int, k as int),
        decreases j - k,
    {
        proof {
            assert(s@.subrange(i as int, k as int + 1) =~= s@.subrange(i as int, k as int).push(
                s@[k as int],
            ));
        }
        crate::ser::push_char(&mut out, s[k]);
        k = k + 1;
    }
    proof {
        assert(s@.subrange(i as int, i as int) =~= Seq::<char>::empty());
    }
    out
}

/// Parses the JSON number starting at `i`.
fn parse_number(s: &Vec<char>, i: usize) -> (r: Option<(String, usize)>)
    requires
        i <= s@.len(),
    ensures
        match r {
            None => sp_parse_number(s@, i as int) is None,
            Some((t, j)) => sp_parse_number(s@, i as int) == Some((t@, j as int)) && j <= s@.len(),
        },
{
    let mut p = i;
    if p < s.len() && s[p] == '-' {
        p = p + 1;
    }
    if !(p < s.len() && is_digit(s[p])) {
        return None;
    }
    let q = if s[p] == '0' {
        p + 1
    } else {
        skip_digits(s, p)
    };
    let f: usize;
    if q < s.len() && s[q] == '.' {
        if q + 1 < s.len() && is_digit(s[q + 1]) {
            f = skip_digits(s, q + 1);
        } else {
            return None;
        }
    } else {
        f = q;
    }
    let t: usize;
    if f < s.len() && (s[f] == 'e' || s[f] == 'E') {
        let u = if f + 1 < s.len() && (s[f + 1] == '+' || s[f + 1] == '-') {
            f + 2
        } else {
            f + 1
        };
        if u < s.len() && is_digit(s[u]) {
            t = skip_digits(s, u);
        } else {
            return None;
        }
    } else {
        t = f;
    }
    Some((copy_range(s, i, t), t))
}

/// The parse of a value starting at `i`, given `depth` still-allowed
/// levels of array or object nesting: the value's shape and the
/// position just after it.
pub open spec fn sp_parse_value(s: Seq<char>, i: int, depth: u32) -> Option<(JsonRep, int)>
    decreases depth, s.len() - i, 0int,
{
    if !(0 <= i < s.len()) {
        None
    } else {
        let c = s[i];
        if c == 'n' {
            if i + 4 <= s.len() && s[i + 1] == 'u' && s[i + 2] == 'l' && s[i + 3] == 'l' {
                Some((JsonRep::Null, i + 4))
            } else {
                None
            }
        } else if c == 't' {
            if i + 4 <= s.len() && s[i + 1] == 'r' && s[i + 2] == 'u' && s[i + 3] == 'e' {
                Some((JsonRep::Bool(true), i + 4))
            } else {
                None
            }
        } else if c == 'f' {
            if i + 5 <= s.len() && s[i + 1] == 'a' && s[i + 2] == 'l' && s[i + 3] == 's' && s[i + 4]
                == 'e' {
                Some((JsonRep::Bool(false), i + 5))
            } else {
                None
            }
        } else if c == '"' {
            match sp_parse_string_body(s, i + 1) {
                None => None,
                Some((t, j)) => Some((JsonRep::Str(t), j)),
            }
        } else if c == '-' || spec_is_digit(c) {
            match sp_parse_number(s, i) {
                None => None,
                Some((t, j)) => Some((JsonRep::Num(t), j)),
            }
        } else if c == '[' {
            if depth == 0 {
                None
            } else {
                let j = sp_skip_ws(s, i + 1);
                if j < s.len() {
                    if s[j] == ']' {
                        Some((JsonRep::Array(Seq::empty()), j + 1))
                    } else {
                        match sp_parse_items(s, j, (depth - 1) as u32) {
                            None => None,
                            Some((vs, k)) => Some((JsonRep::Array(vs), k)),
                        }
                    }
                } else {
                    None
                }
            }
        } else if c == '{' {
            if depth == 0 {
                None
            } else {
                let j = sp_skip_ws(s, i + 1);
                if j < s.len() {
                    if s[j] == '}' {
                        Some((JsonRep::Object(Seq::empty()), j + 1))
                    } else {
                        match sp_parse_members(s, j, (depth - 1) as u32) {
                            None => None,
                            Some((ms, k)) => Some((JsonRep::Object(ms), k)),
                        }
                    }
                } else {
                    None
                }
            }
        } else {
            None
        }
    }
}

/// The parse of the elements of a non-empty array body starting at
/// `i` (the first element's first character), up to and including
/// the closing bracket.
pub open spec fn sp_parse_items(s: Seq<char>, i: int, depth: u32) -> Option<(Seq<JsonRep>, int)>
    decreases depth, s.len() - i, 1int,
{
    match sp_parse_value(s, i, depth) {
        None => None,
        Some((v, j)) => {
            let k = sp_skip_ws(s, j);
            if 0 <= k < s.len() {
                if s[k] == ']' {
                    Some((seq![v], k + 1))
                } else if s[k] == ',' {
                    let m = sp_skip_ws(s, k + 1);
                    if i < m <= s.len() {
                        match sp_parse_items(s, m, depth) {
                            None => None,
                            Some((vs, e)) => Some((seq![v] + vs, e)),
                        }
                    } else {
                        None
                    }
                } else {
                    None
                }
            } else {
                None
            }
        },
    }
}

/// The parse of the members of a non-empty object body starting at
/// `i` (the first key's opening quote), up to and including the
/// closing brace.
pub open spec fn sp_parse_members(s: Seq<char>, i: int, depth: u32) -> Option<
    (Seq<(Seq<char>, JsonRep)>, int),
>
    decreases depth, s.len() - i, 1int,
{
    if !(0 <= i < s.len() && s[i] == '"') {
        None
    } else {
        match sp_parse_string_body(s, i + 1) {
            None => None,
            Some((key, j)) => {
                let k = sp_skip_ws(s, j);
                if 0 <= k < s.len() && s[k] == ':' {
                    let m = sp_skip_ws(s, k + 1);
                    if i < m <= s.len() {
                        match sp_parse_value(s, m, depth) {
                            None => None,
                            Some((v, q)) => {
                                let w = sp_skip_ws(s, q);
                                if 0 <= w < s.len() {
                                    if s[w] == '}' {
                                        Some((seq![(key, v)], w + 1))
                                    } else if s[w] == ',' {
                                        let x = sp_skip_ws(s, w + 1);
                                        if i < x <= s.len() {
                                            match sp_parse_members(s, x, depth) {
                                                None => None,
                                                Some((ms, e)) => Some((seq![(key, v)] + ms, e)),
                                            }
                                        } else {
                                            None
                                        }
                                    } else {
                                        None
                                    }
                                } else {
                                    None
                                }
                            },
                        }
                    } else {
                        None
                    }
                } else {
                    None
                }
            },
        }
    }
}

/// The parse of a whole text: one value between optional whitespace,
/// with nothing after it.
pub open spec fn sp_parse_json(s: Seq<char>) -> Option<JsonRep> {
    let i = sp_skip_ws(s, 0);
    match sp_parse_value(s, i, RECURSION_LIMIT) {
        None => None,
        Some((v, j)) => if sp_skip_ws(s, j) == s.len() {
            Some(v)
        } else {
            None
        },
    }
}

/// Extending the element list does not change the shape of an
/// unchanged prefix.
proof fn lemma_rep_of_list_push(vs: Seq<JsonValue>, v: JsonValue, i: int)
    requires
        0 <= i <= vs.len(),
    ensures
        rep_of_list(vs.push(v), i) == rep_of_list(vs, i),
    decreases i,
{
    if i > 0 {
        lemma_rep_of_list_push(vs, v, i - 1);
        assert(vs.push(v)[i - 1] == vs[i - 1]);
    }
}

/// Extending the member list does not change the shape of an
/// unchanged prefix.
proof fn lemma_rep_of_members_push(ms: Seq<(String, JsonValue)>, m: (String, JsonValue), i: int)
    requires
        0 <= i <= ms.len(),
    ensures
        rep_of_members(ms.push(m), i) == rep_of_members(ms, i),
    decreases i,
{
    if i > 0 {
        lemma_rep_of_members_push(ms, m, i - 1);
        assert(ms.push(m)[i - 1] == ms[i - 1]);
    }
}

/// `None` carried through prepending `pre` to a parsed element list.
pub open spec fn sp_cons_items(pre: Seq<JsonRep>, r: Option<(Seq<JsonRep>, int)>) -> Option<
    (Seq<JsonRep>, int),
> {
    match r {
        None => None,
        Some((vs, j)) => Some((pre + vs, j)),
    }
}

/// `None` carried through prepending `pre` to a parsed member list.
pub open spec fn sp_cons_members(
    pre: Seq<(Seq<char>, JsonRep)>,
    r: Option<(Seq<(Seq<char>, JsonRep)>, int)>,
) -> Option<(Seq<(Seq<char>, JsonRep)>, int)> {
    match r {
        None => None,
        Some((ms, j)) => Some((pre + ms, j)),
    }
}

/// Parses a value starting at `i`.
#[verifier::loop_isolation(false)]
#[verifier::rlimit(100)]
fn parse_value(s: &Vec<char>, i: usize, depth: u32) -> (r: Option<(JsonValue, usize)>)
    requires
        i <= s@.len(),
    ensures
        match r {
            None => sp_parse_value(s@, i as int, depth) is None,
            Some((v, j)) => sp_parse_value(s@, i as int, depth) == Some((rep_of(v), j as int)) && j
                <= s@.len(),
        },
    decreases depth, s@.len() - i, 0int,
{
    if i >= s.len() {
        return None;
    }
    let c = s[i];
    if c == 'n' {
        if s.len() - i >= 4 && s[i + 1] == 'u' && s[i + 2] == 'l' && s[i + 3] == 'l' {
            Some((JsonValue::Null, i + 4))
        } else {
            None
        }
    } else if c == 't' {
        if s.len() - i >= 4 && s[i + 1] == 'r' && s[i + 2] == 'u' && s[i + 3] == 'e' {
            Some((JsonValue::Bool(true), i + 4))
        } else {
            None
        }
    } else if c == 'f' {
        if s.len() - i >= 5 && s[i + 1] == 'a' && s[i + 2] == 'l' && s[i + 3] == 's' && s[i + 4]
            == 'e' {
            Some((JsonValue::Bool(false), i + 5))
        } else {
            None
        }
    } else if c == '"' {
        match parse_string_body(s, i + 1) {
            None => None,
            Some((t, j)) => Some((JsonValue::Str(t), j)),
        }
    } else if c == '-' || is_digit(c) {
        match parse_number(s, i) {
            None => None,
            Some((t, j)) => Some((JsonValue::Num(t), j)),
        }
    } else if c == '[' {
        if depth == 0 {
            return None;
        }
        let j = skip_ws(s, i + 1);
        if j < s.len() {
            if s[j] == ']' {
                let elems: Vec<JsonValue> = Vec::new();
                proof {
                    assert(rep_of_list(elems@, 0) =~= Seq::<JsonRep>::empty());
                }
                Some((JsonValue::Array(elems), j + 1))
            } else {
                match parse_items(s, j, depth - 1) {
                    None => None,
                    Some((elems, k)) => Some((JsonValue::Array(elems), k)),
                }
            }
        } else {
            None
        }
    } else if c == '{' {
        if depth == 0 {
            return None;
        }
        let j = skip_ws(s, i + 1);
        if j < s.len() {
            if s[j] == '}' {
                let members: Vec<(String, JsonValue)> = Vec::new();
                proof {
                    assert(rep_of_members(members@, 0) =~= Seq::<(Seq<char>, JsonRep)>::empty());
                }
                Some((JsonValue::Object(members), j + 1))
            } else {
                match parse_members(s, j, depth - 1) {
                    None => None,
                    Some((members, k)) => Some((JsonValue::Object(members), k)),
                }
            }
        } else {
            None
        }
    } else {
        None
    }
}

/// Parses the elements of a non-empty array body starting at `i`.
#[verifier::loop_isolation(false)]
#[verifier::rlimit(100)]
fn parse_items(s: &Vec<char>, i: usize, depth: u32) -> (r: Option<(Vec<JsonValue>, usize)>)
    requires
        i <= s@.len(),
    ensures
        match r {
            None => sp_parse_items(s@, i as int, depth) is None,
            Some((vs, j)) => sp_parse_items(s@, i as int, depth) == Some(
                (rep_of_list(vs@, vs@.len() as int), j as int),
            ) && j <= s@.len(),
        },
    decreases depth, s@.len() - i, 1int,
{
    let mut acc: Vec<JsonValue> = Vec::new();
    let mut cur = i;
    proof {
        assert(rep_of_list(acc@, 0) =~= Seq::<JsonRep>::empty());
    }
    loop
        invariant
            i <= cur <= s@.len(),
            sp_parse_items(s@, i as int, depth) == sp_cons_items(
                rep_of_list(acc@, acc@.len() as int),
                sp_parse_items(s@, cur as int, depth),
            ),
        decreases s@.len() - cur,
    {
        let ghost pre = rep_of_list(acc@, acc@.len() as int);
        let Some((v, j)) = parse_value(s, cur, depth) else { return None };
        let k = skip_ws(s, j);
        if k >= s.len() {
            return None;
        }
        if s[k] == ']' {
            proof {
                lemma_rep_of_list_push(acc@, v, acc@.len() as int);
                assert(pre + seq![rep_of(v)] =~= rep_of_list(acc@.push(v), acc@.len() as int + 1));
            }
            acc.push(v);
            return Some((acc, k + 1));
        } else if s[k] == ',' {
            let m = skip_ws(s, k + 1);
            if m <= cur {
                return None;
            }
            proof {
                lemma_rep_of_list_push(acc@, v, acc@.len() as int);
                assert(pre + seq![rep_of(v)] =~= rep_of_list(acc@.push(v), acc@.len() as int + 1));
                if let Some((vs, e)) = sp_parse_items(s@, m as int, depth) {
                    assert(pre + (seq![rep_of(v)] + vs) =~= (pre + seq![rep_of(v)]) + vs);
                }
            }
            acc.push(v);
            cur = m;
        } else {
            return None;
        }
    }
}

/// Parses the members of a non-empty object body starting at `i`.
#[verifier::loop_isolation(false)]
#[verifier::rlimit(100)]
fn parse_members(s: &Vec<char>, i: usize, depth: u32) -> (r: Option<
    (Vec<(String, JsonValue)>, usize),
>)
    requires
        i <= s@.len(),
    ensures
        match r {
            None => sp_parse_members(s@, i as int, depth) is None,
            Some((ms, j)) => sp_parse_members(s@, i as int, depth) == Some(
                (rep_of_members(ms@, ms@.len() as int), j as int),
            ) && j <= s@.len(),
        },
    decreases depth, s@.len() - i, 1int,
{
    let mut acc: Vec<(String, JsonValue)> = Vec::new();
    let mut cur = i;
    proof {
        assert(rep_of_members(acc@, 0) =~= Seq::<(Seq<char>, JsonRep)>::empty());
    }
    loop
        invariant
            i <= cur <= s@.len(),
            sp_parse_members(s@, i as int, depth) == sp_cons_members(
                rep_of_members(acc@, acc@.len() as int),
                sp_parse_members(s@, cur as int, depth),
            ),
        decreases s@.len() - cur,
    {
        let ghost pre = rep_of_members(acc@, acc@.len() as int);
        if !(cur < s.len() && s[cur] == '"') {
            return None;
        }
        let Some((key, j)) = parse_string_body(s, cur + 1) else { return None };
        let k = skip_ws(s, j);
        if !(k < s.len() && s[k] == ':') {
            return None;
        }
        let m = skip_ws(s, k + 1);
        if m <= cur {
            return None;
        }
        let Some((v, q)) = parse_value(s, m, depth) else { return None };
        let w = skip_ws(s, q);
        if w >= s.len() {
            return None;
        }
        if s[w] == '}' {
            proof {
                lemma_rep_of_members_push(acc@, (key, v), acc@.len() as int);
                assert(pre + seq![(key@, rep_of(v))] =~= rep_of_members(
                    acc@.push((key, v)),
                    acc@.len() as int + 1,
                ));
            }
            acc.push((key, v));
            return Some((acc, w + 1));
        } else if s[w] == ',' {
            let x = skip_ws(s, w + 1);
            if x <= cur {
                return None;
            }
            proof {
                lemma_rep_of_members_push(acc@, (key, v), acc@.len() as int);
                assert(pre + seq![(key@, rep_of(v))] =~= rep_of_members(
                    acc@.push((key, v)),
                    acc@.len() as int + 1,
                ));
                if let Some((ms, e)) = sp_parse_members(s@, x as int, depth) {
                    assert(pre + (seq![(key@, rep_of(v))] + ms) =~= (pre + seq![(key@, rep_of(v))])
                        + ms);
                }
            }
            acc.push((key, v));
            cur = x;
        } else {
            return None;
        }
    }
}

/// Relies on `str::chars`: the characters of the string, in order.
#[verifier::external_body]
pub(crate) fn str_chars(s: &str) -> (r: Vec<char>)
    ensures
        r@ == s@,
{
    let mut v: Vec<char> = Vec::new();
    for c in s.chars() {
        v.push(c);
    }
    v
}

/// Parses a whole JSON text into a value, `None` on any failure.
pub fn parse_json(text: &str) -> (r: Option<JsonValue>)
    ensures
        match r {
            None => sp_parse_json(text@) is None,
            Some(v) => sp_parse_json(text@) == Some(rep_of(v)),
        },
{
    let s = str_chars(text);
    let i = skip_ws(&s, 0);
    let Some((v, j)) = parse_value(&s, i, RECURSION_LIMIT) else { return None };
    let k = skip_ws(&s, j);
    if k == s.len() {
        Some(v)
    } else {
        None
    }
}


/// Each position of the ghost member list mirrors the member at the
/// same position.
pub proof fn lemma_rep_of_members_index(ms: Seq<(String, JsonValue)>, i: int, k: int)
    requires
        0 <= k < i <= ms.len(),
    ensures
        rep_of_members(ms, i).len() == i,
        rep_of_members(ms, i)[k] == (ms[k].0@, rep_of(ms[k].1)),
    decreases i,
{
    lemma_rep_of_members_len(ms, i);
    if k < i - 1 {
        lemma_rep_of_members_index(ms, i - 1, k);
    }
}

/// The ghost member list of the first `i` members has `i` entries.
pub proof fn lemma_rep_of_members_len(ms: Seq<(String, JsonValue)>, i: int)
    requires
        0 <= i <= ms.len(),
    ensures
        rep_of_members(ms, i).len() == i,
    decreases i,
{
    if i > 0 {
        lemma_rep_of_members_len(ms, i - 1);
    }
}

/// Each position of the ghost element list mirrors the element at
/// the same position.
pub proof fn lemma_rep_of_list_index(vs: Seq<JsonValue>, i: int, k: int)
    requires
        0 <= k < i <= vs.len(),
    ensures
        rep_of_list(vs, i).len() == i,
        rep_of_list(vs, i)[k] == rep_of(vs[k]),
    decreases i,
{
    lemma_rep_of_list_len(vs, i);
    if k < i - 1 {
        lemma_rep_of_list_index(vs, i - 1, k);
    }
}

/// The ghost element list of the first `i` elements has `i` entries.
pub proof fn lemma_rep_of_list_len(vs: Seq<JsonValue>, i: int)
    requires
        0 <= i <= vs.len(),
    ensures
        rep_of_list(vs, i).len() == i,
    decreases i,
{
    if i > 0 {
        lemma_rep_of_list_len(vs, i - 1);
    }
}


/// Reading a hexadecimal digit the serializer wrote gives the digit
/// back.
proof fn lemma_hex_digit_round_trip(d: int)
    requires
        0 <= d < 16,
    ensures
        spec_hex_val(spec_hex_digit(d)) == d,
{
}

/// What the serializer writes inside the quotes of a JSON string,
/// the parser reads back: escaping a string and decoding the result
/// (up to the closing quote) returns the original string, wherever
/// in a text it stands.
pub proof fn lemma_escape_round_trip(pre: Seq<char>, s: Seq<char>, post: Seq<char>)
    ensures
        sp_parse_string_body(pre + spec_escape(s) + seq!['"'] + post, pre.len() as int) == Some(
            (s, pre.len() + spec_escape(s).len() + 1int),
        ),
    decreases s.len(),
{
    let t = pre + spec_escape(s) + seq!['"'] + post;
    let i = pre.len() as int;
    if s.len() == 0 {
        assert(spec_escape(s) =~= Seq::<char>::empty());
        assert(t[i] == '"');
        assert(sp_parse_string_body(t, i) == Some((Seq::<char>::empty(), i + 1)));
        assert(s =~= Seq::<char>::empty());
    } else {
        let c = s[0];
        let rest = s.drop_first();
        let e = spec_escape_char(c);
        let pre2 = pre + e;
        reveal_strlit("\\\"");
        reveal_strlit("\\\\");
        reveal_strlit("\\b");
        reveal_strlit("\\f");
        reveal_strlit("\\n");
        reveal_strlit("\\r");
        reveal_strlit("\\t");
        assert(spec_escape(s) == e + spec_escape(rest));
        assert(t =~= pre2 + spec_escape(rest) + seq!['"'] + post);
        lemma_escape_round_trip(pre2, rest, post);
        let inner = sp_parse_string_body(t, pre2.len() as int);
        assert(inner == Some((rest, pre2.len() + spec_escape(rest).len() + 1int)));
        assert(forall|k: int| 0 <= k < e.len() ==> t[i + k] == e[k]);
        if c == '"' || c == '\\' {
            assert(t[i] == '\\' && e.len() == 2);
            assert(spec_unescape(t[i + 1]) == Some(c));
            assert(sp_parse_string_body(t, i) == Some((seq![c] + rest, pre2.len()
                + spec_escape(rest).len() + 1int)));
            assert(seq![c] + rest =~= s);
        } else if c == '\u{8}' || c == '\u{c}' || c == '\n' || c == '\r' || c == '\t' {
            assert(t[i] == '\\' && e.len() == 2);
            assert(spec_unescape(t[i + 1]) == Some(c));
            assert(sp_parse_string_body(t, i) == Some((seq![c] + rest, pre2.len()
                + spec_escape(rest).len() + 1int)));
            assert(seq![c] + rest =~= s);
        } else if (c as u32) < 32 {
            let v = (c as u32) as int;
            assert(e == "\\u00"@ + seq![spec_hex_digit(v / 16), spec_hex_digit(v % 16)]);
            reveal_strlit("\\u00");
            assert(e.len() == 6);
            assert(t[i] == '\\' && t[i + 1] == 'u');
            assert(t[i + 2] == '0' && t[i + 3] == '0');
            assert(t[i + 4] == spec_hex_digit(v / 16) && t[i + 5] == spec_hex_digit(v % 16));
            lemma_hex_digit_round_trip(v / 16);
            lemma_hex_digit_round_trip(v % 16);
            assert(spec_hex_val('0') == 0);
            assert(sp_hex4(t, i + 2) == 16 * (v / 16) + (v % 16));
            assert(sp_hex4(t, i + 2) == v);
            assert(0 <= v < 32);
            vstd::utf8::char_u32_cast(c, c as u32);
            assert((v as char) == c);
            assert(sp_parse_string_body(t, i) == Some((seq![c] + rest, pre2.len()
                + spec_escape(rest).len() + 1int)));
            assert(seq![c] + rest =~= s);
        } else {
            assert(e =~= seq![c]);
            assert(t[i] == c);
            assert(c != '"' && c != '\\' && (c as u32) >= 32);
            assert(sp_parse_string_body(t, i) == Some((seq![c] + rest, pre2.len()
                + spec_escape(rest).len() + 1int)));
            assert(seq![c] + rest =~= s);
        }
        assert(pre2.len() + spec_escape(rest).len() == pre.len() + spec_escape(s).len());
    }
}


/// A string without quotes, backslashes or control characters is
/// written as itself.
pub proof fn lemma_escape_plain(s: Seq<char>)
    requires
        forall|k: int|
            0 <= k < s.len() ==> (#[trigger] s[k]) != '"' && s[k] != '\\' && (s[k] as u32) >= 32,
    ensures
        spec_escape(s) == s,
    decreases s.len(),
{
    if s.len() > 0 {
        assert(spec_escape_char(s[0]) =~= seq![s[0]]);
        lemma_escape_plain(s.drop_first());
        assert(seq![s[0]] + s.drop_first() =~= s);
    }
}

/// Scanning digits over a run of digits stops exactly where the run
/// stops.
proof fn lemma_skip_digits_run(t: Seq<char>, i: int, j: int)
    requires
        0 <= i <= j < t.len(),
        forall|k: int| i <= k < j ==> spec_is_digit(#[trigger] t[k]),
        !spec_is_digit(t[j]),
    ensures
        sp_skip_digits(t, i) == j,
    decreases j - i,
{
    if i < j {
        lemma_skip_digits_run(t, i + 1, j);
    }
}

/// The decimal rendering of a positive number does not start with a
/// zero.
proof fn lemma_dec_digits_leading(n: nat)
    requires
        n >= 1,
    ensures
        spec_dec_digits(n)[0] != '0',
    decreases n,
{
    if n >= 10 {
        lemma_dec_digits_leading(n / 10);
    }
}

/// A rendered integer followed by anything that cannot continue a
/// number parses back as exactly that literal.
pub(crate) proof fn lemma_ser_int_parse(pre: Seq<char>, c: int, post: Seq<char>)
    requires
        -0x8000_0000 <= c <= 0x7FFF_FFFF,
        post.len() > 0,
        !spec_is_digit(post[0]),
        post[0] != '.',
        post[0] != 'e',
        post[0] != 'E',
    ensures
        sp_parse_number(pre + spec_ser_int(c) + post, pre.len() as int) == Some(
            (spec_ser_int(c), pre.len() + spec_ser_int(c).len() as int),
        ),
{
    let lit = spec_ser_int(c);
    let t = pre + lit + post;
    let i = pre.len() as int;
    let mag: u64 = if c < 0 {
        (-c) as u64
    } else {
        c as u64
    };
    let d = spec_dec_digits(mag as nat);
    lemma_id_number_round_trip(mag);
    reveal_strlit("-");
    if c < 0 {
        assert(lit =~= seq!['-'] + d);
    } else {
        assert(lit == d);
    }
    let p = if c < 0 {
        i + 1
    } else {
        i
    };
    assert(forall|k: int| 0 <= k < d.len() ==> t[p + k] == d[k]);
    assert(t[p + d.len()] == post[0]);
    assert(spec_is_digit(t[p]));
    assert(!spec_is_digit('-'));
    if c < 0 {
        assert(t[i] == '-');
    }
    lemma_skip_digits_run(t, p, p + d.len() as int);
    if mag == 0 {
        assert(d =~= seq![crate::ser::spec_digit(0)]);
        assert(t[p] == '0');
    } else {
        lemma_dec_digits_leading(mag as nat);
        assert(t[p] != '0');
    }
    let q = p + d.len() as int;
    assert(t[q] == post[0]);
    assert(sp_parse_number(t, i) == Some((t.subrange(i, q), q)));
    assert(t.subrange(i, q) =~= lit);
}

} // verus!
