//! The wire form of an error: an integer code and a message.

use vstd::prelude::*;

use crate::error_code::spec_code;
use crate::error_code::spec_from_code;
use crate::error_code::spec_message;
use crate::error_code::ErrorCode;
use crate::json::spec_is_digit;
use crate::json::JsonValue;
use crate::parse::lemma_escape_plain;
use crate::parse::lemma_escape_round_trip;
use crate::parse::lemma_ser_int_parse;
use crate::parse::rep_of;
use crate::parse::sp_parse_json;
use crate::parse::sp_parse_members;
use crate::parse::sp_parse_number;
use crate::parse::sp_parse_string_body;
use crate::parse::sp_parse_value;
use crate::parse::sp_skip_ws;
use crate::parse::spec_is_ws;
use crate::parse::JsonRep;
use crate::parse::RECURSION_LIMIT;
use crate::request::lemma_id_number_round_trip;
use crate::ser::spec_dec_digits;
use crate::ser::spec_escape;
use crate::ser::spec_ser_error_object;
use crate::ser::spec_ser_int;
use crate::ser::spec_ser_string;
use crate::request::lemma_dec_val_prefix;
use crate::request::lemma_dec_val_step;
use crate::request::sp_all_digits;
use crate::request::sp_count_key;
use crate::request::sp_dec_val;
use crate::request::sp_first_val;
use crate::request::sp_get;

verus! {

/// A failed JSON-RPC response carries this object under its `error`
/// field: `{"code": <integer>, "message": <string>}` and nothing
/// else.
#[derive(Debug)]
pub struct ErrorObject {
    /// The typed error code.
    pub code: ErrorCode,
    /// The message; canonical for a reserved code unless a caller
    /// supplied its own (for example a binding diagnostic).
    pub message: String,
}

impl ErrorObject {
    /// An error object with an explicit message.
    pub fn new(code: ErrorCode, message: String) -> (r: Self)
        ensures
            r.code == code,
            r.message == message,
    {
        ErrorObject { code, message }
    }

    /// An error object with the canonical message of `code`.
    pub fn from_code(code: ErrorCode) -> (r: Self)
        ensures
            r.code == code,
            r.message@ == spec_message(code),
    {
        ErrorObject { code, message: code.message().to_owned() }
    }

    /// Returns the integer error code.
    pub fn code(&self) -> (r: i32)
        ensures
            r == spec_code(self.code),
    {
        self.code.code()
    }

    /// Returns the message.
    pub fn message(&self) -> (r: &str)
        ensures
            r@ == self.message@,
    {
        self.message.as_str()
    }

    /// An owned copy of the error object.
    pub fn duplicate(&self) -> (r: Self)
        ensures
            r.code == self.code,
            r.message@ == self.message@,
    {
        ErrorObject { code: self.code, message: self.message.clone() }
    }
}

impl PartialEq for ErrorObject {
    fn eq(&self, other: &Self) -> (r: bool) {
        self.code == other.code && self.message == other.message
    }
}

impl vstd::std_specs::cmp::PartialEqSpecImpl for ErrorObject {
    open spec fn obeys_eq_spec() -> bool {
        true
    }

    open spec fn eq_spec(&self, other: &ErrorObject) -> bool {
        self.code == other.code && self.message@ == other.message@
    }
}

/// The integer a number literal spells, if it is nothing but an
/// optional minus sign and digits.
pub open spec fn sp_int_lit(t: Seq<char>) -> Option<int> {
    if t.len() > 0 && t[0] == '-' {
        if sp_all_digits(t.subrange(1, t.len() as int)) {
            Some(-sp_dec_val(t.subrange(1, t.len() as int)))
        } else {
            None
        }
    } else {
        if sp_all_digits(t) {
            Some(sp_dec_val(t))
        } else {
            None
        }
    }
}

/// Reads a signed integer literal that fits the code range, refusing
/// any fraction, exponent, or out-of-range value.
#[verifier::loop_isolation(false)]
fn int_lit(lit: &str) -> (r: Option<i32>)
    ensures
        match r {
            Some(v) => sp_int_lit(lit@) == Some(v as int),
            None => !(sp_int_lit(lit@) matches Some(c) && i32::MIN <= c <= i32::MAX),
        },
{
    let s = crate::parse::str_chars(lit);
    let neg = s.len() > 0 && s[0] == '-';
    let start: usize = if neg {
        1
    } else {
        0
    };
    let ghost t = if neg {
        s@.subrange(1, s@.len() as int)
    } else {
        s@
    };
    if s.len() == start {
        return None;
    }
    let mut val: u64 = 0;
    let mut k: usize = start;
    while k < s.len()
        invariant
            start <= k <= s@.len(),
            t == if neg {
                s@.subrange(1, s@.len() as int)
            } else {
                s@
            },
            t.len() == s@.len() - start,
            forall|u: int| 0 <= u < t.len() ==> t[u] == s@[u + start],
            forall|u: int| 0 <= u < k - start ==> spec_is_digit(#[trigger] t[u]),
            val as int == sp_dec_val(t.subrange(0, k - start)),
            val <= 0x8000_0000,
        decreases s@.len() - k,
    {
        let c = s[k];
        if !crate::parse::is_digit(c) {
            return None;
        }
        let d: u64 = (c as u32 as u64) - ('0' as u32 as u64);
        proof {
            lemma_dec_val_step(t, k - start);
            assert(t.subrange(0, k - start + 1).drop_last() =~= t.subrange(0, k - start));
        }
        if val * 10 + d > 0x8000_0000 {
            proof {
                if sp_all_digits(t) {
                    lemma_dec_val_prefix(t, k - start + 1);
                }
            }
            return None;
        }
        val = val * 10 + d;
        k = k + 1;
    }
    proof {
        assert(t.subrange(0, t.len() as int) =~= t);
    }
    if neg {
        if val > 0x8000_0000 {
            return None;
        }
        Some((-(val as i64)) as i32)
    } else {
        if val > 0x7FFF_FFFF {
            return None;
        }
        Some(val as i32)
    }
}

/// The code and message an error object's parsed JSON stands for,
/// under the strict schema: an object with exactly a `code` member
/// spelling an integer and a `message` member holding a string, in
/// either order, nothing else, nothing twice.
pub open spec fn sp_error_object_of_rep(v: JsonRep) -> Option<(int, Seq<char>)> {
    match v {
        JsonRep::Object(ms) => {
            let n = ms.len() as int;
            if (forall|k: int|
                0 <= k < n ==> ((#[trigger] ms[k].0) == "code"@ || ms[k].0 == "message"@))
                && sp_count_key(ms, n, "code"@) == 1 && sp_count_key(ms, n, "message"@) == 1 {
                match (sp_get(ms, "code"@), sp_get(ms, "message"@)) {
                    (JsonRep::Num(t), JsonRep::Str(s)) => match sp_int_lit(t) {
                        Some(c) => if i32::MIN <= c <= i32::MAX {
                            Some((c, s))
                        } else {
                            None
                        },
                        None => None,
                    },
                    _ => None,
                }
            } else {
                None
            }
        },
        _ => None,
    }
}

/// The code and message a whole error-object text stands for.
pub open spec fn sp_parse_error_object(s: Seq<char>) -> Option<(int, Seq<char>)> {
    match sp_parse_json(s) {
        Some(v) => sp_error_object_of_rep(v),
        None => None,
    }
}

impl ErrorObject {
    /// Parses an error object from JSON text under the strict
    /// schema; an object with an unrecognized extra member is
    /// refused.  The code is read through the taxonomy, so a
    /// reserved integer comes back as its reserved variant.
    #[verifier::loop_isolation(false)]
    #[verifier::rlimit(100)]
    pub fn parse(text: &str) -> (r: Option<ErrorObject>)
        ensures
            match r {
                Some(e) => sp_parse_error_object(text@) matches Some((c, s)) && e.code
                    == spec_from_code(c as i32) && e.message@ == s,
                None => sp_parse_error_object(text@) is None,
            },
    {
        proof {
            reveal_strlit("code");
            reveal_strlit("message");
            assert("code"@.len() == 4 && "message"@.len() == 7);
            assert("code"@ != "message"@);
        }
        let Some(top) = crate::parse::parse_json(text) else { return None };
        let JsonValue::Object(mut members) = top else { return None };
        let ghost oms = members@;
        let ghost n = oms.len() as int;
        let ghost mms = crate::parse::rep_of_members(oms, n);
        proof {
            crate::parse::lemma_rep_of_members_len(oms, n);
            assert forall|k: int| 0 <= k < n implies mms[k] == (oms[k].0@, rep_of(
                oms[k].1,
            )) by {
                crate::parse::lemma_rep_of_members_index(oms, n, k);
            }
            assert(members@ =~= oms.subrange(0, n));
        }
        let ck: String = "code".to_owned();
        let mk: String = "message".to_owned();
        let mut sc: Option<JsonValue> = None;
        let mut sm: Option<JsonValue> = None;
        let ghost mut p: int = 0;
        while members.len() > 0
            invariant
                0 <= p,
                p + members@.len() == n,
                members@ == oms.subrange(p, n),
                forall|k: int|
                    0 <= k < p ==> ((#[trigger] mms[k].0) == "code"@ || mms[k].0 == "message"@),
                crate::request::sp_slot_sync(mms, p, "code"@, sc),
                crate::request::sp_slot_sync(mms, p, "message"@, sm),
            decreases members@.len(),
        {
            let entry = members.remove(0);
            proof {
                reveal_strlit("code");
                reveal_strlit("message");
                assert("code"@.len() == 4 && "message"@.len() == 7);
                assert(oms.subrange(p, n)[0] == oms[p]);
                assert(oms.subrange(p, n).remove(0) =~= oms.subrange(p + 1, n));
                assert(mms[p] == (oms[p].0@, rep_of(oms[p].1)));
            }
            let (key, value) = entry;
            if key == ck {
                if sc.is_some() {
                    proof {
                        crate::request::lemma_count_key_mono(mms, p + 1, n, "code"@);
                    }
                    return None;
                }
                sc = Some(value);
            } else if key == mk {
                if sm.is_some() {
                    proof {
                        crate::request::lemma_count_key_mono(mms, p + 1, n, "message"@);
                    }
                    return None;
                }
                sm = Some(value);
            } else {
                proof {
                    assert(0 <= p < n);
                    assert(mms[p].0 == key@);
                    assert(!(mms[p].0 == "code"@ || mms[p].0 == "message"@));
                }
                return None;
            }
            proof {
                p = p + 1;
            }
        }
        let Some(cv) = sc else { return None };
        let JsonValue::Num(t) = cv else { return None };
        let Some(code) = int_lit(t.as_str()) else { return None };
        let Some(mv) = sm else { return None };
        let JsonValue::Str(message) = mv else { return None };
        Some(ErrorObject { code: ErrorCode::from(code), message })
    }
}


/// The second member of a rendered error object parses back: from
/// its opening quote, the member list reads `message` with the
/// message string and closes the object.
#[verifier::rlimit(100)]
proof fn lemma_eo_second_member(e: ErrorObject)
    ensures
        ({
            let c = spec_code(e.code) as int;
            let msg = e.message@;
            let t = spec_ser_error_object(e);
            let q = 8 + spec_ser_int(c).len() as int;
            let z = q + 13 + spec_escape(msg).len() as int;
            sp_parse_members(t, q + 1, (RECURSION_LIMIT - 1) as u32) == Some(
                (seq![("message"@, JsonRep::Str(msg))], z + 1),
            ) && z + 1 == t.len()
        }),
{
    let c = spec_code(e.code) as int;
    let msg = e.message@;
    let lit = spec_ser_int(c);
    let esc = spec_escape(msg);
    let t = spec_ser_error_object(e);
    let q = 8 + lit.len() as int;
    let z = q + 13 + esc.len() as int;
    reveal_strlit("{\"code\":");
    reveal_strlit(",\"message\":");
    reveal_strlit("\"");
    reveal_strlit("}");
    reveal_strlit("message");
    assert(t == "{\"code\":"@ + lit + ",\"message\":"@ + spec_ser_string(msg) + "}"@);
    assert(spec_ser_string(msg) == "\""@ + esc + "\""@);
    assert(t[q + 1] == '"');
    lemma_escape_plain("message"@);
    let pre_k2 = t.subrange(0, q + 2);
    let post_k2 = seq![':'] + spec_ser_string(msg) + "}"@;
    assert(t =~= pre_k2 + spec_escape("message"@) + seq!['"'] + post_k2);
    lemma_escape_round_trip(pre_k2, "message"@, post_k2);
    assert(sp_parse_string_body(t, q + 2) == Some(("message"@, q + 10)));
    assert(t[q + 10] == ':' && t[q + 11] == '"');
    assert(sp_skip_ws(t, q + 10) == q + 10 && sp_skip_ws(t, q + 11) == q + 11);
    let pre_s = t.subrange(0, q + 12);
    assert(t =~= pre_s + esc + seq!['"'] + seq!['}']);
    lemma_escape_round_trip(pre_s, msg, seq!['}']);
    assert(sp_parse_string_body(t, q + 12) == Some((msg, z)));
    assert(z == q + 12 + esc.len() + 1int);
    assert(t[q + 11] != 'n' && t[q + 11] != 't' && t[q + 11] != 'f');
    assert(sp_parse_value(t, q + 11, (RECURSION_LIMIT - 1) as u32) == Some(
        (JsonRep::Str(msg), z),
    ));
    assert(t[z] == '}');
    assert(sp_skip_ws(t, z) == z);
    assert(z + 1 == t.len());
    assert(sp_parse_members(t, q + 1, (RECURSION_LIMIT - 1) as u32) == Some(
        (seq![("message"@, JsonRep::Str(msg))], z + 1),
    ));
}

/// The whole member list of a rendered error object parses back:
/// `code` with the code literal, then `message` with the message
/// string.
#[verifier::rlimit(100)]
proof fn lemma_eo_members(e: ErrorObject)
    ensures
        ({
            let c = spec_code(e.code) as int;
            let msg = e.message@;
            let t = spec_ser_error_object(e);
            sp_parse_members(t, 1, (RECURSION_LIMIT - 1) as u32) matches Some((ms, end)) && ms
                =~= seq![
                ("code"@, JsonRep::Num(spec_ser_int(c))),
                ("message"@, JsonRep::Str(msg)),
            ] && end == t.len()
        }),
{
    let c = spec_code(e.code) as int;
    let msg = e.message@;
    let lit = spec_ser_int(c);
    let t = spec_ser_error_object(e);
    let q = 8 + lit.len() as int;
    let z = q + 13 + spec_escape(msg).len() as int;
    reveal_strlit("{\"code\":");
    reveal_strlit(",\"message\":");
    reveal_strlit("\"");
    reveal_strlit("}");
    reveal_strlit("code");
    reveal_strlit("-");
    assert(t == "{\"code\":"@ + lit + ",\"message\":"@ + spec_ser_string(msg) + "}"@);
    let mag: u64 = if c < 0 {
        (-c) as u64
    } else {
        c as u64
    };
    lemma_id_number_round_trip(mag);
    if c < 0 {
        assert(lit =~= seq!['-'] + spec_dec_digits(mag as nat));
    }
    assert(lit.len() >= 1);
    assert(lit[0] == '-' || spec_is_digit(lit[0]));
    lemma_escape_plain("code"@);
    let post_k1 = seq![':'] + lit + ",\"message\":"@ + spec_ser_string(msg) + "}"@;
    assert(t =~= seq!['{', '"'] + spec_escape("code"@) + seq!['"'] + post_k1);
    lemma_escape_round_trip(seq!['{', '"'], "code"@, post_k1);
    assert(sp_parse_string_body(t, 2) == Some(("code"@, 7int)));
    let pre_n = t.subrange(0, 8);
    let post_n = ",\"message\":"@ + spec_ser_string(msg) + "}"@;
    assert(t =~= pre_n + lit + post_n);
    assert(post_n[0] == ',');
    lemma_ser_int_parse(pre_n, c, post_n);
    assert(sp_parse_number(t, 8) == Some((lit, q)));
    assert(t[8] == lit[0]);
    assert(t[7] == ':');
    assert(sp_skip_ws(t, 7) == 7);
    assert(!spec_is_ws(t[8]) && t[8] != 'n' && t[8] != 't' && t[8] != 'f' && t[8] != '"'
        && t[8] != '[' && t[8] != '{');
    assert(sp_skip_ws(t, 8) == 8);
    assert(sp_parse_value(t, 8, (RECURSION_LIMIT - 1) as u32) == Some((JsonRep::Num(lit), q)));
    assert(t[q] == ',' && t[q + 1] == '"');
    assert(sp_skip_ws(t, q) == q && sp_skip_ws(t, q + 1) == q + 1);
    lemma_eo_second_member(e);
    assert(sp_parse_members(t, 1, (RECURSION_LIMIT - 1) as u32) == Some(
        (
            seq![("code"@, JsonRep::Num(lit))] + seq![("message"@, JsonRep::Str(msg))],
            z + 1,
        ),
    ));
    assert(seq![("code"@, JsonRep::Num(lit))] + seq![("message"@, JsonRep::Str(msg))] =~= seq![
        ("code"@, JsonRep::Num(lit)),
        ("message"@, JsonRep::Str(msg)),
    ]);
}

/// An error object's rendering parses back to its own code and
/// message: serialization and strict deserialization round-trip, for
/// every code and every message.
#[verifier::rlimit(100)]
pub proof fn lemma_error_object_round_trip(e: ErrorObject)
    ensures
        sp_parse_error_object(spec_ser_error_object(e)) matches Some((c, s)) && c == spec_code(
            e.code,
        ) as int && s == e.message@,
{
    let c = spec_code(e.code) as int;
    let msg = e.message@;
    let lit = spec_ser_int(c);
    let t = spec_ser_error_object(e);
    reveal_strlit("{\"code\":");
    reveal_strlit("code");
    reveal_strlit("message");
    reveal_strlit("-");
    assert(t == "{\"code\":"@ + lit + ",\"message\":"@ + spec_ser_string(msg) + "}"@);
    lemma_eo_members(e);
    let ms = seq![("code"@, JsonRep::Num(lit)), ("message"@, JsonRep::Str(msg))];
    assert(t[0] == '{' && t[1] == '"');
    assert(sp_skip_ws(t, 0) == 0 && sp_skip_ws(t, 1) == 1);
    assert(t[0] != 'n' && t[0] != 't' && t[0] != 'f' && t[0] != '"' && t[0] != '-'
        && !spec_is_digit(t[0]) && t[0] != '[');
    assert(sp_parse_value(t, 0, RECURSION_LIMIT) == Some((JsonRep::Object(ms), t.len() as int)));
    assert(sp_skip_ws(t, t.len() as int) == t.len());
    assert(sp_parse_json(t) == Some(JsonRep::Object(ms)));
    assert("code"@ != "message"@);
    assert(ms[0] == ("code"@, JsonRep::Num(lit)) && ms[1] == ("message"@, JsonRep::Str(msg)));
    assert(sp_count_key(ms, 0, "code"@) == 0 && sp_count_key(ms, 0, "message"@) == 0);
    assert(sp_count_key(ms, 1, "code"@) == 1 && sp_count_key(ms, 1, "message"@) == 0);
    assert(sp_count_key(ms, 2, "code"@) == 1 && sp_count_key(ms, 2, "message"@) == 1);
    assert(sp_first_val(ms, 0, "code"@) is None && sp_first_val(ms, 0, "message"@) is None);
    assert(sp_first_val(ms, 1, "code"@) == Some(JsonRep::Num(lit)));
    assert(sp_first_val(ms, 1, "message"@) is None);
    assert(sp_first_val(ms, 2, "code"@) == Some(JsonRep::Num(lit)));
    assert(sp_first_val(ms, 2, "message"@) == Some(JsonRep::Str(msg)));
    assert(sp_get(ms, "code"@) == JsonRep::Num(lit));
    assert(sp_get(ms, "message"@) == JsonRep::Str(msg));
    let mag: u64 = if c < 0 {
        (-c) as u64
    } else {
        c as u64
    };
    lemma_id_number_round_trip(mag);
    if c < 0 {
        assert(lit =~= seq!['-'] + spec_dec_digits(mag as nat));
        assert(lit[0] == '-');
        assert(lit.subrange(1, lit.len() as int) =~= spec_dec_digits(mag as nat));
        assert(sp_int_lit(lit) == Some(c));
    } else {
        assert(lit == spec_dec_digits(mag as nat));
        assert(lit[0] != '-');
        assert(sp_int_lit(lit) == Some(c));
    }
    assert(sp_error_object_of_rep(JsonRep::Object(ms)) == Some((c, msg)));
}

} // verus!
