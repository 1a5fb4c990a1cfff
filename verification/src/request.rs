//! The request envelope: `{"jsonrpc":"2.0","method":...,"params":...,
//! "id":...}`.

use vstd::prelude::*;

use crate::error_code::ErrorCode;
use crate::id::Id;
use crate::json::spec_is_digit;
use crate::json::JsonValue;
use crate::parse::lemma_rep_of_members_index;
use crate::parse::lemma_rep_of_members_len;
use crate::parse::rep_of;
use crate::parse::rep_of_list;
use crate::parse::rep_of_members;
use crate::parse::sp_parse_json;
use crate::parse::JsonRep;

verus! {

/// The protocol version string every envelope carries.
pub open spec fn spec_version() -> Seq<char> {
    "2.0"@
}

/// An rpc call is represented by sending a request object to a
/// server.
#[derive(Debug)]
pub struct RpcRequest {
    /// The version of the JSON-RPC protocol; exactly `"2.0"`.
    pub jsonrpc: String,
    /// The name of the method to be invoked.
    pub method: String,
    /// The positional parameter values for the invocation.  Absent on
    /// the wire (or JSON `null`) is `None`; both mean "no
    /// parameters", as an empty array does.
    pub params: Option<Vec<JsonValue>>,
    /// The identifier established by the client; echoed back in the
    /// response.
    pub id: Id,
}

/// The ghost shape of an id.
pub enum IdRep {
    /// Null id.
    Null,
    /// Numeric id.
    Number(u64),
    /// String id.
    Str(Seq<char>),
}

/// The ghost shape of an `Id`.
pub open spec fn id_rep_of(id: Id) -> IdRep {
    match id {
        Id::Null => IdRep::Null,
        Id::Number(n) => IdRep::Number(n),
        Id::Str(s) => IdRep::Str(s@),
    }
}

/// The ghost shape of a request.
pub struct ReqRep {
    /// The version string.
    pub jsonrpc: Seq<char>,
    /// The method name.
    pub method: Seq<char>,
    /// The positional parameters, if a `params` array was present.
    pub params: Option<Seq<JsonRep>>,
    /// The id.
    pub id: IdRep,
}

/// The ghost shape of an `RpcRequest`.
pub open spec fn req_rep_of(r: RpcRequest) -> ReqRep {
    ReqRep {
        jsonrpc: r.jsonrpc@,
        method: r.method@,
        params: match r.params {
            Option::None => None,
            Option::Some(ps) => Some(rep_of_list(ps@, ps@.len() as int)),
        },
        id: id_rep_of(r.id),
    }
}

/// Whether `s` is one or more decimal digits.
pub open spec fn sp_all_digits(s: Seq<char>) -> bool {
    s.len() > 0 && forall|k: int| 0 <= k < s.len() ==> spec_is_digit(#[trigger] s[k])
}

/// The numeric value of a digit string.
pub open spec fn sp_dec_val(s: Seq<char>) -> int
    decreases s.len(),
{
    if s.len() == 0 {
        0
    } else {
        sp_dec_val(s.drop_last()) * 10 + (s.last() as int - '0' as int)
    }
}

/// The id a parsed JSON value stands for: JSON `null`, a string, or
/// a number that is a plain run of digits fitting an unsigned
/// sixty-four-bit integer.  Any other value refuses the request.
pub open spec fn sp_id_of_rep(v: JsonRep) -> Option<IdRep> {
    match v {
        JsonRep::Null => Some(IdRep::Null),
        JsonRep::Str(s) => Some(IdRep::Str(s)),
        JsonRep::Num(t) => if sp_all_digits(t) && sp_dec_val(t) <= u64::MAX {
            Some(IdRep::Number(sp_dec_val(t) as u64))
        } else {
            None
        },
        _ => None,
    }
}

/// The parameter list a parsed `params` value stands for: JSON
/// `null` counts as absent, an array is taken as it is, anything
/// else refuses the request.
pub open spec fn sp_params_of_rep(v: JsonRep) -> Option<Option<Seq<JsonRep>>> {
    match v {
        JsonRep::Null => Some(None),
        JsonRep::Array(vs) => Some(Some(vs)),
        _ => None,
    }
}

/// How many of the first `i` members carry the key `key`.
pub open spec fn sp_count_key(ms: Seq<(Seq<char>, JsonRep)>, i: int, key: Seq<char>) -> int
    decreases i,
{
    if i <= 0 || i > ms.len() {
        0
    } else {
        sp_count_key(ms, i - 1, key) + if ms[i - 1].0 == key {
            1int
        } else {
            0int
        }
    }
}

/// The value of the first of the first `i` members carrying `key`.
pub open spec fn sp_first_val(ms: Seq<(Seq<char>, JsonRep)>, i: int, key: Seq<char>) -> Option<
    JsonRep,
>
    decreases i,
{
    if i <= 0 || i > ms.len() {
        None
    } else {
        match sp_first_val(ms, i - 1, key) {
            Some(v) => Some(v),
            None => if ms[i - 1].0 == key {
                Some(ms[i - 1].1)
            } else {
                None
            },
        }
    }
}

/// The value under `key`, where the caller knows one is there.
pub open spec fn sp_get(ms: Seq<(Seq<char>, JsonRep)>, key: Seq<char>) -> JsonRep {
    match sp_first_val(ms, ms.len() as int, key) {
        Some(v) => v,
        None => JsonRep::Null,
    }
}

/// Whether `key` is one of the four request fields.
pub open spec fn sp_known_key(key: Seq<char>) -> bool {
    key == "jsonrpc"@ || key == "method"@ || key == "params"@ || key == "id"@
}

/// The request a parsed top-level object stands for, under the
/// strict schema: only the four request fields, none twice,
/// `jsonrpc` exactly the string `2.0`, `method` a string, `params`
/// an array or `null` or absent, `id` a string, a digit-run number,
/// or `null`.
pub open spec fn sp_req_of_obj(ms: Seq<(Seq<char>, JsonRep)>) -> Option<ReqRep> {
    let n = ms.len() as int;
    if (forall|k: int| 0 <= k < n ==> sp_known_key(#[trigger] ms[k].0)) && sp_count_key(
        ms,
        n,
        "jsonrpc"@,
    ) == 1 && sp_count_key(ms, n, "method"@) == 1 && sp_count_key(ms, n, "id"@) == 1
        && sp_count_key(ms, n, "params"@) <= 1 {
        let me = sp_get(ms, "method"@);
        let pv = if sp_count_key(ms, n, "params"@) == 1 {
            sp_get(ms, "params"@)
        } else {
            JsonRep::Null
        };
        if sp_get(ms, "jsonrpc"@) == JsonRep::Str(spec_version()) && me is Str {
            match (sp_id_of_rep(sp_get(ms, "id"@)), sp_params_of_rep(pv)) {
                (Some(id), Some(params)) => Some(
                    ReqRep { jsonrpc: spec_version(), method: me->Str_0, params, id },
                ),
                _ => None,
            }
        } else {
            None
        }
    } else {
        None
    }
}

/// The request a whole text stands for: a strict JSON parse and the
/// strict request schema.
pub open spec fn sp_parse_request(s: Seq<char>) -> Option<ReqRep> {
    match sp_parse_json(s) {
        Some(JsonRep::Object(ms)) => sp_req_of_obj(ms),
        _ => None,
    }
}

/// The value of a digit string grows step by step: one more digit
/// multiplies the prefix value by ten and adds the digit.
pub(crate) proof fn lemma_dec_val_step(s: Seq<char>, k: int)
    requires
        0 <= k < s.len(),
    ensures
        sp_dec_val(s.subrange(0, k + 1)) == sp_dec_val(s.subrange(0, k)) * 10 + (s[k] as int
            - '0' as int),
{
    assert(s.subrange(0, k + 1).drop_last() =~= s.subrange(0, k));
    assert(s.subrange(0, k + 1).last() == s[k]);
}

/// The value of a digit string is never negative.
pub(crate) proof fn lemma_dec_val_nonneg(s: Seq<char>)
    requires
        forall|t: int| 0 <= t < s.len() ==> spec_is_digit(#[trigger] s[t]),
    ensures
        sp_dec_val(s) >= 0,
    decreases s.len(),
{
    if s.len() > 0 {
        assert(forall|t: int|
            0 <= t < s.drop_last().len() ==> spec_is_digit(#[trigger] s.drop_last()[t]));
        lemma_dec_val_nonneg(s.drop_last());
    }
}

/// The value of a digit string is at least the value of any prefix.
pub(crate) proof fn lemma_dec_val_prefix(s: Seq<char>, k: int)
    requires
        0 <= k <= s.len(),
        forall|t: int| 0 <= t < s.len() ==> spec_is_digit(#[trigger] s[t]),
    ensures
        sp_dec_val(s.subrange(0, k)) <= sp_dec_val(s),
    decreases s.len() - k,
{
    if k == s.len() {
        assert(s.subrange(0, k) =~= s);
    } else {
        lemma_dec_val_step(s, k);
        assert(forall|t: int|
            0 <= t < s.subrange(0, k).len() ==> spec_is_digit(#[trigger] s.subrange(0, k)[t]));
        lemma_dec_val_nonneg(s.subrange(0, k));
        lemma_dec_val_prefix(s, k + 1);
    }
}

/// Reads a digit-run id number, refusing any other literal and any
/// value that does not fit.
fn id_digits(lit: &str) -> (r: Option<u64>)
    ensures
        match r {
            Some(nv) => sp_all_digits(lit@) && sp_dec_val(lit@) == nv as int,
            None => !(sp_all_digits(lit@) && sp_dec_val(lit@) <= u64::MAX),
        },
{
    let s = crate::parse::str_chars(lit);
    if s.len() == 0 {
        return None;
    }
    let mut val: u64 = 0;
    let mut k: usize = 0;
    while k < s.len()
        invariant
            k <= s@.len(),
            s@ == lit@,
            forall|t: int| 0 <= t < k as int ==> spec_is_digit(#[trigger] s@[t]),
            val as int == sp_dec_val(s@.subrange(0, k as int)),
        decreases s@.len() - k,
    {
        let c = s[k];
        if !crate::parse::is_digit(c) {
            return None;
        }
        let d: u64 = (c as u32 as u64) - ('0' as u32 as u64);
        proof {
            lemma_dec_val_step(s@, k as int);
        }
        if val > (u64::MAX - d) / 10 {
            proof {
                if sp_all_digits(lit@) {
                    lemma_dec_val_prefix(s@, k as int + 1);
                    assert(val * 10 > u64::MAX - d) by (nonlinear_arith)
                        requires
                            val > (u64::MAX - d) / 10,
                            d <= 9,
                    ;
                }
            }
            return None;
        }
        val = val * 10 + d;
        k = k + 1;
    }
    proof {
        assert(s@.subrange(0, s@.len() as int) =~= s@);
    }
    Some(val)
}

/// One registered count-and-first-occurrence record of a request
/// field while the members are scanned.
pub open spec fn sp_slot_sync(
    ms: Seq<(Seq<char>, JsonRep)>,
    p: int,
    key: Seq<char>,
    slot: Option<JsonValue>,
) -> bool {
    match slot {
        Option::Some(v) => sp_count_key(ms, p, key) == 1 && sp_first_val(ms, p, key) == Some(
            rep_of(v),
        ),
        Option::None => sp_count_key(ms, p, key) == 0 && sp_first_val(ms, p, key) is None,
    }
}

/// The count of a key never shrinks as the scan extends.
pub(crate) proof fn lemma_count_key_mono(ms: Seq<(Seq<char>, JsonRep)>, i: int, j: int, key: Seq<char>)
    requires
        0 <= i <= j <= ms.len(),
    ensures
        sp_count_key(ms, i, key) <= sp_count_key(ms, j, key),
    decreases j - i,
{
    if i < j {
        lemma_count_key_mono(ms, i, j - 1, key);
    }
}

impl RpcRequest {
    /// Parses request bytes under the strict schema; any failure is
    /// the parse-error code, the request's id unread.
    #[verifier::loop_isolation(false)]
    #[verifier::rlimit(100)]
    pub fn parse(text: &str) -> (r: Result<RpcRequest, ErrorCode>)
        ensures
            match r {
                Result::Ok(req) => sp_parse_request(text@) == Some(req_rep_of(req)),
                Result::Err(code) => sp_parse_request(text@) is None && code
                    == ErrorCode::ParseError,
            },
    {
        proof {
            reveal_strlit("jsonrpc");
            reveal_strlit("method");
            reveal_strlit("params");
            reveal_strlit("id");
        }
        let Some(top) = crate::parse::parse_json(text) else {
            return Err(ErrorCode::ParseError);
        };
        let JsonValue::Object(mut members) = top else { return Err(ErrorCode::ParseError) };
        let ghost oms = members@;
        let ghost n = oms.len() as int;
        let ghost mms = rep_of_members(oms, n);
        proof {
            lemma_rep_of_members_len(oms, n);
            assert forall|k: int| 0 <= k < n implies mms[k] == (oms[k].0@, rep_of(
                oms[k].1,
            )) by {
                lemma_rep_of_members_index(oms, n, k);
            }
            assert(members@ =~= oms.subrange(0, n));
        }
        let jk: String = "jsonrpc".to_owned();
        let mk: String = "method".to_owned();
        let pk: String = "params".to_owned();
        let ik: String = "id".to_owned();
        let mut sj: Option<JsonValue> = None;
        let mut sm: Option<JsonValue> = None;
        let mut sp: Option<JsonValue> = None;
        let mut si: Option<JsonValue> = None;
        let ghost mut p: int = 0;
        while members.len() > 0
            invariant
                0 <= p,
                p + members@.len() == n,
                members@ == oms.subrange(p, n),
                forall|k: int| 0 <= k < p ==> sp_known_key(#[trigger] mms[k].0),
                sp_slot_sync(mms, p, "jsonrpc"@, sj),
                sp_slot_sync(mms, p, "method"@, sm),
                sp_slot_sync(mms, p, "params"@, sp),
                sp_slot_sync(mms, p, "id"@, si),
            decreases members@.len(),
        {
            let entry = members.remove(0);
            proof {
                reveal_strlit("jsonrpc");
                reveal_strlit("method");
                reveal_strlit("params");
                reveal_strlit("id");
                assert("jsonrpc"@.len() == 7 && "method"@.len() == 6 && "params"@.len() == 6
                    && "id"@.len() == 2);
                assert("method"@[0] == 'm' && "params"@[0] == 'p');
                assert("jsonrpc"@ != "method"@ && "jsonrpc"@ != "params"@ && "jsonrpc"@ != "id"@);
                assert("method"@ != "params"@ && "method"@ != "id"@ && "params"@ != "id"@);
                assert(oms.subrange(p, n)[0] == oms[p]);
                assert(oms.subrange(p, n).remove(0) =~= oms.subrange(p + 1, n));
                assert(mms[p] == (oms[p].0@, rep_of(oms[p].1)));
            }
            let (key, value) = entry;
            if key == jk {
                if sj.is_some() {
                    proof {
                        lemma_count_key_mono(mms, p + 1, n, "jsonrpc"@);
                    }
                    return Err(ErrorCode::ParseError);
                }
                sj = Some(value);
            } else if key == mk {
                if sm.is_some() {
                    proof {
                        lemma_count_key_mono(mms, p + 1, n, "method"@);
                    }
                    return Err(ErrorCode::ParseError);
                }
                sm = Some(value);
            } else if key == pk {
                if sp.is_some() {
                    proof {
                        lemma_count_key_mono(mms, p + 1, n, "params"@);
                    }
                    return Err(ErrorCode::ParseError);
                }
                sp = Some(value);
            } else if key == ik {
                if si.is_some() {
                    proof {
                        lemma_count_key_mono(mms, p + 1, n, "id"@);
                    }
                    return Err(ErrorCode::ParseError);
                }
                si = Some(value);
            } else {
                proof {
                    assert(!sp_known_key(mms[p].0));
                }
                return Err(ErrorCode::ParseError);
            }
            proof {
                p = p + 1;
            }
        }
        let Some(jv) = sj else { return Err(ErrorCode::ParseError) };
        let JsonValue::Str(version) = jv else { return Err(ErrorCode::ParseError) };
        if !(version == "2.0".to_owned()) {
            return Err(ErrorCode::ParseError);
        }
        let Some(mv) = sm else { return Err(ErrorCode::ParseError) };
        let JsonValue::Str(method) = mv else { return Err(ErrorCode::ParseError) };
        let Some(iv) = si else { return Err(ErrorCode::ParseError) };
        let id: Id = match iv {
            JsonValue::Null => Id::Null,
            JsonValue::Str(s) => Id::Str(s),
            JsonValue::Num(t) => {
                let Some(nv) = id_digits(t.as_str()) else {
                    return Err(ErrorCode::ParseError);
                };
                Id::Number(nv)
            },
            _ => {
                return Err(ErrorCode::ParseError);
            },
        };
        let params: Option<Vec<JsonValue>> = match sp {
            Option::None => None,
            Option::Some(JsonValue::Null) => None,
            Option::Some(JsonValue::Array(vs)) => Some(vs),
            Option::Some(_) => {
                return Err(ErrorCode::ParseError);
            },
        };
        Ok(RpcRequest { jsonrpc: version, method, params, id })
    }
}


/// The decimal rendering of a number is all digits, and reading it
/// back gives the number: a numeric id round-trips through the wire.
pub proof fn lemma_id_number_round_trip(n: u64)
    ensures
        sp_all_digits(crate::ser::spec_dec_digits(n as nat)),
        sp_dec_val(crate::ser::spec_dec_digits(n as nat)) == n as int,
        sp_id_of_rep(JsonRep::Num(crate::ser::spec_dec_digits(n as nat))) == Some(
            IdRep::Number(n),
        ),
    decreases n,
{
    let s = crate::ser::spec_dec_digits(n as nat);
    if n < 10 {
        assert(s =~= seq![crate::ser::spec_digit(n as int)]);
        assert(s.drop_last() =~= Seq::<char>::empty());
        assert(sp_dec_val(Seq::<char>::empty()) == 0);
        assert(sp_dec_val(s) == s.last() as int - '0' as int);
    } else {
        lemma_id_number_round_trip(n / 10);
        let p = crate::ser::spec_dec_digits((n / 10) as nat);
        assert(s =~= p + seq![crate::ser::spec_digit((n % 10) as int)]);
        assert(s.drop_last() =~= p);
        assert(s.last() == crate::ser::spec_digit((n % 10) as int));
        assert(forall|k: int| 0 <= k < p.len() ==> s[k] == p[k]);
        assert(sp_dec_val(s) == sp_dec_val(p) * 10 + (s.last() as int - '0' as int));
    }
}

} // verus!
