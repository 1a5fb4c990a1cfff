//! The serialization contract of the envelope: a character-exact
//! rendering of values, error objects, ids, requests and responses,
//! stated by spec functions and implemented against them.  A response
//! serializes its payload flattened into exactly one of a `result` or
//! an `error` field.

use vstd::prelude::*;

use crate::error_code::spec_code;
use crate::error_object::ErrorObject;
use crate::id::Id;
use crate::json::JsonValue;
use crate::request::RpcRequest;
use crate::response::RpcPayload;
use crate::response::RpcResponse;

verus! {

/// The decimal digit character of `d`.
pub open spec fn spec_digit(d: int) -> char {
    if d == 0 {
        '0'
    } else if d == 1 {
        '1'
    } else if d == 2 {
        '2'
    } else if d == 3 {
        '3'
    } else if d == 4 {
        '4'
    } else if d == 5 {
        '5'
    } else if d == 6 {
        '6'
    } else if d == 7 {
        '7'
    } else if d == 8 {
        '8'
    } else {
        '9'
    }
}

/// The lower-case hexadecimal digit character of `d`.
pub open spec fn spec_hex_digit(d: int) -> char {
    if d < 10 {
        spec_digit(d)
    } else if d == 10 {
        'a'
    } else if d == 11 {
        'b'
    } else if d == 12 {
        'c'
    } else if d == 13 {
        'd'
    } else if d == 14 {
        'e'
    } else {
        'f'
    }
}

/// The decimal rendering of `n`, without sign or leading zeros.
pub open spec fn spec_dec_digits(n: nat) -> Seq<char>
    decreases n,
{
    if n < 10 {
        seq![spec_digit(n as int)]
    } else {
        spec_dec_digits(n / 10) + seq![spec_digit((n % 10) as int)]
    }
}

/// The decimal rendering of `n`, `-` first when it is negative.
pub open spec fn spec_ser_int(n: int) -> Seq<char> {
    if n < 0 {
        "-"@ + spec_dec_digits((-n) as nat)
    } else {
        spec_dec_digits(n as nat)
    }
}

/// How one character is written inside a JSON string: quote and
/// backslash get a backslash, the named control characters their
/// two-character escapes, any other control character its `\u00xx`
/// form, and everything else stands as itself.
pub open spec fn spec_escape_char(c: char) -> Seq<char> {
    if c == '"' {
        "\\\""@
    } else if c == '\\' {
        "\\\\"@
    } else if c == '\u{8}' {
        "\\b"@
    } else if c == '\u{c}' {
        "\\f"@
    } else if c == '\n' {
        "\\n"@
    } else if c == '\r' {
        "\\r"@
    } else if c == '\t' {
        "\\t"@
    } else if (c as u32) < 32 {
        "\\u00"@ + seq![spec_hex_digit((c as u32) as int / 16), spec_hex_digit((c as u32) as int % 16)]
    } else {
        seq![c]
    }
}

/// The escaped form of a whole string body.
pub open spec fn spec_escape(s: Seq<char>) -> Seq<char>
    decreases s.len(),
{
    if s.len() == 0 {
        Seq::empty()
    } else {
        spec_escape_char(s[0]) + spec_escape(s.drop_first())
    }
}

/// A JSON string: the escaped body between quotes.
pub open spec fn spec_ser_string(s: Seq<char>) -> Seq<char> {
    "\""@ + spec_escape(s) + "\""@
}

/// The rendering of a JSON value.
pub open spec fn spec_ser_value(v: JsonValue) -> Seq<char>
    decreases v, 0int,
{
    match v {
        JsonValue::Null => "null"@,
        JsonValue::Bool(b) => if b {
            "true"@
        } else {
            "false"@
        },
        JsonValue::Num(s) => s@,
        JsonValue::Str(s) => spec_ser_string(s@),
        JsonValue::Array(elems) => "["@ + spec_ser_items(elems@, elems@.len() as int) + "]"@,
        JsonValue::Object(members) => "{"@ + spec_ser_members(members@, members@.len() as int)
            + "}"@,
    }
}

/// The rendering of the first `i` elements of an array body,
/// comma-separated.
pub open spec fn spec_ser_items(vs: Seq<JsonValue>, i: int) -> Seq<char>
    decreases vs, i,
{
    if i <= 0 || i > vs.len() {
        Seq::empty()
    } else if i == 1 {
        spec_ser_value(vs[0])
    } else {
        spec_ser_items(vs, i - 1) + ","@ + spec_ser_value(vs[i - 1])
    }
}

/// The rendering of the first `i` members of an object body,
/// comma-separated `key:value` pairs.
pub open spec fn spec_ser_members(ms: Seq<(String, JsonValue)>, i: int) -> Seq<char>
    decreases ms, i,
{
    if i <= 0 || i > ms.len() {
        Seq::empty()
    } else if i == 1 {
        spec_ser_string(ms[0].0@) + ":"@ + spec_ser_value(ms[0].1)
    } else {
        spec_ser_members(ms, i - 1) + ","@ + spec_ser_string(ms[i - 1].0@) + ":"@ + spec_ser_value(
            ms[i - 1].1,
        )
    }
}

/// The rendering of an id: `null`, a number, or a string.
pub open spec fn spec_ser_id(id: Id) -> Seq<char> {
    match id {
        Id::Null => "null"@,
        Id::Number(n) => spec_dec_digits(n as nat),
        Id::Str(s) => spec_ser_string(s@),
    }
}

/// The rendering of an error object: exactly a `code` and a
/// `message` field.
pub open spec fn spec_ser_error_object(e: ErrorObject) -> Seq<char> {
    "{\"code\":"@ + spec_ser_int(spec_code(e.code) as int) + ",\"message\":"@ + spec_ser_string(
        e.message@,
    ) + "}"@
}

/// The payload's field inside a response: `result` or `error`, never
/// both.
pub open spec fn spec_ser_payload_field(p: RpcPayload) -> Seq<char> {
    match p {
        RpcPayload::Result(v) => "\"result\":"@ + spec_ser_value(v),
        RpcPayload::Error(e) => "\"error\":"@ + spec_ser_error_object(e),
    }
}

/// The rendering of a whole response envelope.
pub open spec fn spec_ser_response(r: RpcResponse) -> Seq<char> {
    "{\"jsonrpc\":"@ + spec_ser_string(r.jsonrpc@) + ","@ + spec_ser_payload_field(r.payload)
        + ",\"id\":"@ + spec_ser_id(r.id) + "}"@
}

/// The rendering of a whole request envelope; absent parameters are
/// written as `null`.
pub open spec fn spec_ser_request(r: RpcRequest) -> Seq<char> {
    "{\"jsonrpc\":"@ + spec_ser_string(r.jsonrpc@) + ",\"method\":"@ + spec_ser_string(r.method@)
        + ",\"params\":"@ + (match r.params {
        Option::None => "null"@,
        Option::Some(vs) => "["@ + spec_ser_items(vs@, vs@.len() as int) + "]"@,
    }) + ",\"id\":"@ + spec_ser_id(r.id) + "}"@
}

/// Relies on `String::push`: appends the one character to the end of
/// the string.
#[verifier::external_body]
pub(crate) fn push_char(out: &mut String, c: char)
    ensures
        final(out)@ == old(out)@ + seq![c],
{
    out.push(c);
}

/// The decimal digit character of `d`.
fn digit_char(d: u64) -> (r: char)
    requires
        d < 10,
    ensures
        r == spec_digit(d as int),
{
    if d == 0 {
        '0'
    } else if d == 1 {
        '1'
    } else if d == 2 {
        '2'
    } else if d == 3 {
        '3'
    } else if d == 4 {
        '4'
    } else if d == 5 {
        '5'
    } else if d == 6 {
        '6'
    } else if d == 7 {
        '7'
    } else if d == 8 {
        '8'
    } else {
        '9'
    }
}

/// The lower-case hexadecimal digit character of `d`.
fn hex_digit_char(d: u32) -> (r: char)
    requires
        d < 16,
    ensures
        r == spec_hex_digit(d as int),
{
    if d < 10 {
        digit_char(d as u64)
    } else if d == 10 {
        'a'
    } else if d == 11 {
        'b'
    } else if d == 12 {
        'c'
    } else if d == 13 {
        'd'
    } else if d == 14 {
        'e'
    } else {
        'f'
    }
}

/// Writes the decimal rendering of `n`.
fn emit_u64(n: u64, out: &mut String)
    ensures
        final(out)@ == old(out)@ + spec_dec_digits(n as nat),
    decreases n,
{
    if n >= 10 {
        emit_u64(n / 10, out);
    }
    push_char(out, digit_char(n % 10));
}

/// Writes the decimal rendering of the integer code `c`.
fn emit_i32(c: i32, out: &mut String)
    ensures
        final(out)@ == old(out)@ + spec_ser_int(c as int),
{
    let wide: i64 = c as i64;
    if wide < 0 {
        out.append("-");
        emit_u64((-wide) as u64, out);
    } else {
        emit_u64(wide as u64, out);
    }
}

/// Writes the escaped form of one string character.
fn emit_escaped_char(c: char, out: &mut String)
    ensures
        final(out)@ == old(out)@ + spec_escape_char(c),
{
    if c == '"' {
        out.append("\\\"");
    } else if c == '\\' {
        out.append("\\\\");
    } else if c == '\u{8}' {
        out.append("\\b");
    } else if c == '\u{c}' {
        out.append("\\f");
    } else if c == '\n' {
        out.append("\\n");
    } else if c == '\r' {
        out.append("\\r");
    } else if c == '\t' {
        out.append("\\t");
    } else if (c as u32) < 32 {
        out.append("\\u00");
        push_char(out, hex_digit_char((c as u32) / 16));
        push_char(out, hex_digit_char((c as u32) % 16));
    } else {
        push_char(out, c);
    }
}

/// Escaping a string character by character from the front is the
/// same as escaping all but the last character and then the last.
proof fn lemma_escape_snoc(s: Seq<char>, c: char)
    ensures
        spec_escape(s.push(c)) == spec_escape(s) + spec_escape_char(c),
    decreases s.len(),
{
    if s.len() == 0 {
        assert(s.push(c)[0] == c);
        assert(s.push(c).drop_first() =~= Seq::<char>::empty());
        assert(spec_escape(Seq::<char>::empty()) == Seq::<char>::empty());
        assert(spec_escape(s.push(c)) =~= spec_escape_char(c));
        assert(spec_escape(s) + spec_escape_char(c) =~= spec_escape_char(c));
    } else {
        assert(s.push(c)[0] == s[0]);
        assert(s.push(c).drop_first() =~= s.drop_first().push(c));
        lemma_escape_snoc(s.drop_first(), c);
        assert(spec_escape(s.push(c)) =~= spec_escape(s) + spec_escape_char(c));
    }
}

/// Writes a JSON string: quote, escaped body, quote.
fn emit_string(s: &str, out: &mut String)
    ensures
        final(out)@ == old(out)@ + spec_ser_string(s@),
{
    out.append("\"");
    let ghost base = out@;
    let n = s.unicode_len();
    for i in 0..n
        invariant
            n == s@.len(),
            out@ == base + spec_escape(s@.subrange(0, i as int)),
    {
        let c = s.get_char(i);
        proof {
            assert(s@.subrange(0, i + 1) =~= s@.subrange(0, i as int).push(s@[i as int]));
            lemma_escape_snoc(s@.subrange(0, i as int), s@[i as int]);
        }
        emit_escaped_char(c, out);
    }
    proof {
        assert(s@.subrange(0, s@.len() as int) =~= s@);
    }
    out.append("\"");
}

/// Writes the rendering of a JSON value.
#[verifier::loop_isolation(false)]
#[verifier::rlimit(60)]
pub fn emit_value(v: &JsonValue, out: &mut String)
    ensures
        final(out)@ == old(out)@ + spec_ser_value(*v),
    decreases v,
{
    match v {
        JsonValue::Null => out.append("null"),
        JsonValue::Bool(b) => {
            if *b {
                out.append("true");
            } else {
                out.append("false");
            }
        },
        JsonValue::Num(s) => out.append(s.as_str()),
        JsonValue::Str(s) => emit_string(s.as_str(), out),
        JsonValue::Array(elems) => {
            out.append("[");
            let ghost base = out@;
            for i in 0..elems.len()
                invariant
                    out@ == base + spec_ser_items(elems@, i as int),
            {
                if i > 0 {
                    out.append(",");
                }
                proof {
                    assert(*v is Array);
                    assert(v->Array_0 == *elems);
                    assert(decreases_to!(*v => v->Array_0));
                    assert(decreases_to!(v->Array_0 => v->Array_0@));
                    assert(decreases_to!(v->Array_0@ => v->Array_0@[i as int]));
                    assert(v->Array_0@[i as int] == elems@[i as int]);
                }
                emit_value(&elems[i], out);
            }
            out.append("]");
        },
        JsonValue::Object(members) => {
            out.append("{");
            let ghost base = out@;
            for i in 0..members.len()
                invariant
                    out@ == base + spec_ser_members(members@, i as int),
            {
                if i > 0 {
                    out.append(",");
                }
                emit_string(members[i].0.as_str(), out);
                out.append(":");
                proof {
                    assert(decreases_to!(*v => v->Object_0));
                    assert(decreases_to!(v->Object_0 => v->Object_0@));
                    assert(decreases_to!(v->Object_0@ => v->Object_0@[i as int]));
                    assert(decreases_to!(v->Object_0@[i as int] => v->Object_0@[i as int].1));
                    assert(v->Object_0@[i as int].1 == members@[i as int].1);
                }
                emit_value(&members[i].1, out);
            }
            out.append("}");
        },
    }
}

/// Writes the rendering of an id.
fn emit_id(id: &Id, out: &mut String)
    ensures
        final(out)@ == old(out)@ + spec_ser_id(*id),
{
    match id {
        Id::Null => out.append("null"),
        Id::Number(n) => emit_u64(*n, out),
        Id::Str(s) => emit_string(s.as_str(), out),
    }
}

/// Writes the rendering of an error object.
fn emit_error_object(e: &ErrorObject, out: &mut String)
    ensures
        final(out)@ == old(out)@ + spec_ser_error_object(*e),
{
    out.append("{\"code\":");
    emit_i32(e.code(), out);
    out.append(",\"message\":");
    emit_string(e.message(), out);
    out.append("}");
}

impl ErrorObject {
    /// Prints out the value as a JSON string: exactly
    /// `{"code":...,"message":...}`.
    pub fn dump(&self) -> (r: String)
        ensures
            r@ == spec_ser_error_object(*self),
    {
        let mut out = String::new();
        emit_error_object(self, &mut out);
        out
    }
}

impl JsonValue {
    /// Prints out the value as a JSON string.
    pub fn dump(&self) -> (r: String)
        ensures
            r@ == spec_ser_value(*self),
    {
        let mut out = String::new();
        emit_value(self, &mut out);
        out
    }
}

impl JsonValue {
    /// The JSON number with the decimal rendering of `n`.
    pub fn of_u64(n: u64) -> (r: JsonValue)
        ensures
            r matches JsonValue::Num(s) && s@ == spec_dec_digits(n as nat),
    {
        let mut out = String::new();
        emit_u64(n, &mut out);
        JsonValue::Num(out)
    }
}

impl RpcResponse {
    /// Prints out the value as a JSON string, the payload flattened
    /// into exactly one of a `result` or an `error` field.
    pub fn dump(&self) -> (r: String)
        ensures
            r@ == spec_ser_response(*self),
    {
        let mut out = String::new();
        out.append("{\"jsonrpc\":");
        emit_string(self.jsonrpc.as_str(), &mut out);
        out.append(",");
        match &self.payload {
            RpcPayload::Result(v) => {
                out.append("\"result\":");
                emit_value(v, &mut out);
            },
            RpcPayload::Error(e) => {
                out.append("\"error\":");
                emit_error_object(e, &mut out);
            },
        }
        out.append(",\"id\":");
        emit_id(&self.id, &mut out);
        out.append("}");
        out
    }
}

impl RpcRequest {
    /// Prints out the value as a JSON string; absent parameters are
    /// written as `null`.
    pub fn dump(&self) -> (r: String)
        ensures
            r@ == spec_ser_request(*self),
    {
        let mut out = String::new();
        out.append("{\"jsonrpc\":");
        emit_string(self.jsonrpc.as_str(), &mut out);
        out.append(",\"method\":");
        emit_string(self.method.as_str(), &mut out);
        out.append(",\"params\":");
        match &self.params {
            Option::None => out.append("null"),
            Option::Some(vs) => {
                out.append("[");
                let ghost base = out@;
                for i in 0..vs.len()
                    invariant
                        out@ == base + spec_ser_items(vs@, i as int),
                {
                    if i > 0 {
                        out.append(",");
                    }
                    emit_value(&vs[i], &mut out);
                }
                out.append("]");
            },
        }
        out.append(",\"id\":");
        emit_id(&self.id, &mut out);
        out.append("}");
        out
    }
}

} // verus!
