//! JSON on the wire: what `serde_json` reads out of a request line and how a string is written
//! as a JSON string, and the JSON text this server frames around them (objects, arrays,
//! JSON-RPC 2.0 envelopes).

use vstd::prelude::*;

use super::opt_view;
use crate::text::{join, push_all, push_join, push_str, views};

verus! {

// ------------------------------------------------------------------------------- serde_json

/// `serde_json`'s error message for `line` when it is not JSON; `None` when it parses.
pub uninterp spec fn json_error(line: Seq<char>) -> Option<Seq<char>>;

/// The string at JSON pointer `pointer` in the JSON of `line` (`None` when the line is not
/// JSON, nothing is there, or it is not a string).
pub uninterp spec fn json_str_at(line: Seq<char>, pointer: Seq<char>) -> Option<Seq<char>>;

/// The non-negative integer (fitting `u64`) at `pointer` in the JSON of `line`.
pub uninterp spec fn json_u64_at(line: Seq<char>, pointer: Seq<char>) -> Option<u64>;

/// The boolean at `pointer` in the JSON of `line`.
pub uninterp spec fn json_bool_at(line: Seq<char>, pointer: Seq<char>) -> Option<bool>;

/// The value at `pointer` in the JSON of `line`, written back as JSON text.
pub uninterp spec fn json_text_at(line: Seq<char>, pointer: Seq<char>) -> Option<Seq<char>>;

/// A lower-case hexadecimal digit.
pub open spec fn hex_digit(n: int) -> char {
    if n < 10 {
        (48 + n) as char
    } else {
        (87 + n) as char
    }
}

/// One character inside a JSON string as `serde_json` writes it: `"` and `\` escaped with a
/// backslash, backspace, tab, line feed, form feed and carriage return as `\b \t \n \f \r`,
/// the other characters below U+0020 as `\u00xx` (lower-case hex); everything else as is.
pub open spec fn escape_char(c: char) -> Seq<char> {
    let n = c as u32;
    if c == '"' {
        seq!['\\', '"']
    } else if c == '\\' {
        seq!['\\', '\\']
    } else if n == 8 {
        seq!['\\', 'b']
    } else if n == 9 {
        seq!['\\', 't']
    } else if n == 10 {
        seq!['\\', 'n']
    } else if n == 12 {
        seq!['\\', 'f']
    } else if n == 13 {
        seq!['\\', 'r']
    } else if n < 32 {
        seq!['\\', 'u', '0', '0', hex_digit((n / 16) as int), hex_digit((n % 16) as int)]
    } else {
        seq![c]
    }
}

/// Every character of `s` escaped.
pub open spec fn escaped(s: Seq<char>) -> Seq<char>
    decreases s.len(),
{
    if s.len() == 0 {
        seq![]
    } else {
        escaped(s.drop_last()) + escape_char(s.last())
    }
}

/// `s` written as a JSON string: in double quotes, escaped.
pub open spec fn json_quoted(s: Seq<char>) -> Seq<char> {
    seq!['"'] + escaped(s) + seq!['"']
}

/// `serde_json::from_str::<Value>(line)`'s error, as its `Display` text. Claimed: the result
/// is `json_error(line)`, a function of `line` alone.
#[verifier::external_body]
pub(crate) fn parse_error(line: &str) -> (r: Option<String>)
    ensures
        opt_view(r) == json_error(line@),
{
    serde_json::from_str::<serde_json::Value>(line).err().map(|e| e.to_string())
}

/// `serde_json::from_str::<Value>(line)`, then `Value::pointer(pointer)` and `Value::as_str`.
/// Claimed: the result is `json_str_at(line, pointer)`, a function of the two texts alone.
#[verifier::external_body]
pub(crate) fn str_at(line: &str, pointer: &str) -> (r: Option<String>)
    ensures
        opt_view(r) == json_str_at(line@, pointer@),
{
    let v = serde_json::from_str::<serde_json::Value>(line).ok();
    v.and_then(|v| v.pointer(pointer).and_then(serde_json::Value::as_str).map(str::to_owned))
}

/// `serde_json::from_str::<Value>(line)`, then `Value::pointer(pointer)` and `Value::as_u64`.
/// Claimed: the result is `json_u64_at(line, pointer)`.
#[verifier::external_body]
pub(crate) fn u64_at(line: &str, pointer: &str) -> (r: Option<u64>)
    ensures
        r == json_u64_at(line@, pointer@),
{
    let v = serde_json::from_str::<serde_json::Value>(line).ok();
    v.and_then(|v| v.pointer(pointer).and_then(serde_json::Value::as_u64))
}

/// `serde_json::from_str::<Value>(line)`, then `Value::pointer(pointer)` and `Value::as_bool`.
/// Claimed: the result is `json_bool_at(line, pointer)`.
#[verifier::external_body]
pub(crate) fn bool_at(line: &str, pointer: &str) -> (r: Option<bool>)
    ensures
        r == json_bool_at(line@, pointer@),
{
    let v = serde_json::from_str::<serde_json::Value>(line).ok();
    v.and_then(|v| v.pointer(pointer).and_then(serde_json::Value::as_bool))
}

/// `serde_json::from_str::<Value>(line)`, then `Value::pointer(pointer)` written back with
/// `Value`'s `Display`. Claimed: the result is `json_text_at(line, pointer)`.
#[verifier::external_body]
pub(crate) fn text_at(line: &str, pointer: &str) -> (r: Option<String>)
    ensures
        opt_view(r) == json_text_at(line@, pointer@),
{
    let v = serde_json::from_str::<serde_json::Value>(line).ok();
    v.and_then(|v| v.pointer(pointer).map(|x| x.to_string()))
}

/// `Value::String(s)` written with `Value`'s `Display`. Claimed: the result is
/// `json_quoted(s)`, serde_json's escape table (`ESCAPE` and `write_char_escape`).
#[verifier::external_body]
pub(crate) fn quote(s: &[char]) -> (r: Vec<char>)
    ensures
        r@ == json_quoted(s@),
{
    serde_json::Value::String(s.iter().collect()).to_string().chars().collect()
}

// ------------------------------------------------------------------------------- framing

/// `"key":value`, for a key made of plain characters (no quote or backslash).
pub open spec fn member(key: Seq<char>, value: Seq<char>) -> Seq<char> {
    seq!['"'] + key + seq!['"', ':'] + value
}

/// `{m1,m2,…}` over members already written.
pub open spec fn obj(members: Seq<Seq<char>>) -> Seq<char> {
    seq!['{'] + join(members, seq![',']) + seq!['}']
}

/// `[i1,i2,…]` over items already written.
pub open spec fn arr(items: Seq<Seq<char>>) -> Seq<char> {
    seq!['['] + join(items, seq![',']) + seq![']']
}

/// The JSON-RPC 2.0 success response with id text `id`.
pub open spec fn rpc_result(id: Seq<char>, result: Seq<char>) -> Seq<char> {
    obj(seq![member("id"@, id), member("jsonrpc"@, json_quoted("2.0"@)), member("result"@, result)])
}

/// The JSON-RPC 2.0 error response with id text `id`, error code text `code`.
pub open spec fn rpc_error(id: Seq<char>, code: Seq<char>, message: Seq<char>) -> Seq<char> {
    obj(
        seq![
            member("error"@, obj(seq![member("code"@, code), member("message"@, json_quoted(message))])),
            member("id"@, id),
            member("jsonrpc"@, json_quoted("2.0"@)),
        ],
    )
}

pub(crate) fn member_text(key: &str, value: &[char]) -> (r: Vec<char>)
    ensures
        r@ == member(key@, value@),
{
    let mut r: Vec<char> = Vec::new();
    r.push('"');
    push_str(&mut r, key);
    r.push('"');
    r.push(':');
    push_all(&mut r, value);
    assert(r@ =~= member(key@, value@));
    r
}

/// `member(key, json_quoted(value))`.
pub(crate) fn member_quoted(key: &str, value: &[char]) -> (r: Vec<char>)
    ensures
        r@ == member(key@, json_quoted(value@)),
{
    let q = quote(value);
    member_text(key, q.as_slice())
}

pub(crate) fn obj_text(members: &[Vec<char>]) -> (r: Vec<char>)
    ensures
        r@ == obj(views(members@)),
{
    let mut r: Vec<char> = Vec::new();
    r.push('{');
    let comma: [char; 1] = [','];
    push_join(&mut r, members, comma.as_slice());
    r.push('}');
    assert(comma@ =~= seq![',']);
    assert(r@ =~= obj(views(members@)));
    r
}

pub(crate) fn arr_text(items: &[Vec<char>]) -> (r: Vec<char>)
    ensures
        r@ == arr(views(items@)),
{
    let mut r: Vec<char> = Vec::new();
    r.push('[');
    let comma: [char; 1] = [','];
    push_join(&mut r, items, comma.as_slice());
    r.push(']');
    assert(comma@ =~= seq![',']);
    assert(r@ =~= arr(views(items@)));
    r
}

/// The JSON-RPC 2.0 success response (`rpc_result`): request id text `id`, result text
/// `result`.
pub fn rpc_result_text(id: &[char], result: &[char]) -> (r: Vec<char>)
    ensures
        r@ == rpc_result(id@, result@),
{
    let two: [char; 3] = ['2', '.', '0'];
    let mut ms: Vec<Vec<char>> = Vec::new();
    ms.push(member_text("id", id));
    ms.push(member_quoted("jsonrpc", two.as_slice()));
    ms.push(member_text("result", result));
    proof {
        reveal_strlit("2.0");
        assert(two@ =~= "2.0"@);
        assert(views(ms@) =~= seq![
            member("id"@, id@),
            member("jsonrpc"@, json_quoted("2.0"@)),
            member("result"@, result@),
        ]);
    }
    obj_text(ms.as_slice())
}

/// The JSON-RPC 2.0 error response (`rpc_error`): request id text `id`, error code text
/// `code`, message `message`.
pub fn rpc_error_text(id: &[char], code: &str, message: &[char]) -> (r: Vec<char>)
    ensures
        r@ == rpc_error(id@, code@, message@),
{
    let two: [char; 3] = ['2', '.', '0'];
    let mut inner: Vec<Vec<char>> = Vec::new();
    let cv: Vec<char> = crate::text::chars_of(code);
    inner.push(member_text("code", cv.as_slice()));
    inner.push(member_quoted("message", message));
    let e = obj_text(inner.as_slice());
    let mut ms: Vec<Vec<char>> = Vec::new();
    ms.push(member_text("error", e.as_slice()));
    ms.push(member_text("id", id));
    ms.push(member_quoted("jsonrpc", two.as_slice()));
    proof {
        reveal_strlit("2.0");
        assert(two@ =~= "2.0"@);
        assert(views(inner@) =~= seq![member("code"@, code@), member("message"@, json_quoted(message@))]);
        assert(views(ms@) =~= seq![
            member("error"@, e@),
            member("id"@, id@),
            member("jsonrpc"@, json_quoted("2.0"@)),
        ]);
    }
    obj_text(ms.as_slice())
}

} // verus!
