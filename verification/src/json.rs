//! JSON game data files: a byte-order mark is skipped and the rest is read and
//! written by `serde_json`.
use vstd::prelude::*;
use crate::text::{chars_of, decode_utf8_bytes};
use crate::text::string_from_chars;
use vstd::string::StrSliceExecFns;

verus! {

/// Unit type for reading and writing JSON.
pub struct JsonHandler;

/// Why JSON could not be read or written.
#[derive(Debug, PartialEq, Eq, Structural)]
pub enum JsonError {
    /// The bytes are not UTF-8.
    InvalidUtf8,
    /// The text is not JSON.
    InvalidJson,
    /// The value could not be written.
    Unserializable,
}

/// The text without its leading byte-order marks (U+FEFF), as
/// `trim_start_matches('\u{FEFF}')` gives it.
pub open spec fn strip_bom_spec(s: Seq<char>) -> Seq<char>
    decreases s.len(),
{
    if s.len() > 0 && s[0] == '\u{FEFF}' {
        strip_bom_spec(s.drop_first())
    } else {
        s
    }
}

/// Declares `serde_json::Value`.
#[verifier::external_type_specification]
#[verifier::external_body]
pub struct ExJsonValue(serde_json::Value);

/// Declares `serde_json::Error`.
#[verifier::external_type_specification]
#[verifier::external_body]
pub struct ExJsonError(serde_json::Error);

/// The name of what `serde_json::from_str::<serde_json::Value>` reads from a
/// text: the value, or `None` when the text is not JSON.
pub uninterp spec fn json_parse(text: Seq<char>) -> Option<serde_json::Value>;

/// Calls `serde_json::from_str::<serde_json::Value>`; its outcome is
/// [`json_parse`] of the text.
#[verifier::external_body]
fn json_from_str(text: &str) -> (r: Result<serde_json::Value, serde_json::Error>)
    ensures
        r matches Ok(v) ==> json_parse(text@) == Some(v),
        r is Err ==> json_parse(text@) is None,
{
    serde_json::from_str(text)
}

/// The name of what `serde_json::to_string_pretty` writes for a value (two-space
/// indentation), or `None` when it fails.
pub uninterp spec fn json_pretty(v: serde_json::Value) -> Option<Seq<char>>;

/// Calls `serde_json::to_string_pretty`; its outcome is [`json_pretty`] of the value.
#[verifier::external_body]
fn json_to_string_pretty(v: &serde_json::Value) -> (r: Result<String, serde_json::Error>)
    ensures
        r matches Ok(t) ==> json_pretty(*v) == Some(t@),
        r is Err ==> json_pretty(*v) is None,
{
    serde_json::to_string_pretty(v)
}

/// The value that a JSON text (after its byte-order marks) holds, if any.
pub open spec fn json_read_spec(text: Seq<char>) -> Option<serde_json::Value> {
    json_parse(strip_bom_spec(text))
}

impl JsonHandler {
    /// The text without its leading byte-order marks.
    pub fn strip_bom(text: &str) -> (r: String)
        ensures
            r@ == strip_bom_spec(text@),
    {
        let v = chars_of(text);
        let mut i: usize = 0;
        assert(v@.subrange(0, v@.len() as int) =~= v@);
        while i < v.len() && v[i] == '\u{FEFF}'
            invariant
                i <= v.len(),
                v@ == text@,
                strip_bom_spec(text@) == strip_bom_spec(v@.subrange(i as int, v@.len() as int)),
            decreases v.len() - i,
        {
            assert(v@.subrange(i as int, v@.len() as int).drop_first() =~= v@.subrange(
                i + 1,
                v@.len() as int,
            ));
            i = i + 1;
        }
        string_from_chars(&v, i, v.len())
    }

    /// Reads a JSON value from text; byte-order marks at the start are skipped.
    pub fn parse_str(text: &str) -> (r: Result<serde_json::Value, JsonError>)
        ensures
            json_read_spec(text@) matches Some(v) ==> r == Ok::<serde_json::Value, JsonError>(v),
            json_read_spec(text@) is None ==> r == Err::<serde_json::Value, JsonError>(
                JsonError::InvalidJson,
            ),
    {
        let t = Self::strip_bom(text);
        match json_from_str(t.as_str()) {
            Ok(v) => Ok(v),
            Err(_) => Err(JsonError::InvalidJson),
        }
    }

    /// Reads a JSON value from bytes, which must be UTF-8.
    pub fn parse_from_bytes(content: &[u8]) -> (r: Result<serde_json::Value, JsonError>)
        ensures
            !vstd::utf8::valid_utf8(content@) ==> r == Err::<serde_json::Value, JsonError>(
                JsonError::InvalidUtf8,
            ),
            vstd::utf8::valid_utf8(content@) ==> (json_read_spec(
                vstd::utf8::decode_utf8(content@),
            ) matches Some(v) ==> r == Ok::<serde_json::Value, JsonError>(v)),
            vstd::utf8::valid_utf8(content@) ==> (json_read_spec(
                vstd::utf8::decode_utf8(content@),
            ) is None ==> r == Err::<serde_json::Value, JsonError>(JsonError::InvalidJson)),
    {
        match decode_utf8_bytes(content) {
            Some(text) => Self::parse_str(text.as_str()),
            None => Err(JsonError::InvalidUtf8),
        }
    }

    /// The pretty-printed text of a value.
    pub fn to_text(data: &serde_json::Value) -> (r: Result<String, JsonError>)
        ensures
            r matches Ok(t) ==> json_pretty(*data) == Some(t@),
            r is Err ==> json_pretty(*data) is None && r == Err::<String, JsonError>(
                JsonError::Unserializable,
            ),
    {
        match json_to_string_pretty(data) {
            Ok(t) => Ok(t),
            Err(_) => Err(JsonError::Unserializable),
        }
    }

    /// The UTF-8 bytes of the pretty-printed text of a value.
    pub fn to_bytes(data: &serde_json::Value) -> (r: Result<Vec<u8>, JsonError>)
        ensures
            r matches Ok(b) ==> json_pretty(*data) matches Some(t) && b@
                == vstd::utf8::encode_utf8(t),
            r is Err ==> json_pretty(*data) is None && r == Err::<Vec<u8>, JsonError>(
                JsonError::Unserializable,
            ),
    {
        match json_to_string_pretty(data) {
            Ok(t) => Ok(t.as_str().as_bytes_vec()),
            Err(_) => Err(JsonError::Unserializable),
        }
    }
}

/// The name of the JSON string value `serde_json::Value::String` holds for a text.
pub uninterp spec fn json_string_value(s: Seq<char>) -> serde_json::Value;

/// Calls `serde_json::Value::String` on a copy of the text; the value is
/// [`json_string_value`] of the text.
#[verifier::external_body]
pub(crate) fn json_string(s: &str) -> (v: serde_json::Value)
    ensures
        v == json_string_value(s@),
{
    serde_json::Value::String(s.to_string())
}

/// The (key, value) pairs of a sequence, keys by their views.
pub open spec fn pairs_view(pairs: Seq<(String, serde_json::Value)>) -> Seq<(Seq<char>, serde_json::Value)> {
    Seq::new(pairs.len(), |i: int| (pairs[i].0@, pairs[i].1))
}

/// The name of the JSON object that `serde_json::Map::insert` builds from
/// (key, value) pairs inserted in order into an empty map.
pub uninterp spec fn json_object_value(pairs: Seq<(Seq<char>, serde_json::Value)>) -> serde_json::Value;

/// Inserts the pairs in order into an empty `serde_json::Map` and wraps it as
/// `serde_json::Value::Object`; the value is [`json_object_value`] of the pairs.
#[verifier::external_body]
pub(crate) fn json_object(pairs: &Vec<(String, serde_json::Value)>) -> (v: serde_json::Value)
    ensures
        v == json_object_value(pairs_view(pairs@)),
{
    let mut map = serde_json::Map::new();
    for (k, val) in pairs {
        map.insert(k.clone(), val.clone());
    }
    serde_json::Value::Object(map)
}

} // verus!
