//! The calls into outside crates, and into parts of the standard library that
//! have no specification.
//!
//! What these functions promise is believed, not proved. Where the result of a
//! call takes pages to describe, it has a name: a function of the arguments of
//! which nothing is known but the facts stated here.

use vstd::prelude::*;

use crate::models::Timestamp;
use crate::split;
use crate::text;

verus! {

// ---------------------------------------------------------------------------
// Regular expressions
// ---------------------------------------------------------------------------

/// The texts of the matches of a regular expression, one after the other; none
/// where the pattern is no regular expression.
pub uninterp spec fn regex_matches(pattern: Seq<char>, text: Seq<char>) -> Option<Seq<Seq<char>>>;

/// The texts of the first group of the matches of a regular expression; none
/// where the pattern is no regular expression.
pub uninterp spec fn regex_groups(pattern: Seq<char>, text: Seq<char>) -> Option<Seq<Seq<char>>>;

/// The view of an optional list of strings.
pub open spec fn opt_strs(o: Option<Vec<String>>) -> Option<Seq<Seq<char>>> {
    match o {
        Some(v) => Some(text::strs(v@)),
        None => None,
    }
}

/// `regex::Regex::find_iter`, on the expression that `regex::Regex::new` makes
/// of `pattern`: the texts of the matches that do not overlap, from left to
/// right. The result depends on the pattern and the text alone, and each text
/// that is found stands in the text that was searched. Which texts match is not
/// said.
#[verifier::external_body]
pub(crate) fn find_all(pattern: &str, haystack: &str) -> (r: Option<Vec<String>>)
    ensures
        opt_strs(r) == regex_matches(pattern@, haystack@),
        r matches Some(v) ==> forall|i: int|
            0 <= i < v@.len() ==> split::has_text(haystack@, (#[trigger] v@[i])@),
{
    let re = regex::Regex::new(pattern).ok()?;
    Some(re.find_iter(haystack).map(|m| m.as_str().to_string()).collect())
}

/// `regex::Regex::captures_iter`, on the expression that `regex::Regex::new`
/// makes of `pattern`: the text of the first group of each match, from left to
/// right, empty where the group took no part in the match. The result depends on
/// the pattern and the text alone, and each text stands in the text that was
/// searched. Which texts match is not said.
#[verifier::external_body]
pub(crate) fn first_groups(pattern: &str, haystack: &str) -> (r: Option<Vec<String>>)
    ensures
        opt_strs(r) == regex_groups(pattern@, haystack@),
        r matches Some(v) ==> forall|i: int|
            0 <= i < v@.len() ==> split::has_text(haystack@, (#[trigger] v@[i])@),
{
    let re = regex::Regex::new(pattern).ok()?;
    Some(
        re.captures_iter(haystack)
            .map(|c| c.get(1).map(|m| m.as_str().to_string()).unwrap_or_default())
            .collect(),
    )
}

// ---------------------------------------------------------------------------
// JSON and YAML
// ---------------------------------------------------------------------------

/// The keys of the object that a pointer leads to in a JSON text; none where the
/// text is no JSON or no object stands there.
pub uninterp spec fn json_keys_at(json: Seq<char>, pointer: Seq<char>) -> Option<Seq<Seq<char>>>;

/// The string that a pointer leads to in a JSON text; none where the text is no
/// JSON or no string stands there.
pub uninterp spec fn json_text_at(json: Seq<char>, pointer: Seq<char>) -> Option<Seq<char>>;

/// The integer that a pointer leads to in a JSON text; none where the text is no
/// JSON or no integer that fits stands there.
pub uninterp spec fn json_int_at(json: Seq<char>, pointer: Seq<char>) -> Option<i64>;

/// The string that a key of the top mapping leads to in a YAML text; none where
/// the text is no YAML or no string stands there.
pub uninterp spec fn yaml_text_at(yaml: Seq<char>, key: Seq<char>) -> Option<Seq<char>>;

/// `serde_json::from_str`, then `Value::pointer`, then `Value::as_object`: the
/// keys of the object, in the order of the map. The result depends on the two
/// texts alone. What JSON is, and where a pointer leads, is not said.
#[verifier::external_body]
pub(crate) fn json_keys(json: &str, pointer: &str) -> (r: Option<Vec<String>>)
    ensures
        opt_strs(r) == json_keys_at(json@, pointer@),
{
    let value: serde_json::Value = serde_json::from_str(json).ok()?;
    Some(value.pointer(pointer)?.as_object()?.keys().cloned().collect())
}

/// `serde_json::from_str`, then `Value::pointer`, then `Value::as_str`. The
/// result depends on the two texts alone. What JSON is, and where a pointer
/// leads, is not said.
#[verifier::external_body]
pub(crate) fn json_text(json: &str, pointer: &str) -> (r: Option<String>)
    ensures
        text::ostr(r) == json_text_at(json@, pointer@),
{
    let value: serde_json::Value = serde_json::from_str(json).ok()?;
    Some(value.pointer(pointer)?.as_str()?.to_string())
}

/// `serde_json::from_str`, then `Value::pointer`, then `Value::as_i64`. The
/// result depends on the two texts alone. What JSON is, and where a pointer
/// leads, is not said.
#[verifier::external_body]
pub(crate) fn json_int(json: &str, pointer: &str) -> (r: Option<i64>)
    ensures
        r == json_int_at(json@, pointer@),
{
    let value: serde_json::Value = serde_json::from_str(json).ok()?;
    value.pointer(pointer)?.as_i64()
}

/// `serde_yaml::from_str`, then `Value::get` with the key, then `Value::as_str`.
/// The result depends on the two texts alone. What YAML is, is not said.
#[verifier::external_body]
pub(crate) fn yaml_text(yaml: &str, key: &str) -> (r: Option<String>)
    ensures
        text::ostr(r) == yaml_text_at(yaml@, key@),
{
    let value: serde_yaml::Value = serde_yaml::from_str(yaml).ok()?;
    Some(value.get(key)?.as_str()?.to_string())
}

// ---------------------------------------------------------------------------
// Time, letters, media types
// ---------------------------------------------------------------------------

/// The first second of the year -262143, the earliest that a date can hold.
pub const FIRST_SECOND: i64 = -8_334_601_228_800;

/// The last second of the year 262142, the latest that a date can hold.
pub const LAST_SECOND: i64 = 8_210_266_876_799;

/// `chrono::DateTime::from_timestamp` with no nanoseconds: the point in time
/// that many seconds after the start of 1970, if its year can be held.
#[verifier::external_body]
pub(crate) fn from_unix_seconds(secs: i64) -> (r: Option<Timestamp>)
    ensures
        r == (if FIRST_SECOND <= secs <= LAST_SECOND {
            Some(Timestamp { secs, nanos: 0 })
        } else {
            None
        }),
{
    let t = chrono::DateTime::from_timestamp(secs, 0)?;
    Some(Timestamp { secs: t.timestamp(), nanos: t.timestamp_subsec_nanos() })
}

/// A text with its letters in lower case, as Unicode maps them.
pub uninterp spec fn lowercase(s: Seq<char>) -> Seq<char>;

/// A letter `A` to `Z` in lower case; any other character as it is.
pub open spec fn ascii_lower(c: char) -> char {
    if 'A' <= c <= 'Z' {
        ((c as u32) + 32) as char
    } else {
        c
    }
}

/// `str::to_lowercase` of the standard library. The result depends on the text
/// alone; of a text of ASCII characters, the letters `A` to `Z` turn into `a` to
/// `z` and nothing else changes. How Unicode maps other letters is not said.
#[verifier::external_body]
pub(crate) fn to_lowercase(s: &str) -> (r: String)
    ensures
        r@ == lowercase(s@),
        vstd::utf8::is_ascii_chars(s@) ==> r@ == s@.map_values(|c: char| ascii_lower(c)),
{
    s.to_lowercase()
}

/// The media type that belongs to the extension of a path.
pub uninterp spec fn media_type_of(path: Seq<char>) -> Seq<char>;

/// `mime_guess::from_path`, then `MimeGuess::first_or_octet_stream`: the first
/// media type that is known for the extension of the path, and
/// `application/octet-stream` where the path has no extension. The result
/// depends on the path alone. Which type belongs to which extension is not said.
#[verifier::external_body]
pub(crate) fn media_type(path: &str) -> (r: String)
    ensures
        r@ == media_type_of(path@),
        crate::path::extension_of(path@) is None ==> r@ == "application/octet-stream"@,
{
    mime_guess::from_path(path).first_or_octet_stream().to_string()
}

} // verus!
