//! Input-source classification and URL-list extraction.
//!
//! The URL list arrives as a JSON array of strings; each entry names a
//! `.pgn` or `.zip` source. The file read, the download and the ZIP
//! extraction are the caller's; here live the decisions: which handler a
//! URL gets, and whether the configuration JSON is well-formed.

use vstd::prelude::*;

verus! {

/// How a source's bytes are to be interpreted, decided by the URL suffix.
#[derive(Clone, Copy, Debug, PartialEq, Eq, Structural)]
pub enum InputKind {
    /// A ZIP archive whose first member holds the PGN text.
    Zip,
    /// Plain PGN text.
    Pgn,
    /// Neither suffix: the source is rejected.
    Unsupported,
}

/// Errors of the configuration layer.
#[derive(Clone, Copy, Debug, PartialEq, Eq, Structural)]
pub enum ConfigError {
    /// The input is not valid JSON.
    MalformedJson,
    /// The JSON is not an array of strings.
    InvalidData,
}

impl ConfigError {
    /// Human-readable error text.
    pub fn message(&self) -> (r: String)
        ensures
            *self == ConfigError::MalformedJson ==> r@ == "Invalid JSON data"@,
            *self == ConfigError::InvalidData ==> r@ == "Invalid JSON data"@,
    {
        String::from_str("Invalid JSON data")
    }
}

/// `s` ends with `suffix`.
pub open spec fn has_suffix(s: Seq<u8>, suffix: Seq<u8>) -> bool {
    s.len() >= suffix.len() && s.subrange(s.len() - suffix.len(), s.len() as int) == suffix
}

/// The bytes of `".zip"`.
pub open spec fn zip_suffix() -> Seq<u8> {
    seq![46u8, 122u8, 105u8, 112u8]
}

/// The bytes of `".pgn"`.
pub open spec fn pgn_suffix() -> Seq<u8> {
    seq![46u8, 112u8, 103u8, 110u8]
}

/// The handler a URL gets: ZIP extraction for `.zip`, plain decoding for
/// `.pgn`, rejection otherwise.
pub open spec fn spec_input_kind(url: Seq<u8>) -> InputKind {
    if has_suffix(url, zip_suffix()) {
        InputKind::Zip
    } else if has_suffix(url, pgn_suffix()) {
        InputKind::Pgn
    } else {
        InputKind::Unsupported
    }
}

/// Decides whether `s` ends with the four bytes of `suf`.
fn ends_with4(s: &[u8], s0: u8, s1: u8, s2: u8, s3: u8) -> (r: bool)
    ensures
        r == has_suffix(s@, seq![s0, s1, s2, s3]),
{
    let n = s.len();
    if n < 4 {
        proof {
            assert(!has_suffix(s@, seq![s0, s1, s2, s3]));
        }
        return false;
    }
    let r = s[n - 4] == s0 && s[n - 3] == s1 && s[n - 2] == s2 && s[n - 1] == s3;
    proof {
        if r {
            assert(s@.subrange(s@.len() - 4, s@.len() as int) =~= seq![s0, s1, s2, s3]);
        } else {
            assert(s@.subrange(s@.len() - 4, s@.len() as int) != seq![s0, s1, s2, s3]) by {
                let sub = s@.subrange(s@.len() - 4, s@.len() as int);
                assert(sub[0] == s@[s@.len() - 4]);
                assert(sub[1] == s@[s@.len() - 3]);
                assert(sub[2] == s@[s@.len() - 2]);
                assert(sub[3] == s@[s@.len() - 1]);
            }
        }
    }
    r
}

/// Classifies a URL by its suffix.
pub fn input_kind(url: &[u8]) -> (k: InputKind)
    ensures
        k == spec_input_kind(url@),
{
    if ends_with4(url, 46, 122, 105, 112) {
        InputKind::Zip
    } else if ends_with4(url, 46, 112, 103, 110) {
        InputKind::Pgn
    } else {
        InputKind::Unsupported
    }
}

/// What the text parses to as a JSON array of strings: the strings in
/// array order, or nothing if the text is not such an array.
pub uninterp spec fn string_array_of(s: Seq<char>) -> Option<Seq<Seq<char>>>;

/// Whether the text is well-formed JSON at all (of any shape).
pub uninterp spec fn json_wf(s: Seq<char>) -> bool;

/// Relies on serde_json::from_str::<Vec<String>>: parses the text as a
/// JSON array of strings; the result is a function of the text alone.
#[verifier::external_body]
fn parse_string_array(s: &str) -> (r: Option<Vec<String>>)
    ensures
        r is Some <==> string_array_of(s@) is Some,
        r matches Some(v) ==> v@.map_values(|u: String| u@) == string_array_of(s@)->Some_0,
{
    serde_json::from_str::<Vec<String>>(s).ok()
}

/// Relies on serde_json::from_str::<serde_json::Value>: whether the text
/// is valid JSON; a function of the text alone.
#[verifier::external_body]
fn is_valid_json(s: &str) -> (r: bool)
    ensures
        r == json_wf(s@),
{
    serde_json::from_str::<serde_json::Value>(s).is_ok()
}

/// The compute half of reading the URL list: given the configuration
/// file's text, succeeds with exactly the strings of the array, in order,
/// when the text is a JSON array of strings; otherwise distinguishes text
/// that is not JSON at all from JSON of the wrong shape. What counts as
/// valid JSON, an array, or a string is the parser's notion, named by
/// `string_array_of` and `json_wf`.
pub fn urls_from_json(text: &str) -> (r: Result<Vec<String>, ConfigError>)
    ensures
        r is Ok <==> string_array_of(text@) is Some,
        r matches Ok(urls) ==> urls@.map_values(|u: String| u@) == string_array_of(
            text@,
        )->Some_0,
        r == Err::<Vec<String>, ConfigError>(ConfigError::MalformedJson) <==> (!json_wf(text@)
            && string_array_of(text@) is None),
        r == Err::<Vec<String>, ConfigError>(ConfigError::InvalidData) <==> (json_wf(text@)
            && string_array_of(text@) is None),
{
    match parse_string_array(text) {
        Some(urls) => Ok(urls),
        None => {
            if is_valid_json(text) {
                Err(ConfigError::InvalidData)
            } else {
                Err(ConfigError::MalformedJson)
            }
        },
    }
}

} // verus!
