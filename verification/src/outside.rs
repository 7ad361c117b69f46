//! Calls into other crates and into parts of the standard library that have no contract of their
//! own. Each function here holds one such call; its contract is believed, not proved, and says
//! only what the called function documents or its source shows.

use sha2::Digest;
use vstd::prelude::*;

verus! {

/// A JSON value of `serde_json`, carried and never looked into.
#[verifier::external_type_specification]
#[verifier::external_body]
pub struct ExJsonValue(serde_json::Value);

/// The JSON object type of `serde_json`.
#[verifier::external_type_specification]
#[verifier::external_body]
#[verifier::reject_recursive_types(K)]
#[verifier::reject_recursive_types(V)]
pub struct ExJsonMap<K, V>(serde_json::Map<K, V>);

/// What a JSON object holds: the name of each member with the JSON text of its value.
pub uninterp spec fn members(m: serde_json::Map<String, serde_json::Value>) -> Map<Seq<char>, Seq<char>>;

/// The contents of a JSON object without members.
pub open spec fn no_members() -> Map<Seq<char>, Seq<char>> {
    Map::empty()
}

/// `serde_json::Map::new` makes an object without members.
pub assume_specification[ serde_json::Map::<String, serde_json::Value>::new ]() -> (r: serde_json::Map<String, serde_json::Value>)
    ensures
        members(r) == no_members(),
;

/// `Clone` for `serde_json::Map` copies every member with its value.
pub assume_specification[ <serde_json::Map<String, serde_json::Value> as Clone>::clone ](m: &serde_json::Map<String, serde_json::Value>) -> (r: serde_json::Map<String, serde_json::Value>)
    ensures
        members(r) == members(*m),
;

/// The SHA-256 digest of a byte sequence, as `sha2::Sha256` computes it.
pub uninterp spec fn sha256_of(data: Seq<u8>) -> Seq<u8>;

/// `sha2::Sha256` over the whole of `data`: the digest depends on the bytes alone and is 32 bytes
/// long.
#[verifier::external_body]
pub(crate) fn sha256(data: &[u8]) -> (r: Vec<u8>)
    ensures
        r@ == sha256_of(data@),
        r@.len() == 32,
{
    let mut hasher = sha2::Sha256::new();
    hasher.update(data);
    hasher.finalize().to_vec()
}

/// The text that `String::from_utf8_lossy` makes of a byte sequence.
pub uninterp spec fn lossy_text_of(bytes: Seq<u8>) -> Seq<char>;

/// `String::from_utf8_lossy`: bytes that are valid UTF-8 are decoded as they stand. How invalid
/// bytes are replaced is left to the name.
#[verifier::external_body]
pub(crate) fn lossy_text(bytes: &[u8]) -> (r: String)
    ensures
        r@ == lossy_text_of(bytes@),
        vstd::utf8::valid_utf8(bytes@) ==> r@ == vstd::utf8::decode_utf8(bytes@),
{
    String::from_utf8_lossy(bytes).into_owned()
}

/// The text that `{:?}` makes of a list of texts.
pub uninterp spec fn debug_list_of(items: Seq<Seq<char>>) -> Seq<char>;

/// `Debug` for `Vec<String>` in the standard library, in its one-line form.
#[verifier::external_body]
pub(crate) fn debug_list(items: &Vec<String>) -> (r: String)
    ensures
        r@ == debug_list_of(items.deep_view()),
{
    format!("{:?}", items)
}

/// `dirs::home_dir`: the home directory of the current user as the environment or the user
/// database has it. It differs from user to user and from call to call; when there is one, it is
/// not empty. A directory whose name is not valid Unicode comes with its invalid parts replaced.
#[verifier::external_body]
pub(crate) fn home_dir() -> (r: Option<String>)
    ensures
        r matches Some(home) ==> home@.len() > 0,
{
    match dirs::home_dir() {
        Some(home) => Some(home.to_string_lossy().into_owned()),
        None => None,
    }
}

/// A text that is formed like a time in UTC: a date of at least ten characters, a `T`, a time of at
/// least eight, and the offset `+00:00`. What the date and the time hold is left open.
pub open spec fn is_utc(t: Seq<char>) -> bool {
    &&& exists|i: int| 10 <= i <= t.len() - 15 && #[trigger] t[i] == 'T'
    &&& t.skip(t.len() - 6) == "+00:00"@
}

/// A text of at least fifteen digits and signs.
pub open spec fn is_stamp(t: Seq<char>) -> bool {
    &&& t.len() >= 15
    &&& forall|i: int| 0 <= i < t.len() ==> '0' <= #[trigger] t[i] <= '9' || t[i] == '-' || t[i] == '+'
}

/// `chrono::Utc::now` in the notation of `chrono::DateTime::to_rfc3339`: the text depends on the
/// clock, and is a date, a `T`, a time and the offset of UTC. The call panics when the clock stands
/// before 1970.
#[verifier::external_body]
pub(crate) fn utc_now() -> (r: String)
    ensures
        is_utc(r@),
{
    chrono::Utc::now().to_rfc3339()
}

/// `chrono::Local::now` formatted as year, month, day, a hyphen, hour, minute and second: the text
/// depends on the clock and the time zone. It is made of digits, the hyphen and, for years of more
/// than four digits, a sign, and has at least fifteen characters. The call panics when the
/// clock stands before 1970, or when the time-zone data of the machine gives no local time.
#[verifier::external_body]
pub(crate) fn local_now() -> (r: String)
    ensures
        is_stamp(r@),
{
    chrono::Local::now().format("%Y%m%d-%H%M%S").to_string()
}

} // verus!
