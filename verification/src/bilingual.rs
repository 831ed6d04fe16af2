//! Bilingual messages: the front end receives `{"en":..,"zh":..}` JSON text
//! and shows the language the user chose. The JSON is written and read by
//! serde_json.
use vstd::prelude::*;

use crate::schema::{BiText, Notice};
use crate::state::opt_view;

verus! {

/// The JSON text that serde_json writes for the object with the string
/// members `k1: v1` and `k2: v2`.
pub uninterp spec fn json_object_text(k1: Seq<char>, v1: Seq<char>, k2: Seq<char>, v2: Seq<char>) -> Seq<char>;

/// The text of a bilingual message.
pub open spec fn json_pair_text(zh: Seq<char>, en: Seq<char>) -> Seq<char> {
    json_object_text("zh"@, zh, "en"@, en)
}

/// The string that serde_json reads as member `key` of the JSON object in
/// `text`; `None` when `text` is not JSON, not an object, or has no string
/// under `key`.
pub uninterp spec fn json_string_member(text: Seq<char>, key: Seq<char>) -> Option<Seq<char>>;

/// Writes the object `{k1: v1, k2: v2}` with `serde_json::to_string` (a map
/// of strings, which serde_json always writes). Claimed: the text is
/// `json_object_text(k1, v1, k2, v2)`, and serde_json reads each string back
/// from it under its key.
#[verifier::external_body]
fn json_object(k1: &str, v1: &str, k2: &str, v2: &str) -> (r: String)
    requires
        k1@ != k2@,
    ensures
        r@ == json_object_text(k1@, v1@, k2@, v2@),
        json_string_member(r@, k1@) == Some(v1@),
        json_string_member(r@, k2@) == Some(v2@),
{
    let m: std::collections::BTreeMap<&str, &str> = std::collections::BTreeMap::from([(k1, v1), (k2, v2)]);
    serde_json::to_string(&m).unwrap_or_default()
}

/// Parses `text` with `serde_json::from_str` into a `serde_json::Value` and
/// takes the string under `key`. Claimed: the result is
/// `json_string_member(text, key)`.
#[verifier::external_body]
pub(crate) fn json_member(text: &str, key: &str) -> (r: Option<String>)
    ensures
        opt_view(r) == json_string_member(text@, key@),
{
    match serde_json::from_str::<serde_json::Value>(text) {
        Ok(v) => v[key].as_str().map(|s| s.to_string()),
        Err(_) => None,
    }
}

/// The two languages of a message: its `zh` and `en` members when it is such
/// JSON text, else the text itself for both.
pub open spec fn bi_part_spec(s: Seq<char>) -> (Seq<char>, Seq<char>) {
    match (json_string_member(s, "zh"@), json_string_member(s, "en"@)) {
        (Some(z), Some(e)) => (z, e),
        _ => (s, s),
    }
}

/// A bilingual message as the front end reads it; taken apart again it gives
/// back both languages.
pub fn bi(zh: &str, en: &str) -> (r: String)
    ensures
        r@ == json_pair_text(zh@, en@),
        bi_part_spec(r@) == (zh@, en@),
{
    proof {
        reveal_strlit("zh");
        reveal_strlit("en");
        assert("zh"@[0] != "en"@[0]);
    }
    json_object("zh", zh, "en", en)
}

/// The two languages of a message (see `bi_part_spec`).
pub fn bi_part(s: &str) -> (r: (String, String))
    ensures
        (r.0@, r.1@) == bi_part_spec(s@),
{
    let zh = json_member(s, "zh");
    let en = json_member(s, "en");
    match (zh, en) {
        (Some(z), Some(e)) => (z, e),
        _ => (crate::chars::owned(s), crate::chars::owned(s)),
    }
}

/// A message of the library as the front end reads it.
pub fn bi_text(t: &BiText) -> (r: String)
    ensures
        r@ == json_pair_text(t.zh@, t.en@),
        bi_part_spec(r@) == (t.zh@, t.en@),
{
    bi(t.zh.as_str(), t.en.as_str())
}

/// An error notice as the front end reads it: bilingual JSON, or the plain
/// text as it is.
pub fn notice(n: Notice) -> (r: String)
    ensures
        match n {
            Notice::Bilingual(b) => r@ == json_pair_text(b.zh@, b.en@),
            Notice::Plain(s) => r == s,
        },
{
    match n {
        Notice::Bilingual(b) => bi_text(&b),
        Notice::Plain(s) => s,
    }
}

} // verus!
