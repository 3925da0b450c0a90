//! The on-disk form of the store: a JSON object whose fields are bookmark
//! names mapped to path strings, produced and parsed by serde_json.

use vstd::prelude::*;

use crate::pairs::map_of;
use crate::pairs::unique_keys;
use crate::pairs::view_pairs;

verus! {

/// The JSON document that serde_json's pretty printer produces for a mapping
/// from names to paths.
pub uninterp spec fn json_of(m: Map<Seq<char>, Seq<char>>) -> Seq<char>;

/// The mapping that serde_json parses out of a text: `None` where the text is
/// not a JSON object whose fields are all strings.
pub uninterp spec fn json_parsed(text: Seq<char>) -> Option<Map<Seq<char>, Seq<char>>>;

#[verifier::external_type_specification]
#[verifier::external_body]
pub struct ExJsonError(serde_json::Error);

/// Relies on serde_json::to_string_pretty over a map of strings: it always
/// succeeds, the document depends on the mapping alone, an empty mapping
/// becomes "{}", and serde_json::from_str parses the document back to the
/// same mapping.
#[verifier::external_body]
pub(crate) fn encode_entries(entries: &Vec<(String, String)>) -> (r: String)
    requires
        unique_keys(view_pairs(entries@)),
    ensures
        r@ == json_of(map_of(view_pairs(entries@))),
        json_parsed(r@) == Some(map_of(view_pairs(entries@))),
        entries@.len() == 0 ==> r@ == "{}"@,
{
    let map: std::collections::BTreeMap<&str, &str> =
        entries.iter().map(|(k, v)| (k.as_str(), v.as_str())).collect();
    serde_json::to_string_pretty(&map).expect("a map of strings always serializes")
}

/// Relies on serde_json::from_str over a map of strings: it succeeds exactly
/// on a JSON object whose fields are all strings, and yields that mapping
/// with each name carried by one pair.
#[verifier::external_body]
pub(crate) fn decode_entries(text: &str) -> (r: Result<Vec<(String, String)>, serde_json::Error>)
    ensures
        match r {
            Ok(entries) => unique_keys(view_pairs(entries@))
                && json_parsed(text@) == Some(map_of(view_pairs(entries@))),
            Err(_) => json_parsed(text@) is None,
        },
{
    match serde_json::from_str::<std::collections::BTreeMap<String, String>>(text) {
        Ok(m) => Ok(m.into_iter().collect()),
        Err(e) => Err(e),
    }
}

} // verus!
