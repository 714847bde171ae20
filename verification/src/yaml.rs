//! YAML mappings, parsed and held by the `serde_yaml` crate.
use vstd::prelude::*;
use serde_yaml::Mapping;

verus! {

/// `serde_yaml::Mapping`, carried through opaquely.
#[verifier::external_type_specification]
#[verifier::external_body]
pub struct ExMapping(serde_yaml::Mapping);

/// The entries of `m` whose key and value are both YAML strings, keyed by the
/// key's text. Entries of any other kind are not part of this map.
pub uninterp spec fn string_entries(m: Mapping) -> Map<Seq<char>, Seq<char>>;

/// The number of entries of `m`, of every kind.
pub uninterp spec fn entry_count(m: Mapping) -> nat;

/// What `serde_yaml::from_str::<Mapping>` makes of `text`: `None` when the
/// text is not a YAML mapping, else the string entries of the mapping and its
/// number of entries.
pub uninterp spec fn parsed_mapping(text: Seq<char>) -> Option<(Map<Seq<char>, Seq<char>>, nat)>;

/// The string entries of the mapping that `text` parses to.
pub open spec fn parsed_entries(text: Seq<char>) -> Map<Seq<char>, Seq<char>> {
    match parsed_mapping(text) {
        Some(p) => p.0,
        None => no_entries(),
    }
}

/// The number of entries of the mapping that `text` parses to.
pub open spec fn parsed_count(text: Seq<char>) -> nat {
    match parsed_mapping(text) {
        Some(p) => p.1,
        None => 0,
    }
}

/// The map with no entries.
pub open spec fn no_entries() -> Map<Seq<char>, Seq<char>> {
    Map::empty()
}

/// Calls `serde_yaml::Mapping::new`. Trusted: the new mapping has no entries
/// of any kind.
#[verifier::external_body]
pub(crate) fn empty_mapping() -> (res: Mapping)
    ensures
        string_entries(res) == no_entries(),
        entry_count(res) == 0,
{
    Mapping::new()
}

/// Calls `serde_yaml::from_str::<Mapping>`, dropping the error. Trusted:
/// parsing succeeds exactly when `parsed_mapping(text)` is `Some`, and the
/// string entries and the number of entries of the result are those it
/// names. Which texts parse, and the entries that are not string to string,
/// are not said.
#[verifier::external_body]
pub(crate) fn parse_mapping(text: &str) -> (res: Option<Mapping>)
    ensures
        res is Some <==> parsed_mapping(text@) is Some,
        res matches Some(m) ==> string_entries(m) == parsed_entries(text@),
        res matches Some(m) ==> entry_count(m) == parsed_count(text@),
{
    serde_yaml::from_str::<Mapping>(text).ok()
}

/// Calls `serde_yaml::Mapping::get` with the string key `key` and keeps the
/// value when it is a string. Trusted: the result is the entry for `key`
/// among the string entries of `m`.
#[verifier::external_body]
pub(crate) fn get_string(m: &Mapping, key: &str) -> (res: Option<String>)
    ensures
        match res {
            Some(v) => string_entries(*m).contains_key(key@) && string_entries(*m)[key@] == v@,
            None => !string_entries(*m).contains_key(key@),
        },
{
    match m.get(&serde_yaml::Value::String(key.to_string())) {
        Some(serde_yaml::Value::String(s)) => Some(s.clone()),
        _ => None,
    }
}

} // verus!
