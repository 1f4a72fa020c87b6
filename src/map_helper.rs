//! Reading string attributes from a JSON object.
use vstd::prelude::*;

verus! {

#[verifier::external_type_specification]
#[verifier::external_body]
#[verifier::reject_recursive_types(K)]
#[verifier::reject_recursive_types(V)]
pub struct ExJsonMap<K, V>(serde_json::Map<K, V>);

#[verifier::external_type_specification]
#[verifier::external_body]
pub struct ExJsonValue(serde_json::Value);

/// The entries of a JSON object whose value is a string: key, then string.
pub uninterp spec fn string_entries(m: serde_json::Map<String, serde_json::Value>) -> Map<
    Seq<char>,
    Seq<char>,
>;

/// Relies on serde_json::Map::get and serde_json::Value::as_str: the string
/// stored under `key`, or `None` where the key is absent or its value is not
/// a JSON string.
#[verifier::external_body]
fn json_str_entry(m: &serde_json::Map<String, serde_json::Value>, key: &str) -> (r: Option<String>)
    ensures
        r matches Some(s) ==> string_entries(*m).contains_key(key@) && string_entries(*m)[key@]
            == s@,
        r is None ==> !string_entries(*m).contains_key(key@),
{
    m.get(key).and_then(|v| v.as_str()).map(|v| v.to_string())
}

/// Lookup of string attributes, with the two that schemas name most often.
pub trait MapHelper {
    /// The string stored under `key`, if there is one.
    spec fn string_spec(&self, key: Seq<char>) -> Option<Seq<char>>;

    fn string(&self, key: &str) -> (r: Option<String>)
        ensures
            r matches Some(s) ==> self.string_spec(key@) == Some(s@),
            r is None ==> self.string_spec(key@) is None,
    ;

    /// The "name" attribute.
    fn name(&self) -> (r: Option<String>)
        ensures
            r matches Some(s) ==> self.string_spec("name"@) == Some(s@),
            r is None ==> self.string_spec("name"@) is None,
    {
        self.string("name")
    }

    /// The "doc" attribute.
    fn doc(&self) -> (r: Option<String>)
        ensures
            r matches Some(s) ==> self.string_spec("doc"@) == Some(s@),
            r is None ==> self.string_spec("doc"@) is None,
    {
        self.string("doc")
    }
}

impl MapHelper for serde_json::Map<String, serde_json::Value> {
    open spec fn string_spec(&self, key: Seq<char>) -> Option<Seq<char>> {
        if string_entries(*self).contains_key(key) {
            Some(string_entries(*self)[key])
        } else {
            None
        }
    }

    fn string(&self, key: &str) -> (r: Option<String>) {
        json_str_entry(self, key)
    }
}

} // verus!
