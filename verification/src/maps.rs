//! The `ahash` maps that the parser keeps, seen through their contents.
use vstd::prelude::*;
use ahash::AHashMap;
use crate::classes::Serializer;

verus! {

#[verifier::external_type_specification]
#[verifier::external_body]
#[verifier::reject_recursive_types(K)]
#[verifier::reject_recursive_types(V)]
#[verifier::reject_recursive_types(S)]
pub struct ExAHashMap<K, V, S>(AHashMap<K, V, S>);

#[verifier::external_type_specification]
#[verifier::external_body]
pub struct ExRandomState(ahash::RandomState);

/// What a map of console variables holds: name to value.
pub uninterp spec fn convar_entries(m: AHashMap<String, String>) -> Map<Seq<char>, Seq<char>>;

/// What a map of serializers holds: class name to serializer.
pub uninterp spec fn serializer_entries(m: AHashMap<String, Serializer>) -> Map<Seq<char>, Serializer>;

/// The map from texts to texts that holds nothing.
pub open spec fn empty_text_map() -> Map<Seq<char>, Seq<char>> {
    Map::empty()
}

/// `ahash::AHashMap::new`: a map that holds nothing.
#[verifier::external_body]
pub(crate) fn new_convar_map() -> (r: AHashMap<String, String>)
    ensures
        convar_entries(r) == empty_text_map(),
{
    AHashMap::new()
}

/// `ahash::AHashMap::insert`: afterwards `name` maps to `value` and every
/// other name to what it mapped to before. `String` keys are equal exactly
/// when their texts are.
#[verifier::external_body]
pub(crate) fn insert_convar(m: &mut AHashMap<String, String>, name: String, value: String)
    ensures
        convar_entries(*final(m)) == convar_entries(*old(m)).insert(name@, value@),
{
    m.insert(name, value);
}

/// `ahash::AHashMap::get`: the serializer stored under `name`, if any.
#[verifier::external_body]
pub(crate) fn get_serializer<'a>(m: &'a AHashMap<String, Serializer>, name: &str) -> (r: Option<&'a Serializer>)
    ensures
        match r {
            Some(v) => serializer_entries(*m).dom().contains(name@) && *v == serializer_entries(*m)[name@],
            None => !serializer_entries(*m).dom().contains(name@),
        },
{
    m.get(name)
}

} // verus!
