//! The JSON object that carries the mapping, and what is taken on trust of
//! `serde_json`, which provides it.
//!
//! The crate is built with its `preserve_order` feature: an object keeps its
//! entries in the order in which their keys were first inserted, and writes
//! them out in that order.

use vstd::prelude::*;

verus! {

/// `serde_json::Map`, the JSON object. Nothing is known of what is inside
/// one but through `table_entries`.
#[verifier::external_type_specification]
#[verifier::external_body]
#[verifier::reject_recursive_types(K)]
#[verifier::reject_recursive_types(V)]
pub struct ExJsonMap<K, V>(serde_json::Map<K, V>);

/// `serde_json::Value`, the JSON value. It is only named, as the value type
/// of the object.
#[verifier::external_type_specification]
#[verifier::external_body]
pub struct ExJsonValue(serde_json::Value);

/// `serde_json::Error`. It is only carried from the serializer to the caller.
#[verifier::external_type_specification]
#[verifier::external_body]
pub struct ExJsonError(serde_json::Error);

/// Whether every value of a JSON object is a string. Only of such an object
/// do its keys and the texts of its values say all that it holds.
pub uninterp spec fn holds_only_texts(table: serde_json::Map<String, serde_json::Value>) -> bool;

/// The entries of a JSON object in the order in which the object yields
/// them: each key with the text of its value. It is used of objects that
/// hold only texts; of a value that is no string it says nothing.
pub uninterp spec fn table_entries(table: serde_json::Map<String, serde_json::Value>) -> Seq<
    (Seq<char>, Seq<char>),
>;

/// The pretty-printed JSON text that `serde_json::to_string_pretty` gives
/// for an object that holds only texts and has these entries.
pub uninterp spec fn pretty_json(entries: Seq<(Seq<char>, Seq<char>)>) -> Seq<char>;

/// Whether `key` is the key of one of the entries.
pub open spec fn has_key(entries: Seq<(Seq<char>, Seq<char>)>, key: Seq<char>) -> bool {
    exists|i: int| 0 <= i < entries.len() && (#[trigger] entries[i]).0 == key
}

/// `serde_json::Map::new`: the new object has no entries, and so no value
/// that is not a text.
pub assume_specification[ serde_json::Map::<String, serde_json::Value>::new ]() -> (table:
    serde_json::Map<String, serde_json::Value>)
    ensures
        holds_only_texts(table),
        table_entries(table) == Seq::<(Seq<char>, Seq<char>)>::empty(),
;

/// `serde_json::Map::insert`, called on an object that holds only texts, with
/// a string value: the object still holds only texts. A key that the object
/// does not hold yet is added behind the entries that are there; the entry of
/// a key that it holds keeps its place and gets the new text.
#[verifier::external_body]
pub(crate) fn insert_text(
    table: &mut serde_json::Map<String, serde_json::Value>,
    key: String,
    text: String,
)
    requires
        holds_only_texts(*old(table)),
    ensures
        holds_only_texts(*final(table)),
        !has_key(table_entries(*old(table)), key@) ==> table_entries(*final(table))
            == table_entries(*old(table)).push((key@, text@)),
        forall|i: int|
            0 <= i < table_entries(*old(table)).len() && (#[trigger] table_entries(
                *old(table),
            )[i]).0 == key@ ==> table_entries(*final(table)) == table_entries(*old(table)).update(
                i,
                (key@, text@),
            ),
{
    table.insert(key, serde_json::Value::String(text));
}

/// `serde_json::to_string_pretty` on an object that holds only texts. It
/// succeeds: the serializer writes into a byte vector, which takes every
/// write, string keys and string values give it no other cause to fail. The
/// text depends on the entries of the object and on nothing else; it is not
/// described here, only named.
#[verifier::external_body]
pub(crate) fn to_pretty(table: &serde_json::Map<String, serde_json::Value>) -> (outcome: Result<
    String,
    serde_json::Error,
>)
    requires
        holds_only_texts(*table),
    ensures
        outcome is Ok,
        outcome matches Ok(text) ==> text@ == pretty_json(table_entries(*table)),
{
    serde_json::to_string_pretty(table)
}

} // verus!
