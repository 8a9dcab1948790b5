//! The boundary with `serde_json`: JSON values are carried as
//! `serde_json::Value` and known to the proofs by the compact text they
//! serialise to.

use vstd::prelude::*;

verus! {

/// `serde_json::Value`, declared as it is: the proofs see nothing inside a
/// value and know it only by `json_text`.
#[verifier::external_type_specification]
#[verifier::external_body]
pub struct ExValue(serde_json::Value);

/// The compact JSON text of a value: what `serde_json` writes for it without
/// whitespace. It stands for the value in every contract of this crate.
pub uninterp spec fn json_text(v: serde_json::Value) -> Seq<char>;

/// The compact JSON text of the object collected from key and value-text
/// pairs, given in the order in which they are inserted.
pub uninterp spec fn object_text(entries: Seq<(Seq<char>, Seq<char>)>) -> Seq<char>;

/// A named JSON value as the proofs see it: the name and the value's text.
pub open spec fn entry_text(e: (String, serde_json::Value)) -> (Seq<char>, Seq<char>) {
    (e.0@, json_text(e.1))
}

/// The entries of a list of named JSON values, in order.
pub open spec fn entry_texts(entries: Seq<(String, serde_json::Value)>) -> Seq<
    (Seq<char>, Seq<char>),
> {
    entries.map_values(|e: (String, serde_json::Value)| entry_text(e))
}

/// `serde_json::Value::Null`. Trusted: its serialised text is `null`.
#[verifier::external_body]
pub(crate) fn json_null() -> (r: serde_json::Value)
    ensures
        json_text(r) == "null"@,
{
    serde_json::Value::Null
}

/// `Clone::clone` of `serde_json::Value`. Trusted: the copy serialises to the
/// same text as the value it was made from.
#[verifier::external_body]
pub(crate) fn json_clone(v: &serde_json::Value) -> (r: serde_json::Value)
    ensures
        json_text(r) == json_text(*v),
{
    v.clone()
}

/// `FromIterator<(K, V)>` of `serde_json::Value`, which collects key-value
/// pairs into `Value::Object`. Trusted: the text of the object depends only on
/// the keys and the texts of the values, in insertion order, and is `{}` when
/// there are no pairs.
#[verifier::external_body]
pub(crate) fn json_object(entries: &Vec<(String, serde_json::Value)>) -> (r: serde_json::Value)
    ensures
        json_text(r) == object_text(entry_texts(entries@)),
        entries@.len() == 0 ==> json_text(r) == "{}"@,
{
    entries.iter().cloned().collect()
}

/// `ToString::to_string` of `serde_json::Value`, through its `Display` impl,
/// which writes the compact form. Trusted: the string is the value's text.
#[verifier::external_body]
pub(crate) fn json_to_string(v: &serde_json::Value) -> (r: String)
    ensures
        r@ == json_text(*v),
{
    v.to_string()
}

} // verus!
