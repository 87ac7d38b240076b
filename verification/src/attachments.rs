use vstd::prelude::*;

verus! {

/// The serde_json document for a list of strings, rendered as a JSON
/// array of string literals.
pub uninterp spec fn json_of_strings(l: Seq<Seq<char>>) -> Seq<char>;

/// What serde_json's parser reads a document as, when asked for a list
/// of strings: the list, or nothing where the document is not one.
pub uninterp spec fn strings_of_json(s: Seq<char>) -> Option<Seq<Seq<char>>>;

/// A document some list of strings serializes to.
pub open spec fn encodable(s: Seq<char>) -> bool {
    exists|l: Seq<Seq<char>>| s == json_of_strings(l)
}

/// Relies on `serde_json::to_string` on a `Vec<String>`: the document is
/// a function of the strings alone. Serializing a vector of strings
/// cannot fail (serde_json fails only on a failing `Serialize` impl or a
/// map with non-string keys), so the fallback arm is never taken.
#[verifier::external_body]
pub(crate) fn attachments_to_json(v: &Vec<String>) -> (r: String)
    ensures
        r@ == json_of_strings(v.deep_view()),
{
    serde_json::to_string(v).unwrap_or_else(|_| "[]".to_string())
}

/// Relies on `serde_json::from_str` for `Vec<String>`: the outcome is a
/// function of the text alone, named `strings_of_json`, and on any
/// document produced by `serde_json::to_string` for the same type it is
/// the serialized list, serde's round-trip guarantee for plain data
/// types.
#[verifier::external_body]
pub(crate) fn attachments_from_json(s: &str) -> (r: Option<Vec<String>>)
    ensures
        r.deep_view() == strings_of_json(s@),
        forall|l: Seq<Seq<char>>| s@ == json_of_strings(l) ==> r is Some && r->0.deep_view() == l,
{
    serde_json::from_str::<Vec<String>>(s).ok()
}

/// Decodes a stored attachment column, substituting no attachments for a
/// document that is not a string list: one corrupted row must not poison
/// a whole query.
pub fn decode_attachments(s: &str) -> (r: Vec<String>)
    ensures
        r.deep_view() == (match strings_of_json(s@) {
            Some(l) => l,
            None => Seq::<Seq<char>>::empty(),
        }),
        forall|l: Seq<Seq<char>>| s@ == json_of_strings(l) ==> r.deep_view() == l,
{
    match attachments_from_json(s) {
        Some(v) => v,
        None => {
            let r: Vec<String> = Vec::new();
            proof {
                assert(r.deep_view() =~= Seq::<Seq<char>>::empty());
            }
            r
        },
    }
}

} // verus!
