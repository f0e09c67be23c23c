//! JSON text for the chromosome catalog, written by `serde_json`.
use vstd::prelude::*;

verus! {

/// `serde_json::Error`, the error of the JSON writer. It is carried through
/// as it is and never looked into.
#[verifier::external_type_specification]
#[verifier::external_body]
pub struct ExJsonError(serde_json::Error);

/// The views of a sequence of names, in order.
pub open spec fn name_views(names: Seq<String>) -> Seq<Seq<char>> {
    Seq::new(names.len(), |i: int| names[i]@)
}

/// What `serde_json::to_vec` returns for a list of strings: the bytes of
/// its JSON text, or `None` where it returns an error. Contracts use it as
/// a name only; nothing here says which bytes they are.
pub uninterp spec fn json_array(names: Seq<Seq<char>>) -> Option<Seq<u8>>;

/// Calls `serde_json::to_vec` on the list of names.
///
/// Believed, not proved: the outcome depends on the names alone, so it is
/// [`json_array`] of them. Nothing is claimed about what the bytes are, nor
/// about when the call succeeds.
#[verifier::external_body]
pub(crate) fn to_json(names: &Vec<String>) -> (encoded: Result<Vec<u8>, serde_json::Error>)
    ensures
        match encoded {
            Ok(bytes) => json_array(name_views(names@)) == Some(bytes@),
            Err(_) => json_array(name_views(names@)) is None,
        },
{
    serde_json::to_vec(names)
}

} // verus!
