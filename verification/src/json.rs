use vstd::prelude::*;
use crate::text::{opt_view, seq_views};

verus! {

/// The string value at a path of member names inside a JSON document, when
/// the document parses and the path leads to a string; it depends on the
/// document and the path alone.
pub uninterp spec fn json_string_at(body: Seq<char>, path: Seq<Seq<char>>) -> Option<Seq<char>>;

/// Relies on serde_json: from_str to parse the document, Value::get for each
/// path segment in turn, and Value::as_str on the value reached; the result
/// is a function of the document and the path alone.
#[verifier::external_body]
pub(crate) fn json_string_at_path(body: &str, path: &Vec<String>) -> (r: Option<String>)
    ensures
        opt_view(r) == json_string_at(body@, seq_views(path@)),
{
    let root: serde_json::Value = serde_json::from_str(body).ok()?;
    let mut cur: &serde_json::Value = &root;
    for seg in path {
        cur = cur.get(seg.as_str())?;
    }
    Some(cur.as_str()?.to_string())
}

} // verus!
