use vstd::prelude::*;
use crate::text::eq_str;
use crate::urls::{normalize_spec, normalize_url};

verus! {

/// The position of the first header equal to a required column name.
pub fn find_column(headers: &Vec<String>, name: &str) -> (r: Option<usize>)
    ensures
        r matches Some(i) ==> i < headers@.len() && headers@[i as int]@ == name@ && (forall|j: int|
            0 <= j < i ==> headers@[j]@ != name@),
        r is None ==> forall|j: int| 0 <= j < headers@.len() ==> headers@[j]@ != name@,
{
    let n = headers.len();
    let mut i: usize = 0;
    while i < n
        invariant
            n == headers@.len(),
            i <= n,
            forall|j: int| 0 <= j < i ==> headers@[j]@ != name@,
        decreases n - i,
    {
        if eq_str(headers[i].as_str(), name) {
            return Some(i);
        }
        i = i + 1;
    }
    None
}

/// The row the canonical address table keeps for a source row: the normalized
/// address beside the display name, or nothing when normalization fails.
pub open spec fn row_plan(web: Seq<char>, name: Seq<char>) -> Option<(Seq<char>, Seq<char>)> {
    match normalize_spec(web) {
        Some(u) => Some((u, name)),
        None => None,
    }
}

/// Builds the canonical address table's row for a source row.
pub fn plan_crawler_row(web: &str, name: &str) -> (r: Option<(String, String)>)
    ensures
        r matches Some(p) ==> row_plan(web@, name@) == Some((p.0@, p.1@)),
        r is None ==> row_plan(web@, name@) is None,
{
    match normalize_url(web) {
        Ok(p) => Some((p.text, name.to_owned())),
        Err(_) => None,
    }
}

} // verus!
