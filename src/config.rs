//! Reading of the action's inputs.
use vstd::prelude::*;

verus! {

/// The pieces joined back into one text, `sep` between two neighbours.
pub open spec fn join_with(pieces: Seq<Seq<char>>, sep: char) -> Seq<char>
    decreases pieces.len(),
{
    if pieces.len() == 0 {
        Seq::empty()
    } else if pieces.len() == 1 {
        pieces[0]
    } else {
        join_with(pieces.drop_last(), sep) + seq![sep] + pieces.last()
    }
}

pub open spec fn string_views(v: Seq<String>) -> Seq<Seq<char>> {
    v.map_values(|s: String| s@)
}

/// Relies on str::split with a char pattern: the pieces of `s` between its
/// commas, in order, so that they join back into `s` and hold no comma.
#[verifier::external_body]
fn split_commas(s: &str) -> (r: Vec<String>)
    ensures
        r.len() >= 1,
        join_with(string_views(r@), ',') == s@,
        forall|i: int| 0 <= i < r.len() ==> !(#[trigger] r@[i]@).contains(','),
{
    s.split(',').map(|p| p.to_string()).collect()
}

/// The coverage files of a comma-separated list, in order.
pub fn parse_files(files: &str) -> (r: Vec<String>)
    ensures
        r.len() >= 1,
        join_with(string_views(r@), ',') == files@,
        forall|i: int| 0 <= i < r.len() ==> !(#[trigger] r@[i]@).contains(','),
{
    split_commas(files)
}

} // verus!
