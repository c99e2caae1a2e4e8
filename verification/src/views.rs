//! Views: the unbounded mathematical values behind vectors and matrices of
//! fixed-point scalars.

use vstd::prelude::*;

verus! {

/// The sequence of mathematical values behind a sequence of fixed-point
/// scalars.
pub open spec fn vview(v: Seq<i64>) -> Seq<int> {
    v.map_values(|e: i64| e as int)
}

/// The mathematical values behind a matrix of fixed-point scalars.
pub open spec fn m2view(m: Seq<Vec<i64>>) -> Seq<Seq<int>> {
    m.map_values(|r: Vec<i64>| vview(r@))
}

/// The mathematical values behind a sequence of fixed-point matrices.
pub open spec fn m3view(m: Seq<Vec<Vec<i64>>>) -> Seq<Seq<Seq<int>>> {
    m.map_values(|w: Vec<Vec<i64>>| m2view(w@))
}

/// A view keeps the length of the sequence behind it.
pub broadcast proof fn lemma_vview_len(v: Seq<i64>)
    ensures
        #[trigger] vview(v).len() == v.len(),
{
}

/// A view holds, position by position, the value of the scalar behind it.
pub broadcast proof fn lemma_vview_index(v: Seq<i64>, i: int)
    requires
        0 <= i < v.len(),
    ensures
        #[trigger] vview(v)[i] == v[i] as int,
{
}

/// A matrix view keeps the number of rows.
pub broadcast proof fn lemma_m2view_len(m: Seq<Vec<i64>>)
    ensures
        #[trigger] m2view(m).len() == m.len(),
{
}

/// A matrix view holds, row by row, the view of the row behind it.
pub broadcast proof fn lemma_m2view_index(m: Seq<Vec<i64>>, i: int)
    requires
        0 <= i < m.len(),
    ensures
        #[trigger] m2view(m)[i] == vview(m[i]@),
{
}

/// A view of a sequence of matrices keeps its length.
pub broadcast proof fn lemma_m3view_len(m: Seq<Vec<Vec<i64>>>)
    ensures
        #[trigger] m3view(m).len() == m.len(),
{
}

/// A view of a sequence of matrices holds, entry by entry, the view of the
/// matrix behind it.
pub broadcast proof fn lemma_m3view_index(m: Seq<Vec<Vec<i64>>>, i: int)
    requires
        0 <= i < m.len(),
    ensures
        #[trigger] m3view(m)[i] == m2view(m[i]@),
{
}

} // verus!
