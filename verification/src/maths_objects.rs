//! The discrete structure of the composite shapes.
//!
//! The shapes themselves — polygons, dashed lines, vectors — live in the
//! continuous plane, outside this crate. What is verified here is the part
//! of their construction that does not depend on coordinates: which
//! vertices each polygon edge connects, and which divisions of a dashed
//! line are kept as dashes.

use vstd::prelude::*;

verus! {

/// The edges of a polygon on `vertex_count` vertices, each as a pair of
/// vertex indices: the closed cycle consisting of the edge from the first
/// vertex to the last, then the edges between consecutive vertices.
///
/// A polygon needs at least three vertices; fewer are rejected.
pub fn polygon_edge_indices(vertex_count: usize) -> (edges: Option<Vec<(usize, usize)>>)
    ensures
        (edges is Some) == (vertex_count >= 3),
        edges matches Some(pairs) ==> {
            &&& pairs@.len() == vertex_count
            &&& (#[trigger] pairs@[0]).0 == 0 && pairs@[0].1 == vertex_count - 1
            &&& forall|k: int|
                1 <= k < vertex_count ==> (#[trigger] pairs@[k]).0 == k - 1 && pairs@[k].1 == k
        },
{
    if vertex_count < 3 {
        None
    } else {
        let mut pairs: Vec<(usize, usize)> = Vec::new();
        pairs.push((0, vertex_count - 1));
        let mut i: usize = 0;
        while i < vertex_count - 1
            invariant
                3 <= vertex_count,
                i <= vertex_count - 1,
                pairs@.len() == i + 1,
                (#[trigger] pairs@[0]).0 == 0 && pairs@[0].1 == vertex_count - 1,
                forall|k: int|
                    1 <= k < i + 1 ==> (#[trigger] pairs@[k]).0 == k - 1 && pairs@[k].1 == k,
            decreases vertex_count - i,
        {
            pairs.push((i, i + 1));
            i = i + 1;
        }
        Some(pairs)
    }
}

/// Which divisions of a dashed line are drawn: the line's segment is split
/// into `2 * dashes - 1` equal divisions and every other one is kept,
/// dropping the odd-indexed gaps. Each returned pair holds the indices of a
/// kept division's two endpoints, out of `2 * dashes - 1` equal steps.
pub fn dashed_line_divisions(dashes: u32) -> (kept: Vec<(u32, u32)>)
    requires
        1 <= dashes <= 0x7fff_ffff,
    ensures
        kept@.len() == dashes,
        forall|k: int|
            0 <= k < dashes ==> (#[trigger] kept@[k]).0 == 2 * k && kept@[k].1 == 2 * k + 1,
{
    let divisions = 2 * dashes - 1;
    let mut kept: Vec<(u32, u32)> = Vec::new();
    let mut i: u32 = 0;
    while i < divisions
        invariant
            divisions == 2 * dashes - 1,
            dashes <= 0x7fff_ffff,
            i <= divisions,
            kept@.len() == (i + 1) / 2,
            forall|k: int|
                0 <= k < kept@.len() ==> (#[trigger] kept@[k]).0 == 2 * k && kept@[k].1 == 2 * k
                    + 1,
        decreases divisions - i,
    {
        if i % 2 == 0 {
            kept.push((i, i + 1));
        }
        i = i + 1;
    }
    kept
}

} // verus!
