//! Mesh utilities: wireframe conversion.
//!
//! A triangle-list mesh turns into a line-list wireframe by collecting
//! each triangle's three edges - endpoints sorted within the edge - and
//! keeping every distinct edge once, in first-seen order.

use vstd::prelude::*;

use crate::pipeline::MeshTopology;

verus! {

/// A triangle's indices sorted ascending.
pub open spec fn sort3(a: u32, b: u32, c: u32) -> (u32, u32, u32) {
    if a <= b && a <= c {
        if b <= c {
            (a, b, c)
        } else {
            (a, c, b)
        }
    } else if b <= a && b <= c {
        if a <= c {
            (b, a, c)
        } else {
            (b, c, a)
        }
    } else {
        if a <= b {
            (c, a, b)
        } else {
            (c, b, a)
        }
    }
}

/// Appends an edge unless it is already present.
pub open spec fn push_unique(s: Seq<(u32, u32)>, e: (u32, u32)) -> Seq<(u32, u32)> {
    if s.contains(e) {
        s
    } else {
        s.push(e)
    }
}

/// The distinct edges of the triangle prefix `idx[..3*t]`, each edge's
/// endpoints sorted, in first-seen order.
pub open spec fn collect_edges(idx: Seq<u32>, t: int) -> Seq<(u32, u32)>
    decreases t,
{
    if t <= 0 {
        Seq::empty()
    } else {
        let prev = collect_edges(idx, t - 1);
        let (a, b, c) = sort3(idx[3 * (t - 1)], idx[3 * (t - 1) + 1], idx[3 * (t - 1) + 2]);
        push_unique(push_unique(push_unique(prev, (a, b)), (a, c)), (b, c))
    }
}

/// An edge list flattened into a line-list index buffer.
pub open spec fn flatten_edges(s: Seq<(u32, u32)>) -> Seq<u32>
    decreases s.len(),
{
    if s.len() == 0 {
        Seq::empty()
    } else {
        flatten_edges(s.drop_last()) + seq![s.last().0, s.last().1]
    }
}

/// Turns a mesh's topology and indices into wireframe form: line lists
/// and strips are already wireframes and pass through unchanged; a
/// triangle list becomes the line list of its distinct edges; a point
/// list has no wireframe.
pub fn wireframe(topology: MeshTopology, indices: &Vec<u32>) -> (r: Option<(
    MeshTopology,
    Vec<u32>,
)>)
    ensures
        match topology {
            MeshTopology::LineList => r matches Some((t, ix)) && t == MeshTopology::LineList
                && ix@ == indices@,
            MeshTopology::LineStrip => r matches Some((t, ix)) && t == MeshTopology::LineStrip
                && ix@ == indices@,
            MeshTopology::PointList => r is None,
            MeshTopology::TriangleList => r matches Some((t, ix)) && t == MeshTopology::LineList
                && ix@ == flatten_edges(collect_edges(indices@, indices@.len() as int / 3)),
        },
{
    match topology {
        MeshTopology::LineList => Some((MeshTopology::LineList, copy_u32s(indices))),
        MeshTopology::LineStrip => Some((MeshTopology::LineStrip, copy_u32s(indices))),
        MeshTopology::PointList => None,
        MeshTopology::TriangleList => {
            let n_tris = indices.len() / 3;
            let mut edges: Vec<(u32, u32)> = Vec::new();
            let mut t: usize = 0;
            while t < n_tris
                invariant
                    0 <= t <= n_tris,
                    n_tris == indices@.len() as int / 3,
                    3 * n_tris <= indices@.len(),
                    indices@.len() <= usize::MAX,
                    edges@ == collect_edges(indices@, t as int),
                decreases n_tris - t,
            {
                proof {
                    assert(3 * t + 2 < indices@.len() && 3 * t >= 0) by (nonlinear_arith)
                        requires 0 <= t < n_tris, 3 * n_tris <= indices@.len();
                }
                let a0 = indices[3 * t];
                let b0 = indices[3 * t + 1];
                let c0 = indices[3 * t + 2];
                let (a, b, c) = if a0 <= b0 && a0 <= c0 {
                    if b0 <= c0 {
                        (a0, b0, c0)
                    } else {
                        (a0, c0, b0)
                    }
                } else if b0 <= a0 && b0 <= c0 {
                    if a0 <= c0 {
                        (b0, a0, c0)
                    } else {
                        (b0, c0, a0)
                    }
                } else {
                    if a0 <= b0 {
                        (c0, a0, b0)
                    } else {
                        (c0, b0, a0)
                    }
                };
                proof {
                    assert((a, b, c) == sort3(a0, b0, c0));
                }
                add_edge(&mut edges, (a, b));
                add_edge(&mut edges, (a, c));
                add_edge(&mut edges, (b, c));
                t += 1;
            }
            let mut out: Vec<u32> = Vec::new();
            let mut i: usize = 0;
            while i < edges.len()
                invariant
                    0 <= i <= edges@.len(),
                    out@ == flatten_edges(edges@.take(i as int)),
                decreases edges@.len() - i,
            {
                let (x, y) = edges[i];
                out.push(x);
                out.push(y);
                proof {
                    assert(edges@.take(i + 1).drop_last() =~= edges@.take(i as int));
                    assert(edges@.take(i + 1).last() == edges@[i as int]);
                    assert(out@ =~= flatten_edges(edges@.take(i + 1)));
                }
                i += 1;
            }
            proof {
                assert(edges@.take(edges@.len() as int) =~= edges@);
            }
            Some((MeshTopology::LineList, out))
        },
    }
}

/// Appends an edge unless it is already present.
fn add_edge(edges: &mut Vec<(u32, u32)>, e: (u32, u32))
    ensures
        final(edges)@ == push_unique(old(edges)@, e),
{
    let mut i: usize = 0;
    while i < edges.len()
        invariant
            0 <= i <= edges@.len(),
            edges@ == old(edges)@,
            forall|j: int| 0 <= j < i ==> edges@[j] != e,
        decreases edges@.len() - i,
    {
        if edges[i].0 == e.0 && edges[i].1 == e.1 {
            proof {
                assert(edges@.contains(e));
            }
            return;
        }
        i += 1;
    }
    proof {
        assert(!edges@.contains(e));
    }
    edges.push(e);
}

/// A plain copy of an index list.
fn copy_u32s(v: &Vec<u32>) -> (r: Vec<u32>)
    ensures
        r@ == v@,
{
    let mut r: Vec<u32> = Vec::new();
    let mut i: usize = 0;
    while i < v.len()
        invariant
            0 <= i <= v@.len(),
            r@ == v@.take(i as int),
        decreases v@.len() - i,
    {
        r.push(v[i]);
        proof {
            assert(r@ =~= v@.take(i + 1));
        }
        i += 1;
    }
    proof {
        assert(v@.take(v@.len() as int) =~= v@);
    }
    r
}

} // verus!
