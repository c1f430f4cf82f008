//! The outline of the observation area: for each azimuth bin, the far and
//! near boundary points, joined into one closed ring.

use vstd::prelude::*;

verus! {

/// The least number of bins that make a ring.
pub const MIN_RING_BINS: usize = 3;

/// The nearest and the farthest boundary point found in one azimuth bin.
#[derive(Clone, Copy, Debug)]
pub struct BinEdge<T> {
    pub near: T,
    pub far: T,
}

/// The ring of `edges` (ordered by azimuth): the far points in order, then
/// the near points in reverse order; nothing when fewer than three bins are
/// given.
pub open spec fn ring_of<T>(edges: Seq<BinEdge<T>>) -> Seq<T> {
    let n = edges.len();
    if n < 3 {
        Seq::empty()
    } else {
        Seq::new(
            2 * n,
            |i: int|
                if i < n {
                    edges[i].far
                } else {
                    edges[2 * n - 1 - i].near
                },
        )
    }
}

/// Joins the edges of the bins (ordered by azimuth) into a ring: far points
/// along the bins, then near points back; empty when fewer than three bins
/// are given.
pub fn assemble_ring<T: Copy>(edges: &Vec<BinEdge<T>>) -> (ring: Vec<T>)
    ensures
        ring@ == ring_of(edges@),
{
    let n = edges.len();
    let mut ring: Vec<T> = Vec::new();
    if n < MIN_RING_BINS {
        proof {
            assert(ring@ =~= ring_of(edges@));
        }
        return ring;
    }
    let mut i: usize = 0;
    while i < n
        invariant
            n == edges.len(),
            i <= n,
            ring@.len() == i,
            forall|k: int| 0 <= k < i ==> ring@[k] == edges@[k].far,
        decreases n - i,
    {
        ring.push(edges[i].far);
        i = i + 1;
    }
    let mut j: usize = n;
    while j > 0
        invariant
            n == edges.len(),
            j <= n,
            ring@.len() == 2 * n - j,
            forall|k: int| 0 <= k < n ==> ring@[k] == edges@[k].far,
            forall|k: int| n <= k < 2 * n - j ==> ring@[k] == edges@[2 * n - 1 - k].near,
        decreases j,
    {
        j = j - 1;
        ring.push(edges[j].near);
    }
    proof {
        assert(ring@ =~= ring_of(edges@));
    }
    ring
}

/// A ring of `n >= 3` bins has two points a bin, begins with the first far
/// point, turns from the last far point to the last near point, and ends
/// with the first near point.
pub proof fn law_ring_walks_out_and_back<T>(edges: Seq<BinEdge<T>>)
    requires
        edges.len() >= 3,
    ensures
        ring_of(edges).len() == 2 * edges.len(),
        ring_of(edges)[0] == edges[0].far,
        ring_of(edges)[edges.len() - 1] == edges[edges.len() - 1].far,
        ring_of(edges)[edges.len() as int] == edges[edges.len() - 1].near,
        ring_of(edges)[2 * edges.len() - 1] == edges[0].near,
{
}

} // verus!
