//! The geometry that a list of coordinates describes: nothing, a point, a
//! line or a polygon whose ring is closed.

use vstd::prelude::*;

verus! {

/// A geometry over coordinates of type `T`.
#[derive(Clone, Debug)]
pub enum Geometry<T> {
    Empty,
    Point(T),
    LineString(Vec<T>),
    Polygon(Vec<T>),
}

/// The ring of a polygon through `coords`: the coordinates, with the first
/// one repeated at the end unless the last already equals it.
pub open spec fn closed_ring<T>(coords: Seq<T>, ends_meet: bool) -> Seq<T> {
    if ends_meet {
        coords
    } else {
        coords.push(coords[0])
    }
}

/// The geometry that `coords` describe: no coordinate gives nothing, one a
/// point, two a line, and more a polygon with a closed ring. `ends_meet`
/// tells whether the first and the last coordinate are equal.
pub fn geometry_of<T: Copy>(coords: &Vec<T>, ends_meet: bool) -> (g: Geometry<T>)
    ensures
        coords.len() == 0 ==> g is Empty,
        coords.len() == 1 ==> g == Geometry::Point(coords@[0]),
        coords.len() == 2 ==> (g matches Geometry::LineString(line) && line@ == coords@),
        coords.len() >= 3 ==> (g matches Geometry::Polygon(ring) && ring@ == closed_ring(
            coords@,
            ends_meet,
        )),
{
    let n = coords.len();
    if n == 0 {
        return Geometry::Empty;
    }
    if n == 1 {
        return Geometry::Point(coords[0]);
    }
    let mut points: Vec<T> = Vec::new();
    let mut i: usize = 0;
    while i < n
        invariant
            n == coords.len(),
            i <= n,
            points@ =~= coords@.subrange(0, i as int),
        decreases n - i,
    {
        points.push(coords[i]);
        i = i + 1;
    }
    proof {
        assert(points@ =~= coords@);
    }
    if n == 2 {
        return Geometry::LineString(points);
    }
    if !ends_meet {
        points.push(coords[0]);
    }
    Geometry::Polygon(points)
}

} // verus!
