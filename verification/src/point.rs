//! Sampled points.
use vstd::prelude::*;

use crate::scalar::Triple;

verus! {

/// A sampled vertex: its position and its normal, in model space.
#[derive(Clone, Copy, Debug, PartialEq, Eq, Structural)]
pub struct Point {
    pub pos: Triple,
    pub normal: Triple,
}

/// The points of a cloud that may be missing.
pub open spec fn cloud_of(points: Option<Vec<Point>>) -> Option<Seq<Point>> {
    match points {
        Some(points) => Some(points@),
        None => None,
    }
}

/// A cloud, where it has any point.
pub open spec fn non_empty(points: Seq<Point>) -> Option<Seq<Point>> {
    if points.len() == 0 {
        None
    } else {
        Some(points)
    }
}

/// Whether a cloud has points, all at finite positions.
pub open spec fn is_sound(points: Seq<Point>) -> bool {
    points.len() > 0 && forall|i: int|
        0 <= i < points.len() ==> (#[trigger] points[i]).pos.all_finite()
}

/// Whether these are the points of a cloud with each normal handed to `direction`.
pub open spec fn is_directed<G: Fn(Triple) -> Triple>(
    direction: G,
    points: Seq<Point>,
    directed: Seq<Point>,
) -> bool {
    directed.len() == points.len() && forall|i: int|
        0 <= i < points.len() ==> (#[trigger] directed[i]).pos == points[i].pos && call_ensures(
            direction,
            (points[i].normal,),
            directed[i].normal,
        )
}

/// Hands each normal of a cloud to `direction`, which makes it a unit vector.
pub fn direct_normals<G: Fn(Triple) -> Triple>(points: &[Point], direction: &G) -> (r: Vec<Point>)
    requires
        forall|v: Triple| call_requires(*direction, (v,)),
    ensures
        is_directed(*direction, points@, r@),
{
    let mut out: Vec<Point> = Vec::new();
    let mut i: usize = 0;
    while i < points.len()
        invariant
            0 <= i <= points.len(),
            out.len() == i,
            forall|v: Triple| call_requires(*direction, (v,)),
            forall|k: int|
                0 <= k < i ==> (#[trigger] out@[k]).pos == points@[k].pos && call_ensures(
                    *direction,
                    (points@[k].normal,),
                    out@[k].normal,
                ),
        decreases points.len() - i,
    {
        let p: Point = points[i];
        out.push(Point { pos: p.pos, normal: direction(p.normal) });
        i = i + 1;
    }
    out
}

/// Directing the normals of a cloud leaves every point at its index and its place, and gives
/// it what `direction` made of its own normal.
pub proof fn directing_changes_normals_only<G: Fn(Triple) -> Triple>(
    direction: G,
    points: Seq<Point>,
    directed: Seq<Point>,
    i: int,
)
    requires
        is_directed(direction, points, directed),
        0 <= i < points.len(),
    ensures
        directed.len() == points.len(),
        directed[i].pos.x == points[i].pos.x && directed[i].pos.y == points[i].pos.y
            && directed[i].pos.z == points[i].pos.z,
        call_ensures(direction, (points[i].normal,), directed[i].normal),
{
    assert(directed[i].pos == points[i].pos);
}

} // verus!
