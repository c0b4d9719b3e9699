//! From a sampled cloud to the vertices that are drawn.
//!
//! A cloud is measured, moved and scaled to a fixed height, and laid out as one list of
//! numbers, six to a point: its position, then its normal. The two eyes of an avatar are
//! looked for among the points that face forward.
use vstd::prelude::*;

use crate::point::{cloud_of, Point};
use crate::sample::{
    extension_text, format_of, is_sampled, lower, lowered, sample_points,
};
use crate::scalar::{
    greater, greater_bits, is_finite, is_nan, less, less_bits, lesser, lesser_bits, rank, Triple,
    LARGEST, LEAST, SIGN, ZERO,
};
use crate::text::same_text;

verus! {

/// The most points that are kept.
pub const TARGET_POINTS: usize = 120_000;

/// The points of the sphere that is drawn where no model can be read.
pub const FALLBACK_POINTS: usize = 20_000;

/// The height that clouds are scaled to, `1.7`.
pub const TARGET_HEIGHT: u32 = 0x3fd9_999a;

/// The height at which eyes are looked for, `0.92` of the whole.
pub const EYE_HEIGHT: u32 = 0x3fc8_3128;

/// How far from that height eyes are looked for, `0.11`.
pub const EYE_BAND: u32 = 0x3de1_47ae;

/// The component along Z from which on a normal faces forward, `0.2`.
pub const FORWARD: u32 = 0x3e4c_cccd;

/// Where the model of a cloud comes from.
#[derive(Clone, Copy, Debug, PartialEq, Eq, Structural)]
pub enum ModelSource {
    /// The file that was asked for by name.
    Named,
    /// The file of this index in the listing.
    Listed(usize),
    /// There is no model.
    Missing,
}

/// Whether an extension marks a model in a listing. Unlike in a name that was asked for,
/// only lower case counts.
pub open spec fn is_model(extension: Option<Seq<char>>) -> bool {
    match extension {
        Some(text) => text == "glb"@ || text == "vrm"@ || text == "pcd"@,
        None => false,
    }
}

/// The text of an extension that may be missing.
pub open spec fn listed_text(extension: Option<String>) -> Option<Seq<char>> {
    match extension {
        Some(s) => Some(s@),
        None => None,
    }
}

/// Whether the file of this index is the first model in a listing.
pub open spec fn is_first_model(extensions: Seq<Option<String>>, i: int) -> bool {
    &&& 0 <= i < extensions.len()
    &&& is_model(listed_text(extensions[i]))
    &&& forall|k: int| 0 <= k < i ==> !is_model(listed_text(#[trigger] extensions[k]))
}

/// Picks the model: the one asked for by name, else the first in the listing.
pub fn model_source(named: bool, extensions: &[Option<String>]) -> (r: ModelSource)
    ensures
        named <==> r == ModelSource::Named,
        match r {
            ModelSource::Named => true,
            ModelSource::Listed(i) => is_first_model(extensions@, i as int),
            ModelSource::Missing => forall|k: int|
                0 <= k < extensions.len() ==> !is_model(listed_text(#[trigger] extensions@[k])),
        },
{
    if named {
        return ModelSource::Named;
    }
    let mut i: usize = 0;
    while i < extensions.len()
        invariant
            !named,
            0 <= i <= extensions.len(),
            forall|k: int| 0 <= k < i ==> !is_model(listed_text(#[trigger] extensions@[k])),
        decreases extensions.len() - i,
    {
        let hit: bool = match &extensions[i] {
            Some(s) => same_text(s.as_str(), "glb") || same_text(s.as_str(), "vrm") || same_text(
                s.as_str(),
                "pcd",
            ),
            None => false,
        };
        if hit {
            return ModelSource::Listed(i);
        }
        i = i + 1;
    }
    ModelSource::Missing
}

/// Whatever is picked from a listing is of a format that is read.
pub proof fn listed_models_have_a_format(extension: Option<Seq<char>>)
    requires
        is_model(extension),
    ensures
        format_of(extension) is Some,
{
    reveal_strlit("glb");
    reveal_strlit("vrm");
    reveal_strlit("pcd");
    let text = extension.unwrap();
    assert(lowered(text) =~= text) by {
        assert forall|i: int| 0 <= i < text.len() implies lower(#[trigger] text[i]) == text[i] by {}
    }
}

/// The corners of the box around a cloud.
#[derive(Clone, Copy, Debug, PartialEq, Eq, Structural)]
pub struct Bounds {
    pub lo: Triple,
    pub hi: Triple,
}

/// The corners of the box around the positions of a cloud, number by number.
pub open spec fn bounds_of(points: Seq<Point>) -> Bounds
    decreases points.len(),
{
    if points.len() == 0 {
        Bounds {
            lo: Triple { x: LARGEST, y: LARGEST, z: LARGEST },
            hi: Triple { x: LEAST, y: LEAST, z: LEAST },
        }
    } else {
        let b = bounds_of(points.drop_last());
        let p = points.last().pos;
        Bounds {
            lo: Triple {
                x: lesser(b.lo.x, p.x),
                y: lesser(b.lo.y, p.y),
                z: lesser(b.lo.z, p.z),
            },
            hi: Triple {
                x: greater(b.hi.x, p.x),
                y: greater(b.hi.y, p.y),
                z: greater(b.hi.z, p.z),
            },
        }
    }
}

/// Measures the box around a cloud.
pub fn bounds(points: &[Point]) -> (r: Bounds)
    ensures
        r == bounds_of(points@),
{
    let mut lo: Triple = Triple { x: LARGEST, y: LARGEST, z: LARGEST };
    let mut hi: Triple = Triple { x: LEAST, y: LEAST, z: LEAST };
    let mut i: usize = 0;
    assert(points@.take(0).len() == 0);
    while i < points.len()
        invariant
            0 <= i <= points.len(),
            (Bounds { lo, hi }) == bounds_of(points@.take(i as int)),
        decreases points.len() - i,
    {
        let p: Triple = points[i].pos;
        assert(points@.take(i + 1).drop_last() == points@.take(i as int));
        lo = Triple {
            x: lesser_bits(lo.x, p.x),
            y: lesser_bits(lo.y, p.y),
            z: lesser_bits(lo.z, p.z),
        };
        hi = Triple {
            x: greater_bits(hi.x, p.x),
            y: greater_bits(hi.y, p.y),
            z: greater_bits(hi.z, p.z),
        };
        i = i + 1;
    }
    assert(points@.take(i as int) == points@);
    Bounds { lo, hi }
}

/// Whether a position lies in a box, its faces included.
pub open spec fn within(p: Triple, b: Bounds) -> bool {
    &&& rank(b.lo.x) <= rank(p.x) <= rank(b.hi.x)
    &&& rank(b.lo.y) <= rank(p.y) <= rank(b.hi.y)
    &&& rank(b.lo.z) <= rank(p.z) <= rank(b.hi.z)
}

/// The corners are finite numbers wherever the positions are.
proof fn lemma_bounds_finite(points: Seq<Point>)
    requires
        forall|i: int| 0 <= i < points.len() ==> (#[trigger] points[i]).pos.all_finite(),
    ensures
        bounds_of(points).lo.all_finite(),
        bounds_of(points).hi.all_finite(),
    decreases points.len(),
{
    if points.len() > 0 {
        assert forall|i: int| 0 <= i < points.drop_last().len() implies (
        #[trigger] points.drop_last()[i]).pos.all_finite() by {
            assert(points.drop_last()[i] == points[i]);
        }
        lemma_bounds_finite(points.drop_last());
    }
}

/// The box around a cloud of finite positions holds every one of them.
pub proof fn bounds_hold_every_point(points: Seq<Point>, i: int)
    requires
        forall|k: int| 0 <= k < points.len() ==> (#[trigger] points[k]).pos.all_finite(),
        0 <= i < points.len(),
    ensures
        within(points[i].pos, bounds_of(points)),
    decreases points.len(),
{
    let before = points.drop_last();
    assert forall|k: int| 0 <= k < before.len() implies (#[trigger] before[k]).pos.all_finite() by {
        assert(before[k] == points[k]);
    }
    lemma_bounds_finite(before);
    if i < before.len() {
        bounds_hold_every_point(before, i);
        assert(before[i] == points[i]);
    }
}

/// No finite number lies beyond the greatest and the least.
proof fn lemma_extremes(bits: u32)
    requires
        is_finite(bits),
    ensures
        lesser(LARGEST, bits) == bits,
        greater(LEAST, bits) == bits,
{
    assert(bits < SIGN ==> bits <= LARGEST);
    assert(bits >= SIGN ==> bits <= LEAST);
}

/// Whether a number is the one on this axis of some position of a cloud.
pub open spec fn occurs(points: Seq<Point>, axis: int, bits: u32) -> bool {
    exists|i: int| 0 <= i < points.len() && components(#[trigger] points[i])[axis] == bits
}

/// The box around a cloud that is not empty is the least one: each of its faces holds a point.
pub proof fn bounds_are_tight(points: Seq<Point>)
    requires
        points.len() > 0,
        forall|k: int| 0 <= k < points.len() ==> (#[trigger] points[k]).pos.all_finite(),
    ensures
        occurs(points, 0, bounds_of(points).lo.x) && occurs(points, 0, bounds_of(points).hi.x),
        occurs(points, 1, bounds_of(points).lo.y) && occurs(points, 1, bounds_of(points).hi.y),
        occurs(points, 2, bounds_of(points).lo.z) && occurs(points, 2, bounds_of(points).hi.z),
    decreases points.len(),
{
    let before = points.drop_last();
    let last = points.len() - 1;
    assert(points[last].pos == points.last().pos);
    let p = points[last].pos;
    assert(p.all_finite());
    assert(components(points[last])[0] == p.x && components(points[last])[1] == p.y && components(
        points[last],
    )[2] == p.z);
    assert(occurs(points, 0, p.x) && occurs(points, 1, p.y) && occurs(points, 2, p.z));
    assert forall|k: int| 0 <= k < before.len() implies (#[trigger] before[k]).pos.all_finite() by {
        assert(before[k] == points[k]);
    }
    if before.len() > 0 {
        bounds_are_tight(before);
        assert forall|axis: int, bits: u32| occurs(before, axis, bits) implies occurs(
            points,
            axis,
            bits,
        ) by {
            let i = choose|i: int|
                0 <= i < before.len() && components(#[trigger] before[i])[axis] == bits;
            assert(points[i] == before[i]);
        }
    } else {
        lemma_extremes(p.x);
        lemma_extremes(p.y);
        lemma_extremes(p.z);
    }
}

/// The greatest height in a cloud, and zero at least.
pub open spec fn top_of(points: Seq<Point>) -> u32
    decreases points.len(),
{
    if points.len() == 0 {
        ZERO
    } else {
        greater(top_of(points.drop_last()), points.last().pos.y)
    }
}

/// Measures the greatest height in a cloud.
pub fn top(points: &[Point]) -> (r: u32)
    ensures
        r == top_of(points@),
{
    let mut max: u32 = ZERO;
    let mut i: usize = 0;
    assert(points@.take(0).len() == 0);
    while i < points.len()
        invariant
            0 <= i <= points.len(),
            max == top_of(points@.take(i as int)),
        decreases points.len() - i,
    {
        assert(points@.take(i + 1).drop_last() == points@.take(i as int));
        max = greater_bits(max, points[i].pos.y);
        i = i + 1;
    }
    assert(points@.take(i as int) == points@);
    max
}

/// The six numbers of a point, in the order in which they are laid out.
pub open spec fn components(p: Point) -> Seq<u32> {
    seq![p.pos.x, p.pos.y, p.pos.z, p.normal.x, p.normal.y, p.normal.z]
}

/// The numbers of a cloud, six to a point.
pub open spec fn interleaved(points: Seq<Point>) -> Seq<u32> {
    Seq::new(6 * points.len(), |i: int| components(points[i / 6])[i % 6])
}

/// Lays a cloud out as one list of numbers.
pub fn interleave(points: &[Point]) -> (r: Vec<u32>)
    ensures
        r@ == interleaved(points@),
{
    let mut out: Vec<u32> = Vec::new();
    let mut i: usize = 0;
    while i < points.len()
        invariant
            0 <= i <= points.len(),
            out@ == interleaved(points@.take(i as int)),
        decreases points.len() - i,
    {
        let p: Point = points[i];
        let ghost before = out@;
        out.push(p.pos.x);
        out.push(p.pos.y);
        out.push(p.pos.z);
        out.push(p.normal.x);
        out.push(p.normal.y);
        out.push(p.normal.z);
        i = i + 1;
        let ghost grown = points@.take(i as int);
        assert(out@ == before + components(p));
        assert(out@ =~= interleaved(grown)) by {
            assert forall|k: int| 0 <= k < out@.len() implies out@[k] == interleaved(grown)[k] by {
                if k < 6 * (i - 1) {
                    assert(k / 6 < i - 1);
                    assert(out@[k] == before[k]);
                    assert(grown[k / 6] == points@.take(i - 1)[k / 6]);
                } else {
                    assert(k / 6 == i - 1 && k % 6 == k - 6 * (i - 1));
                    assert(grown[k / 6] == p);
                }
            }
        }
    }
    assert(points@.take(i as int) == points@);
    out
}

/// Whether these are the points of a cloud, each moved by `place`, which is given the box
/// around the cloud; normals stay.
pub open spec fn is_placed<F: Fn(Bounds, Triple) -> Triple>(
    place: F,
    points: Seq<Point>,
    placed: Seq<Point>,
) -> bool {
    placed.len() == points.len() && forall|i: int|
        0 <= i < points.len() ==> (#[trigger] placed[i]).normal == points[i].normal && call_ensures(
            place,
            (bounds_of(points), points[i].pos),
            placed[i].pos,
        )
}

/// A cloud that is ready to be drawn.
#[derive(Debug)]
pub struct Prepared {
    /// Its numbers, six to a point.
    pub verts: Vec<u32>,
    /// Its greatest height.
    pub top: u32,
}

/// Whether these are the numbers and the greatest height of a cloud whose points were moved
/// by `place`.
pub open spec fn is_prepared<F: Fn(Bounds, Triple) -> Triple>(
    place: F,
    points: Seq<Point>,
    verts: Seq<u32>,
    top: u32,
) -> bool {
    exists|placed: Seq<Point>| #[trigger]
        is_placed(place, points, placed) && verts == interleaved(placed) && top == top_of(placed)
}

/// Measures a cloud, moves each of its points with `place` and lays it out.
pub fn prepare<F: Fn(Bounds, Triple) -> Triple>(points: &[Point], place: &F) -> (r: Prepared)
    requires
        forall|b: Bounds, v: Triple| call_requires(*place, (b, v)),
    ensures
        is_prepared(*place, points@, r.verts@, r.top),
{
    let b: Bounds = bounds(points);
    let mut placed: Vec<Point> = Vec::new();
    let mut i: usize = 0;
    while i < points.len()
        invariant
            0 <= i <= points.len(),
            placed.len() == i,
            b == bounds_of(points@),
            forall|b: Bounds, v: Triple| call_requires(*place, (b, v)),
            forall|k: int|
                0 <= k < i ==> (#[trigger] placed@[k]).normal == points@[k].normal && call_ensures(
                    *place,
                    (b, points@[k].pos),
                    placed@[k].pos,
                ),
        decreases points.len() - i,
    {
        let p: Point = points[i];
        placed.push(Point { pos: place(b, p.pos), normal: p.normal });
        i = i + 1;
    }
    assert(is_placed(*place, points@, placed@));
    Prepared { verts: interleave(placed.as_slice()), top: top(placed.as_slice()) }
}

/// Whether these are `n` points on a sphere: the i-th is where `place` puts it, and its
/// normal points the same way.
pub open spec fn is_sphere<F: Fn(usize, usize) -> Triple>(
    place: F,
    n: usize,
    points: Seq<Point>,
) -> bool {
    points.len() == n && forall|i: usize|
        i < n ==> call_ensures(place, (i, n), (#[trigger] points[i as int]).pos)
            && points[i as int].normal == points[i as int].pos
}

/// The sphere that is drawn where no model can be read, so that there is always a cloud.
/// `place` gives the place of a point by its index and the number of points.
pub fn procedural_sphere<F: Fn(usize, usize) -> Triple>(n: usize, place: &F) -> (r: Vec<Point>)
    requires
        forall|i: usize| i < n ==> call_requires(*place, (i, n)),
    ensures
        is_sphere(*place, n, r@),
{
    let mut out: Vec<Point> = Vec::new();
    let mut i: usize = 0;
    while i < n
        invariant
            0 <= i <= n,
            out.len() == i,
            forall|k: usize| k < n ==> call_requires(*place, (k, n)),
            forall|k: usize|
                k < i ==> call_ensures(*place, (k, n), (#[trigger] out@[k as int]).pos)
                    && out@[k as int].normal == out@[k as int].pos,
        decreases n - i,
    {
        let v: Triple = place(i, n);
        out.push(Point { pos: v, normal: v });
        i = i + 1;
    }
    out
}

/// Whether these are the points that are drawn: those that were sampled, else the sphere.
pub open spec fn is_drawn<F: Fn(usize, usize) -> Triple>(
    place: F,
    sampled: Option<Seq<Point>>,
    points: Seq<Point>,
) -> bool {
    match sampled {
        Some(given) => points == given,
        None => is_sphere(place, FALLBACK_POINTS, points),
    }
}

/// The cloud that is drawn: what was sampled, else the sphere. As a sampled cloud always has
/// points, there is never nothing to draw.
pub fn points_or_sphere<F: Fn(usize, usize) -> Triple>(sampled: Option<Vec<Point>>, place: &F) -> (r:
    Vec<Point>)
    requires
        forall|i: usize| i < FALLBACK_POINTS ==> call_requires(*place, (i, FALLBACK_POINTS)),
    ensures
        is_drawn(*place, cloud_of(sampled), r@),
        (match sampled {
            Some(points) => points@.len() > 0,
            None => true,
        }) ==> r@.len() > 0,
{
    match sampled {
        Some(points) => points,
        None => procedural_sphere(FALLBACK_POINTS, place),
    }
}

/// Which eye a point may belong to.
#[derive(Clone, Copy, Debug, PartialEq, Eq, Structural)]
pub enum Side {
    Left,
    Right,
}

/// The eye that the point of this index may belong to: its height must be near that of the
/// eyes, it must lie before the middle, and its normal must face forward. What lies left of
/// the middle is the left eye. A point without a mark is not near.
pub open spec fn side_of(verts: Seq<u32>, near: Seq<bool>, i: int) -> Option<Side> {
    if i < near.len() && near[i] && less(ZERO, verts[6 * i + 2]) && less(
        FORWARD,
        verts[6 * i + 5],
    ) {
        if less(verts[6 * i], ZERO) {
            Some(Side::Left)
        } else {
            Some(Side::Right)
        }
    } else {
        None
    }
}

/// The points on one side, among the first `n`.
pub open spec fn cluster(verts: Seq<u32>, near: Seq<bool>, side: Side, n: nat) -> Seq<usize>
    decreases n,
{
    if n == 0 {
        Seq::empty()
    } else {
        let before = cluster(verts, near, side, (n - 1) as nat);
        if side_of(verts, near, n - 1) == Some(side) {
            before.push((n - 1) as usize)
        } else {
            before
        }
    }
}

/// The points of the two eyes, by their index and in order.
#[derive(Debug)]
pub struct EyeClusters {
    pub left: Vec<usize>,
    pub right: Vec<usize>,
}

/// Finds the points of the two eyes in a laid out cloud. `near` marks the points whose
/// height is near that of the eyes. `None` where either eye has no point.
pub fn eye_clusters(verts: &[u32], near: &[bool]) -> (r: Option<EyeClusters>)
    ensures
        ({
            let n = verts@.len() / 6;
            let left = cluster(verts@, near@, Side::Left, n);
            let right = cluster(verts@, near@, Side::Right, n);
            match r {
                Some(c) => left.len() > 0 && right.len() > 0 && c.left@ == left && c.right@ == right,
                None => left.len() == 0 || right.len() == 0,
            }
        }),
{
    let n: usize = verts.len() / 6;
    let mut left: Vec<usize> = Vec::new();
    let mut right: Vec<usize> = Vec::new();
    let mut i: usize = 0;
    while i < n
        invariant
            0 <= i <= n,
            n == verts@.len() / 6,
            6 * n <= verts@.len() <= usize::MAX,
            left@ == cluster(verts@, near@, Side::Left, i as nat),
            right@ == cluster(verts@, near@, Side::Right, i as nat),
        decreases n - i,
    {
        let eye: bool = i < near.len() && near[i] && less_bits(ZERO, verts[6 * i + 2]) && less_bits(
            FORWARD,
            verts[6 * i + 5],
        );
        if eye {
            if less_bits(verts[6 * i], ZERO) {
                left.push(i);
            } else {
                right.push(i);
            }
        }
        i = i + 1;
    }
    if left.len() == 0 || right.len() == 0 {
        None
    } else {
        Some(EyeClusters { left, right })
    }
}

/// A point is in the cluster of a side just where that is its side.
pub proof fn clusters_hold_their_side(
    verts: Seq<u32>,
    near: Seq<bool>,
    side: Side,
    n: nat,
    i: usize,
)
    requires
        n <= usize::MAX,
    ensures
        cluster(verts, near, side, n).contains(i) <==> i < n && side_of(verts, near, i as int)
            == Some(side),
    decreases n,
{
    if n > 0 {
        let before = cluster(verts, near, side, (n - 1) as nat);
        clusters_hold_their_side(verts, near, side, (n - 1) as nat, i);
        let all = cluster(verts, near, side, n);
        if side_of(verts, near, n - 1) == Some(side) {
            assert(all.last() == n - 1);
            assert(all.drop_last() == before);
            if before.contains(i) {
                let k = before.index_of(i);
                assert(all[k] == i);
            }
            if all.contains(i) && i != n - 1 {
                let k = choose|k: int| 0 <= k < all.len() && all[k] == i;
                assert(before[k] == i);
            }
        }
    }
}

/// The middle of an eye, with the offsets from the middle of the face: as it was found, or
/// where an eye is expected.
pub open spec fn eye_or_expected(found: Option<Triple>) -> Triple {
    match found {
        Some(eye) => eye,
        None => Triple { x: 0x3d8f_5c29, y: EYE_HEIGHT, z: 0x3ecc_cccd },
    }
}

/// The middle of an eye; where none was found, `0.07` from the middle of the face, at the
/// height where eyes are looked for, and `0.4` to the front.
pub fn eye_centre(found: Option<Triple>) -> (r: Triple)
    ensures
        r == eye_or_expected(found),
{
    match found {
        Some(eye) => eye,
        None => Triple { x: 0x3d8f_5c29, y: EYE_HEIGHT, z: 0x3ecc_cccd },
    }
}

/// Whether marks tell of each point of a laid out cloud what `near` may say of its
/// height, that of the eyes and how far from it they are looked for.
pub open spec fn are_marks<B: Fn(u32, u32, u32) -> bool>(
    near: B,
    verts: Seq<u32>,
    y0: u32,
    band: u32,
    marks: Seq<bool>,
) -> bool {
    marks.len() == verts.len() / 6 && forall|i: int|
        0 <= i < marks.len() ==> call_ensures(
            near,
            (verts[6 * i + 1], y0, band),
            #[trigger] marks[i],
        )
}

/// Whether `centre` may put the middle of an eye here, given the points of both.
pub open spec fn may_centre<M: Fn(&[u32], &[usize], &[usize]) -> Triple>(
    centre: M,
    verts: Seq<u32>,
    left: Seq<usize>,
    right: Seq<usize>,
    eye: Triple,
) -> bool {
    exists|v: &[u32], l: &[usize], r: &[usize]|
        v@ == verts && l@ == left && r@ == right && #[trigger] call_ensures(centre, (v, l, r), eye)
}

/// Whether this is what a search for the eyes may find, given the marks: where both eyes
/// have points, where `centre` puts their middle, and nothing otherwise.
pub open spec fn is_eye<M: Fn(&[u32], &[usize], &[usize]) -> Triple>(
    centre: M,
    verts: Seq<u32>,
    marks: Seq<bool>,
    found: Option<Triple>,
) -> bool {
    let n = verts.len() / 6;
    let left = cluster(verts, marks, Side::Left, n);
    let right = cluster(verts, marks, Side::Right, n);
    if left.len() == 0 || right.len() == 0 {
        found is None
    } else {
        found matches Some(eye) && may_centre(centre, verts, left, right, eye)
    }
}

/// Whether a search for the eyes within `band` of `y0` may give this.
pub open spec fn may_detect<
    B: Fn(u32, u32, u32) -> bool,
    M: Fn(&[u32], &[usize], &[usize]) -> Triple,
>(near: B, centre: M, verts: Seq<u32>, y0: u32, band: u32, found: Option<Triple>) -> bool {
    exists|marks: Seq<bool>| #[trigger]
        are_marks(near, verts, y0, band, marks) && is_eye(centre, verts, marks, found)
}

/// Whether all of these are indices of points among the first `n`.
pub open spec fn are_below(indices: Seq<usize>, n: nat) -> bool {
    forall|k: int| 0 <= k < indices.len() ==> #[trigger] indices[k] < n
}

/// Whether `centre` can be called on any points of a laid out cloud.
pub open spec fn takes_points<M: Fn(&[u32], &[usize], &[usize]) -> Triple>(centre: M) -> bool {
    forall|v: &[u32], l: &[usize], r: &[usize]|
        are_below(l@, v@.len() / 6) && are_below(r@, v@.len() / 6) ==> #[trigger] call_requires(
            centre,
            (v, l, r),
        )
}

/// What is in a cluster is among the points that were looked at.
proof fn lemma_cluster_below(verts: Seq<u32>, near: Seq<bool>, side: Side, n: nat)
    requires
        n <= usize::MAX,
    ensures
        are_below(cluster(verts, near, side, n), n),
{
    let all = cluster(verts, near, side, n);
    assert forall|k: int| 0 <= k < all.len() implies #[trigger] all[k] < n by {
        assert(all.contains(all[k]));
        clusters_hold_their_side(verts, near, side, n, all[k]);
    }
}

/// Looks for the eyes of a laid out cloud. `near` tells whether a height is within `band`
/// of `y0`, and `centre` gives the middle of an eye from the points of both.
pub fn detect_eyes<
    B: Fn(u32, u32, u32) -> bool,
    M: Fn(&[u32], &[usize], &[usize]) -> Triple,
>(verts: &[u32], y0: u32, band: u32, near: &B, centre: &M) -> (r: Option<Triple>)
    requires
        forall|y: u32| call_requires(*near, (y, y0, band)),
        takes_points(*centre),
    ensures
        may_detect(*near, *centre, verts@, y0, band, r),
{
    let n: usize = verts.len() / 6;
    let mut marks: Vec<bool> = Vec::new();
    let mut i: usize = 0;
    while i < n
        invariant
            0 <= i <= n,
            n == verts@.len() / 6,
            6 * n <= verts@.len() <= usize::MAX,
            marks.len() == i,
            forall|y: u32| call_requires(*near, (y, y0, band)),
            forall|k: int|
                0 <= k < i ==> call_ensures(
                    *near,
                    (verts@[6 * k + 1], y0, band),
                    #[trigger] marks@[k],
                ),
        decreases n - i,
    {
        marks.push(near(verts[6 * i + 1], y0, band));
        i = i + 1;
    }
    assert(are_marks(*near, verts@, y0, band, marks@));
    match eye_clusters(verts, marks.as_slice()) {
        Some(eyes) => {
            let left: &[usize] = eyes.left.as_slice();
            let right: &[usize] = eyes.right.as_slice();
            proof {
                lemma_cluster_below(verts@, marks@, Side::Left, n as nat);
                lemma_cluster_below(verts@, marks@, Side::Right, n as nat);
            }
            let eye: Triple = centre(verts, left, right);
            assert(call_ensures(*centre, (verts, left, right), eye));
            assert(is_eye(*centre, verts@, marks@, Some(eye)));
            Some(eye)
        },
        None => {
            assert(is_eye(*centre, verts@, marks@, None));
            None
        },
    }
}

/// A loaded cloud.
#[derive(Debug)]
pub struct Loaded {
    /// Its numbers, six to a point.
    pub verts: Vec<u32>,
    /// Its greatest height.
    pub top: u32,
    /// The middle of an eye.
    pub eye: Triple,
    /// Whether the points are those of a model, and not of the sphere.
    pub from_model: bool,
    /// Whether eyes were found in the cloud.
    pub eyes_found: bool,
}

/// Whether this is what comes of a sampled cloud: the cloud, or the sphere where there is
/// none, moved by `place`; with the eye that is found in what comes out, at the height of
/// eyes and within the band around it, or the expected one where none is found.
pub open spec fn is_loaded<
    P: Fn(Bounds, Triple) -> Triple,
    S: Fn(usize, usize) -> Triple,
    B: Fn(u32, u32, u32) -> bool,
    M: Fn(&[u32], &[usize], &[usize]) -> Triple,
>(
    place: P,
    sphere: S,
    near: B,
    centre: M,
    sampled: Option<Seq<Point>>,
    loaded: Loaded,
) -> bool {
    &&& exists|points: Seq<Point>| #[trigger]
        is_drawn(sphere, sampled, points) && is_prepared(
            place,
            points,
            loaded.verts@,
            loaded.top,
        )
    &&& exists|found: Option<Triple>| #[trigger]
        may_detect(near, centre, loaded.verts@, EYE_HEIGHT, EYE_BAND, found) && loaded.eye
            == eye_or_expected(found) && loaded.eyes_found == (found is Some)
    &&& loaded.from_model == (sampled is Some)
}

/// Prepares the cloud that is drawn, and finds its eyes.
pub fn load_cloud<
    P: Fn(Bounds, Triple) -> Triple,
    S: Fn(usize, usize) -> Triple,
    B: Fn(u32, u32, u32) -> bool,
    M: Fn(&[u32], &[usize], &[usize]) -> Triple,
>(sampled: Option<Vec<Point>>, place: &P, sphere: &S, near: &B, centre: &M) -> (r: Loaded)
    requires
        forall|b: Bounds, v: Triple| call_requires(*place, (b, v)),
        forall|i: usize| i < FALLBACK_POINTS ==> call_requires(*sphere, (i, FALLBACK_POINTS)),
        forall|y: u32| call_requires(*near, (y, EYE_HEIGHT, EYE_BAND)),
        takes_points(*centre),
    ensures
        is_loaded(*place, *sphere, *near, *centre, cloud_of(sampled), r),
        r.verts@.len() == 6 * (match sampled {
            Some(points) => points@.len(),
            None => FALLBACK_POINTS as nat,
        }),
{
    let from_model: bool = sampled.is_some();
    let ghost given = cloud_of(sampled);
    let points: Vec<Point> = points_or_sphere(sampled, sphere);
    let Prepared { verts, top } = prepare(points.as_slice(), place);
    let found: Option<Triple> = detect_eyes(verts.as_slice(), EYE_HEIGHT, EYE_BAND, near, centre);
    let eye: Triple = eye_centre(found);
    assert(is_drawn(*sphere, given, points@) && is_prepared(*place, points@, verts@, top));
    let r: Loaded = Loaded { verts, top, eye, from_model, eyes_found: found.is_some() };
    assert(may_detect(*near, *centre, r.verts@, EYE_HEIGHT, EYE_BAND, found));
    assert(r.from_model == (given is Some));
    r
}

/// The eye of a loaded cloud is what a search of its numbers gives, at the height of eyes and
/// within the band around it, or the expected one where that finds none; as long as the
/// search answers each question in one way.
pub proof fn loaded_eye_is_the_detected_one<
    P: Fn(Bounds, Triple) -> Triple,
    S: Fn(usize, usize) -> Triple,
    B: Fn(u32, u32, u32) -> bool,
    M: Fn(&[u32], &[usize], &[usize]) -> Triple,
>(
    place: P,
    sphere: S,
    near: B,
    centre: M,
    sampled: Option<Seq<Point>>,
    loaded: Loaded,
    found: Option<Triple>,
)
    requires
        forall|y: u32, y0: u32, band: u32, a: bool, b: bool| #[trigger]
            call_ensures(near, (y, y0, band), a) && #[trigger] call_ensures(near, (y, y0, band), b)
                ==> a == b,
        forall|v: Seq<u32>, l: Seq<usize>, r: Seq<usize>, a: Triple, b: Triple| #[trigger]
            may_centre(centre, v, l, r, a) && #[trigger] may_centre(centre, v, l, r, b) ==> a == b,
        is_loaded(place, sphere, near, centre, sampled, loaded),
        may_detect(near, centre, loaded.verts@, EYE_HEIGHT, EYE_BAND, found),
    ensures
        loaded.eye == eye_or_expected(found),
        loaded.eyes_found == (found is Some),
{
    let verts = loaded.verts@;
    let other = choose|other: Option<Triple>| #[trigger]
        may_detect(near, centre, verts, EYE_HEIGHT, EYE_BAND, other) && loaded.eye
            == eye_or_expected(other) && loaded.eyes_found == (other is Some);
    let a = choose|marks: Seq<bool>| #[trigger]
        are_marks(near, verts, EYE_HEIGHT, EYE_BAND, marks) && is_eye(centre, verts, marks, found);
    let b = choose|marks: Seq<bool>| #[trigger]
        are_marks(near, verts, EYE_HEIGHT, EYE_BAND, marks) && is_eye(centre, verts, marks, other);
    assert forall|i: int| 0 <= i < a.len() implies a[i] == b[i] by {
        assert(call_ensures(near, (verts[6 * i + 1], EYE_HEIGHT, EYE_BAND), a[i]));
        assert(call_ensures(near, (verts[6 * i + 1], EYE_HEIGHT, EYE_BAND), b[i]));
    }
    assert(a =~= b);
}

/// Whether this is what is sampled for a draw: from the bytes of a model file, where there
/// are any.
pub open spec fn is_model_cloud<F: Fn(&str) -> Option<u32>, G: Fn(Triple) -> Triple>(
    number: F,
    direction: G,
    extension: Option<Seq<char>>,
    bytes: Option<Seq<u8>>,
    sampled: Option<Seq<Point>>,
) -> bool {
    match bytes {
        Some(bytes) => is_sampled(number, direction, extension, bytes, TARGET_POINTS, sampled),
        None => sampled is None,
    }
}

/// The bytes of a file that may be missing.
pub open spec fn file_bytes(bytes: Option<&[u8]>) -> Option<Seq<u8>> {
    match bytes {
        Some(b) => Some(b@),
        None => None,
    }
}

/// Loads the cloud that is drawn from the bytes of a model file with this extension; `bytes`
/// is `None` where there is no file or it cannot be read. Whatever comes in, there are points
/// to draw, and no more than [`TARGET_POINTS`].
pub fn load_verts<
    F: Fn(&str) -> Option<u32>,
    G: Fn(Triple) -> Triple,
    P: Fn(Bounds, Triple) -> Triple,
    S: Fn(usize, usize) -> Triple,
    B: Fn(u32, u32, u32) -> bool,
    M: Fn(&[u32], &[usize], &[usize]) -> Triple,
>(
    extension: Option<&str>,
    bytes: Option<&[u8]>,
    number: &F,
    direction: &G,
    place: &P,
    sphere: &S,
    near: &B,
    centre: &M,
) -> (r: Loaded)
    requires
        forall|s: &str| call_requires(*number, (s,)),
        forall|v: Triple| call_requires(*direction, (v,)),
        forall|b: Bounds, v: Triple| call_requires(*place, (b, v)),
        forall|i: usize| i < FALLBACK_POINTS ==> call_requires(*sphere, (i, FALLBACK_POINTS)),
        forall|y: u32| call_requires(*near, (y, EYE_HEIGHT, EYE_BAND)),
        takes_points(*centre),
    ensures
        exists|sampled: Option<Seq<Point>>| #[trigger]
            is_model_cloud(
                *number,
                *direction,
                extension_text(extension),
                file_bytes(bytes),
                sampled,
            ) && is_loaded(*place, *sphere, *near, *centre, sampled, r),
        0 < r.verts@.len() <= 6 * TARGET_POINTS,
        r.verts@.len() % 6 == 0,
{
    let sampled: Option<Vec<Point>> = match bytes {
        Some(bytes) => sample_points(extension, bytes, number, direction, TARGET_POINTS),
        None => None,
    };
    assert(is_model_cloud(
        *number,
        *direction,
        extension_text(extension),
        file_bytes(bytes),
        cloud_of(sampled),
    ));
    load_cloud(sampled, place, sphere, near, centre)
}

/// A number with the other sign.
pub open spec fn negated(bits: u32) -> u32 {
    if bits < SIGN {
        (bits + SIGN) as u32
    } else {
        (bits - SIGN) as u32
    }
}

/// A laid out cloud, mirrored left to right.
pub open spec fn mirrored(verts: Seq<u32>) -> Seq<u32> {
    Seq::new(
        verts.len(),
        |i: int|
            if i % 6 == 0 {
                negated(verts[i])
            } else {
                verts[i]
            },
    )
}

/// Mirroring a cloud left to right swaps its eyes, where no point lies in the middle.
pub proof fn mirroring_swaps_the_eyes(verts: Seq<u32>, near: Seq<bool>, n: nat)
    requires
        6 * n <= verts.len(),
        forall|i: int|
            0 <= i < n ==> !is_nan(#[trigger] verts[6 * i]) && rank(verts[6 * i]) != 0,
    ensures
        cluster(mirrored(verts), near, Side::Left, n) == cluster(verts, near, Side::Right, n),
        cluster(mirrored(verts), near, Side::Right, n) == cluster(verts, near, Side::Left, n),
    decreases n,
{
    if n > 0 {
        mirroring_swaps_the_eyes(verts, near, (n - 1) as nat);
        let i = n - 1;
        let m = mirrored(verts);
        assert(!is_nan(verts[6 * i]) && rank(verts[6 * i]) != 0);
        assert((6 * i) % 6 == 0 && (6 * i + 2) % 6 == 2 && (6 * i + 5) % 6 == 5);
        assert(m[6 * i] == negated(verts[6 * i]));
        assert(m[6 * i + 2] == verts[6 * i + 2] && m[6 * i + 5] == verts[6 * i + 5]);
        assert(rank(m[6 * i]) == -rank(verts[6 * i]) && !is_nan(m[6 * i]));
    }
}

/// The eye that a point belongs to, by its numbers alone: a point whose mark is set, whose
/// depth is greater than zero and whose normal points forward by more than [`FORWARD`] is in
/// the left cluster where it lies left of zero, and in the right one where it does not. No
/// other point is in either.
pub proof fn forward_points_near_the_eyes_are_clustered(
    verts: Seq<u32>,
    near: Seq<bool>,
    n: nat,
    i: usize,
)
    requires
        n <= usize::MAX,
    ensures
        ({
            let x = verts[6 * i];
            let z = verts[6 * i + 2];
            let nz = verts[6 * i + 5];
            let forward = i < n && i < near.len() && near[i as int] && !is_nan(z) && rank(z) > 0
                && !is_nan(nz) && rank(nz) > rank(FORWARD);
            let left = !is_nan(x) && rank(x) < 0;
            &&& cluster(verts, near, Side::Left, n).contains(i) <==> forward && left
            &&& cluster(verts, near, Side::Right, n).contains(i) <==> forward && !left
        }),
{
    clusters_hold_their_side(verts, near, Side::Left, n, i);
    clusters_hold_their_side(verts, near, Side::Right, n, i);
}

/// Whether some indices rise from one to the next.
pub open spec fn are_rising(indices: Seq<usize>) -> bool {
    forall|a: int, b: int| 0 <= a < b < indices.len() ==> #[trigger] indices[a] < #[trigger] indices[b]
}

/// A cluster names its points in their order, and none of them twice.
pub proof fn clusters_keep_the_order(verts: Seq<u32>, near: Seq<bool>, side: Side, n: nat)
    requires
        n <= usize::MAX,
    ensures
        are_rising(cluster(verts, near, side, n)),
    decreases n,
{
    if n > 0 {
        let before = cluster(verts, near, side, (n - 1) as nat);
        let all = cluster(verts, near, side, n);
        clusters_keep_the_order(verts, near, side, (n - 1) as nat);
        lemma_cluster_below(verts, near, side, (n - 1) as nat);
        assert forall|a: int, b: int| 0 <= a < b < all.len() implies #[trigger] all[a]
            < #[trigger] all[b] by {
            assert(all[a] == before[a]);
            if b < before.len() {
                assert(all[b] == before[b]);
            }
        }
    }
}

/// Whether these are, in their order, the points of a laid out cloud that are marked, lie in
/// front of the middle, face forward and lie on this side of it.
pub open spec fn is_half_of_the_eyes(
    verts: Seq<u32>,
    marks: Seq<bool>,
    left: bool,
    indices: Seq<usize>,
) -> bool {
    &&& are_rising(indices)
    &&& forall|i: usize| #[trigger]
        indices.contains(i) <==> {
            &&& i < verts.len() / 6
            &&& i < marks.len()
            &&& marks[i as int]
            &&& !is_nan(verts[6 * i + 2]) && rank(verts[6 * i + 2]) > 0
            &&& !is_nan(verts[6 * i + 5]) && rank(verts[6 * i + 5]) > rank(FORWARD)
            &&& left == (!is_nan(verts[6 * i]) && rank(verts[6 * i]) < 0)
        }
}

/// What a search for the eyes finds: nothing unless there are points on both sides, and else
/// what `centre` makes of the cloud, the points on the left and those on the right.
pub proof fn eye_is_the_centre_of_both_halves<M: Fn(&[u32], &[usize], &[usize]) -> Triple>(
    centre: M,
    verts: Seq<u32>,
    marks: Seq<bool>,
    found: Option<Triple>,
)
    requires
        verts.len() <= usize::MAX,
        is_eye(centre, verts, marks, found),
    ensures
        exists|left: Seq<usize>, right: Seq<usize>| #[trigger]
            is_half_of_the_eyes(verts, marks, true, left) && #[trigger] is_half_of_the_eyes(
                verts,
                marks,
                false,
                right,
            ) && match found {
                Some(eye) => left.len() > 0 && right.len() > 0 && exists|
                    v: &[u32],
                    l: &[usize],
                    r: &[usize],
                |
                    v@ == verts && l@ == left && r@ == right && #[trigger] call_ensures(
                        centre,
                        (v, l, r),
                        eye,
                    ),
                None => left.len() == 0 || right.len() == 0,
            },
{
    let n = verts.len() / 6;
    let left = cluster(verts, marks, Side::Left, n);
    let right = cluster(verts, marks, Side::Right, n);
    clusters_keep_the_order(verts, marks, Side::Left, n);
    clusters_keep_the_order(verts, marks, Side::Right, n);
    assert(is_half_of_the_eyes(verts, marks, true, left)) by {
        assert forall|i: usize| #[trigger] left.contains(i) <==> {
            &&& i < verts.len() / 6
            &&& i < marks.len()
            &&& marks[i as int]
            &&& !is_nan(verts[6 * i + 2]) && rank(verts[6 * i + 2]) > 0
            &&& !is_nan(verts[6 * i + 5]) && rank(verts[6 * i + 5]) > rank(FORWARD)
            &&& true == (!is_nan(verts[6 * i]) && rank(verts[6 * i]) < 0)
        } by {
            forward_points_near_the_eyes_are_clustered(verts, marks, n, i);
        }
    }
    assert(is_half_of_the_eyes(verts, marks, false, right)) by {
        assert forall|i: usize| #[trigger] right.contains(i) <==> {
            &&& i < verts.len() / 6
            &&& i < marks.len()
            &&& marks[i as int]
            &&& !is_nan(verts[6 * i + 2]) && rank(verts[6 * i + 2]) > 0
            &&& !is_nan(verts[6 * i + 5]) && rank(verts[6 * i + 5]) > rank(FORWARD)
            &&& false == (!is_nan(verts[6 * i]) && rank(verts[6 * i]) < 0)
        } by {
            forward_points_near_the_eyes_are_clustered(verts, marks, n, i);
        }
    }
}

/// Each point is marked by what `near` says of its own height.
pub proof fn marks_tell_of_the_height<B: Fn(u32, u32, u32) -> bool>(
    near: B,
    verts: Seq<u32>,
    y0: u32,
    band: u32,
    marks: Seq<bool>,
    i: int,
)
    requires
        are_marks(near, verts, y0, band, marks),
        0 <= i,
        6 * i + 6 <= verts.len(),
    ensures
        i < marks.len(),
        6 * marks.len() <= verts.len() < 6 * marks.len() + 6,
        call_ensures(near, (verts[6 * i + 1], y0, band), marks[i]),
{
}

/// An eye that was found is kept; where none was, it is expected at a fixed place.
pub proof fn found_eye_is_kept(found: Option<Triple>)
    ensures
        found matches Some(eye) ==> eye_or_expected(found) == eye,
        found is None ==> eye_or_expected(found).x == 0x3d8f_5c29 && eye_or_expected(found).y
            == 0x3fc8_3128 && eye_or_expected(found).z == 0x3ecc_cccd,
{
}

/// No point is higher than the top of a cloud, and the top is zero or the height of a point.
/// Heights that are no numbers do not count.
pub proof fn top_is_the_greatest_height(points: Seq<Point>)
    ensures
        forall|i: int|
            0 <= i < points.len() && !is_nan((#[trigger] points[i]).pos.y) ==> rank(points[i].pos.y)
                <= rank(top_of(points)),
        rank(top_of(points)) >= 0,
        !is_nan(top_of(points)),
        top_of(points) == ZERO || exists|i: int|
            0 <= i < points.len() && (#[trigger] points[i]).pos.y == top_of(points),
    decreases points.len(),
{
    if points.len() > 0 {
        let before = points.drop_last();
        let last = points.len() - 1;
        top_is_the_greatest_height(before);
        assert(points[last] == points.last());
        assert forall|i: int|
            0 <= i < points.len() && !is_nan((#[trigger] points[i]).pos.y) implies rank(
            points[i].pos.y,
        ) <= rank(top_of(points)) by {
            if i < last {
                assert(before[i] == points[i]);
            }
        }
        if top_of(points) != ZERO && top_of(points) != points[last].pos.y {
            let i = choose|i: int|
                0 <= i < before.len() && (#[trigger] before[i]).pos.y == top_of(before);
            assert(points[i] == before[i]);
        }
    }
}

/// A laid out cloud holds six numbers for each point, in its place: the position, then the
/// normal.
pub proof fn numbers_stand_six_to_a_point(points: Seq<Point>, i: int)
    requires
        0 <= i < points.len(),
    ensures
        interleaved(points).len() == 6 * points.len(),
        interleaved(points)[6 * i] == points[i].pos.x,
        interleaved(points)[6 * i + 1] == points[i].pos.y,
        interleaved(points)[6 * i + 2] == points[i].pos.z,
        interleaved(points)[6 * i + 3] == points[i].normal.x,
        interleaved(points)[6 * i + 4] == points[i].normal.y,
        interleaved(points)[6 * i + 5] == points[i].normal.z,
{
    assert forall|k: int| 0 <= k < 6 implies #[trigger] interleaved(points)[6 * i + k]
        == components(points[i])[k] by {
        assert((6 * i + k) / 6 == i && (6 * i + k) % 6 == k);
    }
    assert(interleaved(points)[6 * i + 0] == components(points[i])[0]);
    assert(interleaved(points)[6 * i + 1] == components(points[i])[1]);
    assert(interleaved(points)[6 * i + 2] == components(points[i])[2]);
    assert(interleaved(points)[6 * i + 3] == components(points[i])[3]);
    assert(interleaved(points)[6 * i + 4] == components(points[i])[4]);
    assert(interleaved(points)[6 * i + 5] == components(points[i])[5]);
}

/// A prepared cloud has every point of the cloud at its index, where `place` puts it in the
/// box around the cloud, with its own normal; and its top is the greatest of its heights, or
/// zero.
pub proof fn prepared_points_are_placed<F: Fn(Bounds, Triple) -> Triple>(
    place: F,
    points: Seq<Point>,
    verts: Seq<u32>,
    top: u32,
)
    requires
        is_prepared(place, points, verts, top),
    ensures
        verts.len() == 6 * points.len(),
        forall|i: int|
            0 <= i < points.len() ==> call_ensures(
                place,
                (bounds_of(points), (#[trigger] points[i]).pos),
                Triple { x: verts[6 * i], y: verts[6 * i + 1], z: verts[6 * i + 2] },
            ) && verts[6 * i + 3] == points[i].normal.x && verts[6 * i + 4] == points[i].normal.y
                && verts[6 * i + 5] == points[i].normal.z && (!is_nan(verts[6 * i + 1]) ==> rank(
                verts[6 * i + 1],
            ) <= rank(top)),
        rank(top) >= 0,
        top == ZERO || exists|i: int|
            0 <= i < points.len() && #[trigger] verts[6 * i + 1] == top,
{
    let placed = choose|placed: Seq<Point>| #[trigger]
        is_placed(place, points, placed) && verts == interleaved(placed) && top == top_of(placed);
    top_is_the_greatest_height(placed);
    assert forall|i: int| 0 <= i < points.len() implies call_ensures(
        place,
        (bounds_of(points), (#[trigger] points[i]).pos),
        Triple { x: verts[6 * i], y: verts[6 * i + 1], z: verts[6 * i + 2] },
    ) && verts[6 * i + 3] == points[i].normal.x && verts[6 * i + 4] == points[i].normal.y && verts[6
        * i + 5] == points[i].normal.z && (!is_nan(verts[6 * i + 1]) ==> rank(verts[6 * i + 1])
        <= rank(top)) by {
        numbers_stand_six_to_a_point(placed, i);
        let p = placed[i];
        assert(p.normal == points[i].normal);
        assert(p.pos == Triple { x: verts[6 * i], y: verts[6 * i + 1], z: verts[6 * i + 2] });
    }
    if top != ZERO {
        let i = choose|i: int| 0 <= i < placed.len() && (#[trigger] placed[i]).pos.y == top;
        numbers_stand_six_to_a_point(placed, i);
        assert(verts[6 * i + 1] == top);
    }
}

/// What is drawn: the sampled cloud as it is, or else twenty thousand points where `place`
/// puts them by their index, each with a normal that is its position.
pub proof fn drawn_points_are_sampled_or_spherical<F: Fn(usize, usize) -> Triple>(
    place: F,
    sampled: Option<Seq<Point>>,
    points: Seq<Point>,
)
    requires
        is_drawn(place, sampled, points),
    ensures
        sampled matches Some(given) ==> points == given,
        sampled is None ==> points.len() == 20_000 && forall|i: usize|
            i < 20_000 ==> call_ensures(
                place,
                (i, 20_000usize),
                (#[trigger] points[i as int]).pos,
            ) && points[i as int].normal == points[i as int].pos,
{
}

/// A loaded cloud is the sampled one, or the sphere where there is none, with the points
/// placed; and it says which of the two it is.
pub proof fn loaded_cloud_is_placed<
    P: Fn(Bounds, Triple) -> Triple,
    S: Fn(usize, usize) -> Triple,
    B: Fn(u32, u32, u32) -> bool,
    M: Fn(&[u32], &[usize], &[usize]) -> Triple,
>(
    place: P,
    sphere: S,
    near: B,
    centre: M,
    sampled: Option<Seq<Point>>,
    loaded: Loaded,
)
    requires
        is_loaded(place, sphere, near, centre, sampled, loaded),
    ensures
        loaded.from_model <==> sampled is Some,
        sampled matches Some(points) ==> is_prepared(place, points, loaded.verts@, loaded.top),
        sampled is None ==> loaded.verts@.len() == 120_000,
        exists|points: Seq<Point>| #[trigger]
            is_prepared(place, points, loaded.verts@, loaded.top) && is_drawn(
                sphere,
                sampled,
                points,
            ),
        exists|marks: Seq<bool>, found: Option<Triple>| #[trigger]
            are_marks(near, loaded.verts@, 0x3fc8_3128, 0x3de1_47ae, marks) && #[trigger] is_eye(
                centre,
                loaded.verts@,
                marks,
                found,
            ) && (loaded.eyes_found <==> found is Some) && (found matches Some(eye) ==> loaded.eye
                == eye) && (found is None ==> loaded.eye == (Triple {
                x: 0x3d8f_5c29,
                y: 0x3fc8_3128,
                z: 0x3ecc_cccd,
            })),
{
    let points = choose|points: Seq<Point>| #[trigger]
        is_drawn(sphere, sampled, points) && is_prepared(place, points, loaded.verts@, loaded.top);
    prepared_points_are_placed(place, points, loaded.verts@, loaded.top);
    let found = choose|found: Option<Triple>| #[trigger]
        may_detect(near, centre, loaded.verts@, EYE_HEIGHT, EYE_BAND, found) && loaded.eye
            == eye_or_expected(found) && loaded.eyes_found == (found is Some);
    let marks = choose|marks: Seq<bool>| #[trigger]
        are_marks(near, loaded.verts@, EYE_HEIGHT, EYE_BAND, marks) && is_eye(
            centre,
            loaded.verts@,
            marks,
            found,
        );
    assert(are_marks(near, loaded.verts@, 0x3fc8_3128, 0x3de1_47ae, marks) && is_eye(
        centre,
        loaded.verts@,
        marks,
        found,
    ));
}

/// What a draw is sampled from: nothing without a file, and else its bytes, with a hundred
/// and twenty thousand points at most.
pub proof fn model_cloud_is_sampled_from_the_file<
    F: Fn(&str) -> Option<u32>,
    G: Fn(Triple) -> Triple,
>(
    number: F,
    direction: G,
    extension: Option<Seq<char>>,
    bytes: Option<Seq<u8>>,
    sampled: Option<Seq<Point>>,
)
    requires
        is_model_cloud(number, direction, extension, bytes, sampled),
    ensures
        bytes is None ==> sampled is None,
        bytes matches Some(b) ==> is_sampled(number, direction, extension, b, 120_000, sampled),
{
}

/// A file in a listing is a model where its extension is one of three, spelled in lower case,
/// and it is the first where it is one and none before it is.
pub proof fn models_are_known_by_their_extension(extensions: Seq<Option<String>>, i: int)
    requires
        0 <= i < extensions.len(),
    ensures
        is_model(listed_text(extensions[i])) <==> (extensions[i] matches Some(s) && (s@ == seq![
            'g',
            'l',
            'b',
        ] || s@ == seq!['v', 'r', 'm'] || s@ == seq!['p', 'c', 'd'])),
        is_first_model(extensions, i) <==> is_model(listed_text(extensions[i])) && !(exists|k: int|
            0 <= k < i && is_model(listed_text(#[trigger] extensions[k]))),
{
    reveal_strlit("glb");
    reveal_strlit("vrm");
    reveal_strlit("pcd");
    assert("glb"@ =~= seq!['g', 'l', 'b']);
    assert("vrm"@ =~= seq!['v', 'r', 'm']);
    assert("pcd"@ =~= seq!['p', 'c', 'd']);
}

/// The corners of the box around a cloud of finite positions: none of its numbers lies
/// beyond them on any axis, and each of them is the number of some point on that axis.
pub proof fn corners_are_the_extreme_numbers(points: Seq<Point>)
    requires
        points.len() > 0,
        forall|k: int| 0 <= k < points.len() ==> (#[trigger] points[k]).pos.all_finite(),
    ensures
        ({
            let b = bounds_of(points);
            &&& forall|i: int|
                0 <= i < points.len() ==> rank(b.lo.x) <= rank((#[trigger] points[i]).pos.x)
                    <= rank(b.hi.x) && rank(b.lo.y) <= rank(points[i].pos.y) <= rank(b.hi.y) && rank(
                    b.lo.z,
                ) <= rank(points[i].pos.z) <= rank(b.hi.z)
            &&& exists|i: int| 0 <= i < points.len() && (#[trigger] points[i]).pos.x == b.lo.x
            &&& exists|i: int| 0 <= i < points.len() && (#[trigger] points[i]).pos.x == b.hi.x
            &&& exists|i: int| 0 <= i < points.len() && (#[trigger] points[i]).pos.y == b.lo.y
            &&& exists|i: int| 0 <= i < points.len() && (#[trigger] points[i]).pos.y == b.hi.y
            &&& exists|i: int| 0 <= i < points.len() && (#[trigger] points[i]).pos.z == b.lo.z
            &&& exists|i: int| 0 <= i < points.len() && (#[trigger] points[i]).pos.z == b.hi.z
        }),
{
    let b = bounds_of(points);
    assert forall|i: int| 0 <= i < points.len() implies rank(b.lo.x) <= rank(
        (#[trigger] points[i]).pos.x,
    ) <= rank(b.hi.x) && rank(b.lo.y) <= rank(points[i].pos.y) <= rank(b.hi.y) && rank(b.lo.z)
        <= rank(points[i].pos.z) <= rank(b.hi.z) by {
        bounds_hold_every_point(points, i);
    }
    bounds_are_tight(points);
    let at = |axis: int, bits: u32|
        choose|i: int| 0 <= i < points.len() && components(#[trigger] points[i])[axis] == bits;
    assert(points[at(0, b.lo.x)].pos.x == b.lo.x && points[at(0, b.hi.x)].pos.x == b.hi.x);
    assert(points[at(1, b.lo.y)].pos.y == b.lo.y && points[at(1, b.hi.y)].pos.y == b.hi.y);
    assert(points[at(2, b.lo.z)].pos.z == b.lo.z && points[at(2, b.hi.z)].pos.z == b.hi.z);
}

} // verus!
