//! Point sampling from a model file.
use vstd::prelude::*;

use crate::gltf::{glb_cloud, glb_cloud_is_sound, glb_points, is_glb_cloud};
use crate::pcd::{is_pcd_cloud, pcd_cloud_is_sound, pcd_points};
use crate::point::{cloud_of, is_sound, Point};
use crate::scalar::Triple;
use crate::text::same_text;

verus! {

/// The file formats that are read.
#[derive(Clone, Copy, Debug, PartialEq, Eq, Structural)]
pub enum Format {
    /// Binary glTF, also as a VRM avatar.
    Glb,
    /// ASCII point cloud.
    Pcd,
}

/// An ASCII letter in lower case; other characters stay.
pub open spec fn lower(c: char) -> char {
    if 'A' <= c <= 'Z' {
        (c as u8 + 32) as char
    } else {
        c
    }
}

/// A text with its ASCII letters in lower case.
pub open spec fn lowered(text: Seq<char>) -> Seq<char> {
    Seq::new(text.len(), |i: int| lower(text[i]))
}

/// The format that a file name extension stands for, in either case.
pub open spec fn format_of(extension: Option<Seq<char>>) -> Option<Format> {
    match extension {
        Some(text) => if lowered(text) == "glb"@ || lowered(text) == "vrm"@ {
            Some(Format::Glb)
        } else if lowered(text) == "pcd"@ {
            Some(Format::Pcd)
        } else {
            None
        },
        None => None,
    }
}

/// The text of an extension that may be missing.
pub open spec fn extension_text(extension: Option<&str>) -> Option<Seq<char>> {
    match extension {
        Some(s) => Some(s@),
        None => None,
    }
}

/// Puts ASCII letters into lower case.
fn to_lower(s: &str) -> (r: String)
    ensures
        r@ == lowered(s@),
{
    let mut out: String = String::new();
    for c in it: s.chars()
        invariant
            it.seq() == s@,
            out@ == lowered(s@).take(it.index() as int),
    {
        let ghost before = out@;
        let l: char = if 'A' <= c && c <= 'Z' {
            (c as u8 + 32) as char
        } else {
            c
        };
        out.push(l);
        assert(lowered(s@).take(it.index() as int + 1) == before.push(lowered(
            s@,
        )[it.index() as int]));
    }
    assert(lowered(s@).take(s@.len() as int) == lowered(s@));
    out
}

/// Tells the format of a file by its extension.
pub fn model_format(extension: Option<&str>) -> (r: Option<Format>)
    ensures
        r == format_of(extension_text(extension)),
{
    let ext: String = match extension {
        Some(s) => to_lower(s),
        None => return None,
    };
    if same_text(ext.as_str(), "glb") || same_text(ext.as_str(), "vrm") {
        Some(Format::Glb)
    } else if same_text(ext.as_str(), "pcd") {
        Some(Format::Pcd)
    } else {
        None
    }
}

/// A quotient, rounded up.
pub open spec fn ceiling(n: int, d: int) -> int {
    (n + d - 1) / d
}

/// Every `step`-th point, from the first on.
pub open spec fn every(points: Seq<Point>, step: int) -> Seq<Point> {
    Seq::new(ceiling(points.len() as int, step) as nat, |i: int| points[i * step])
}

/// A cloud thinned to `target` points at most, by a uniform stride.
pub open spec fn thinned(points: Seq<Point>, target: int) -> Seq<Point> {
    if points.len() <= target {
        points
    } else if target == 0 {
        Seq::empty()
    } else {
        every(points, ceiling(points.len() as int, target))
    }
}

/// A cloud that may be missing, thinned.
pub open spec fn thinned_cloud(cloud: Option<Seq<Point>>, target: int) -> Option<Seq<Point>> {
    match cloud {
        Some(points) => Some(thinned(points, target)),
        None => None,
    }
}

/// An index is below the rounded-up quotient just where its multiple is below the dividend.
proof fn lemma_ceiling(n: int, d: int, i: int)
    requires
        0 <= n,
        0 < d,
        0 <= i,
    ensures
        i < ceiling(n, d) <==> i * d < n,
        0 <= i * d,
        0 <= ceiling(n, d) <= n,
{
    let q = ceiling(n, d);
    let a = n + d - 1;
    vstd::arithmetic::div_mod::lemma_fundamental_div_mod(a, d);
    vstd::arithmetic::div_mod::lemma_mod_bound(a, d);
    assert(0 <= i * d && (i < q <==> i * d < n) && 0 <= q <= n) by (nonlinear_arith)
        requires
            a == n + d - 1,
            a == d * q + a % d,
            0 <= a % d < d,
            0 < d,
            0 <= i,
            0 <= n,
    ;
}

/// Keeps at most `target` points by a uniform stride, which preserves the overall form.
pub fn subsample(points: Vec<Point>, target: usize) -> (r: Vec<Point>)
    ensures
        r@ == thinned(points@, target as int),
{
    let len: usize = points.len();
    if len <= target {
        return points;
    }
    if target == 0 {
        return Vec::new();
    }
    let whole: usize = len / target;
    proof {
        vstd::arithmetic::div_mod::lemma_fundamental_div_mod(len as int, target as int);
        assert((len % target > 0 ==> whole < len) && whole >= 1) by (nonlinear_arith)
            requires
                len == target * whole + len % target,
                0 <= len % target < target,
                len > target > 0,
        ;
    }
    let step: usize = if len % target == 0 {
        whole
    } else {
        whole + 1
    };
    proof {
        let c = ceiling(len as int, target as int);
        lemma_ceiling(len as int, target as int, whole as int);
        lemma_ceiling(len as int, target as int, whole + 1);
        lemma_ceiling(len as int, target as int, whole - 1);
        assert(c == step && step >= 1) by (nonlinear_arith)
            requires
                len == target * whole + len % target,
                0 <= len % target < target,
                len > target,
                step == (if len % target == 0 {
                    whole as int
                } else {
                    whole + 1
                }),
                (whole as int) < c <==> whole * target < len,
                whole + 1 < c <==> (whole + 1) * target < len,
                whole - 1 < c <==> (whole - 1) * target < len,
        ;
    }
    let ghost all = every(points@, step as int);
    let mut out: Vec<Point> = Vec::new();
    let mut i: usize = 0;
    assert(all.take(0) == out@);
    assert(0 * step == 0) by (nonlinear_arith);
    loop
        invariant_except_break
            out.len() * step == i,
            i < len,
        invariant
            len == points.len(),
            step >= 1,
            all == every(points@, step as int),
            out.len() <= all.len(),
            out@ == all.take(out.len() as int),
        ensures
            out.len() == all.len(),
        decreases len - i,
    {
        let ghost k = out.len() as int;
        proof {
            lemma_ceiling(len as int, step as int, k);
            lemma_ceiling(len as int, step as int, k + 1);
            assert((k + 1) * step == i + step) by (nonlinear_arith)
                requires
                    k * step == i,
            ;
        }
        out.push(points[i]);
        assert(all.take(k + 1) == all.take(k).push(all[k]));
        if len - i <= step {
            break;
        }
        i = i + step;
    }
    assert(all.take(all.len() as int) == all);
    out
}

/// A thinned cloud has no more points than were asked for.
pub proof fn thinning_keeps_to_the_target(points: Seq<Point>, target: int)
    requires
        target >= 0,
    ensures
        thinned(points, target).len() <= target,
{
    let n = points.len() as int;
    if n > target && target > 0 {
        let step = ceiling(n, target);
        lemma_ceiling(n, target, step);
        lemma_ceiling(n, target, 0);
        lemma_ceiling(n, step, target);
        assert(target * step == step * target) by (nonlinear_arith);
    }
}

/// A thinned cloud holds points of the cloud, in their order and a fixed distance apart,
/// and starts with its first, as long as any are asked for.
pub proof fn thinning_is_uniform(points: Seq<Point>, target: int)
    requires
        target > 0,
    ensures
        exists|step: int|
            step >= 1 && #[trigger] every(points, step) == thinned(points, target),
        points.len() > 0 ==> thinned(points, target).len() > 0 && thinned(points, target)[0]
            == points[0],
{
    let n = points.len() as int;
    if n <= target {
        lemma_ceiling(n, 1, n);
        assert(ceiling(n, 1) == n);
        assert(every(points, 1) =~= points);
    } else {
        let step = ceiling(n, target);
        lemma_ceiling(n, target, 0);
        lemma_ceiling(n, step, 0);
        assert(every(points, step) == thinned(points, target));
    }
}

/// A thinned cloud has points at finite positions where the cloud has, as long as any are
/// asked for.
pub proof fn thinning_keeps_a_cloud_sound(points: Seq<Point>, target: int)
    requires
        target > 0,
        is_sound(points),
    ensures
        is_sound(thinned(points, target)),
{
    thinning_is_uniform(points, target);
    let step = choose|step: int|
        step >= 1 && #[trigger] every(points, step) == thinned(points, target);
    let kept = every(points, step);
    assert forall|i: int| 0 <= i < kept.len() implies (#[trigger] kept[i]).pos.all_finite() by {
        lemma_ceiling(points.len() as int, step, i);
        assert(kept[i] == points[i * step]);
    }
}

/// Whether this is what is sampled from the bytes of a model file with this extension: its
/// cloud, thinned to `target` points. `None` on input that is malformed or of a format that
/// is not read.
pub open spec fn is_sampled<F: Fn(&str) -> Option<u32>, G: Fn(Triple) -> Triple>(
    number: F,
    direction: G,
    extension: Option<Seq<char>>,
    bytes: Seq<u8>,
    target: usize,
    sampled: Option<Seq<Point>>,
) -> bool {
    match format_of(extension) {
        Some(Format::Glb) => exists|cloud: Option<Seq<Point>>| #[trigger]
            is_glb_cloud(direction, bytes, cloud) && sampled == thinned_cloud(
                cloud,
                target as int,
            ),
        Some(Format::Pcd) => exists|cloud: Option<Seq<Point>>| #[trigger]
            is_pcd_cloud(number, bytes, cloud) && sampled == thinned_cloud(cloud, target as int),
        None => sampled is None,
    }
}

/// Samples up to `target` points from the bytes of a model file with this extension. `None`
/// on input that is malformed or of a format that is not read. `number` reads a text as a
/// single precision number and gives its pattern; `direction` makes a normal a unit vector.
pub fn sample_points<F: Fn(&str) -> Option<u32>, G: Fn(Triple) -> Triple>(
    extension: Option<&str>,
    bytes: &[u8],
    number: &F,
    direction: &G,
    target: usize,
) -> (r: Option<Vec<Point>>)
    requires
        forall|s: &str| call_requires(*number, (s,)),
        forall|v: Triple| call_requires(*direction, (v,)),
    ensures
        is_sampled(
            *number,
            *direction,
            extension_text(extension),
            bytes@,
            target,
            cloud_of(r),
        ),
        match r {
            Some(points) => points@.len() <= target && (target > 0 ==> is_sound(points@)),
            None => true,
        },
{
    let points: Option<Vec<Point>> = match model_format(extension) {
        Some(Format::Glb) => glb_points(bytes, direction),
        Some(Format::Pcd) => pcd_points(bytes, number),
        None => None,
    };
    proof {
        if let Some(points) = cloud_of(points) {
            match format_of(extension_text(extension)) {
                Some(Format::Glb) => {
                    glb_cloud_is_sound(bytes@);
                    let vertices = glb_cloud(bytes@).unwrap();
                    assert forall|i: int| 0 <= i < points.len() implies (
                    #[trigger] points[i]).pos.all_finite() by {
                        assert(points[i].pos == vertices[i].pos);
                    }
                },
                _ => {
                    pcd_cloud_is_sound(*number, bytes@, points);
                },
            }
            thinning_keeps_to_the_target(points, target as int);
            if target > 0 {
                thinning_keeps_a_cloud_sound(points, target as int);
            }
        }
    }
    match points {
        Some(points) => Some(subsample(points, target)),
        None => None,
    }
}

/// Whether a character is this letter, given in both cases.
pub open spec fn is_letter(c: char, small: char, large: char) -> bool {
    c == small || c == large
}

/// The format of a file goes by the three letters of its extension, each in either case.
pub proof fn formats_go_by_three_letters(extension: Option<Seq<char>>)
    ensures
        format_of(extension) == Some(Format::Glb) <==> (extension matches Some(t) && t.len() == 3
            && ((is_letter(t[0], 'g', 'G') && is_letter(t[1], 'l', 'L') && is_letter(
            t[2],
            'b',
            'B',
        )) || (is_letter(t[0], 'v', 'V') && is_letter(t[1], 'r', 'R') && is_letter(
            t[2],
            'm',
            'M',
        )))),
        format_of(extension) == Some(Format::Pcd) <==> (extension matches Some(t) && t.len() == 3
            && is_letter(t[0], 'p', 'P') && is_letter(t[1], 'c', 'C') && is_letter(t[2], 'd', 'D')),
{
    reveal_strlit("glb");
    reveal_strlit("vrm");
    reveal_strlit("pcd");
    assert("glb"@ =~= seq!['g', 'l', 'b']);
    assert("vrm"@ =~= seq!['v', 'r', 'm']);
    assert("pcd"@ =~= seq!['p', 'c', 'd']);
    if let Some(t) = extension {
        let low = lowered(t);
        assert(low.len() == t.len());
        if t.len() == 3 {
            assert(low[0] == lower(t[0]) && low[1] == lower(t[1]) && low[2] == lower(t[2]));
            assert(low =~= seq![low[0], low[1], low[2]]);
        }
    }
}

/// Whether a stride is the least with which `target` points reach over `n`.
pub open spec fn is_least_stride(n: int, target: int, stride: int) -> bool {
    stride >= 1 && (stride - 1) * target < n <= stride * target
}

/// Whether these are the points of a cloud one stride apart, from the first on to the last
/// one that there is.
pub open spec fn are_one_stride_apart(points: Seq<Point>, stride: int, kept: Seq<Point>) -> bool {
    &&& kept.len() * stride >= points.len()
    &&& kept.len() > 0 ==> (kept.len() - 1) * stride < points.len()
    &&& forall|i: int| 0 <= i < kept.len() ==> #[trigger] kept[i] == points[i * stride]
}

/// Thinning keeps a cloud that is small enough, keeps nothing where nothing is asked for,
/// and else keeps the points that stand the least stride apart with which there are not too
/// many.
pub proof fn thinning_takes_the_least_stride(points: Seq<Point>, target: int)
    requires
        target >= 0,
    ensures
        ({
            let kept = thinned(points, target);
            &&& points.len() <= target ==> kept == points
            &&& target == 0 ==> kept.len() == 0
            &&& 0 < target < points.len() ==> exists|stride: int| #[trigger]
                is_least_stride(points.len() as int, target, stride) && are_one_stride_apart(
                    points,
                    stride,
                    kept,
                )
        }),
{
    let n = points.len() as int;
    if 0 < target < n {
        let stride = ceiling(n, target);
        let kept = thinned(points, target);
        lemma_ceiling(n, target, 0);
        lemma_ceiling(n, target, stride);
        lemma_ceiling(n, target, stride - 1);
        assert(is_least_stride(n, target, stride));
        let m = kept.len() as int;
        lemma_ceiling(n, stride, 0);
        lemma_ceiling(n, stride, m);
        if m > 0 {
            lemma_ceiling(n, stride, m - 1);
        }
        assert(are_one_stride_apart(points, stride, kept));
    }
}

/// What is sampled from a file is the cloud that its format gives, thinned: there is one just
/// where that cloud is there, and it is that cloud where it is small enough.
pub proof fn sampling_thins_the_cloud_of_the_file<
    F: Fn(&str) -> Option<u32>,
    G: Fn(Triple) -> Triple,
>(
    number: F,
    direction: G,
    extension: Option<Seq<char>>,
    bytes: Seq<u8>,
    target: usize,
    sampled: Option<Seq<Point>>,
)
    requires
        is_sampled(number, direction, extension, bytes, target, sampled),
    ensures
        format_of(extension) is None ==> sampled is None,
        format_of(extension) == Some(Format::Glb) ==> exists|cloud: Option<Seq<Point>>| #[trigger]
            is_glb_cloud(direction, bytes, cloud) && (sampled is Some <==> cloud is Some) && (
            cloud matches Some(points) ==> sampled.unwrap() == thinned(points, target as int) && (
            points.len() <= target ==> sampled == cloud)),
        format_of(extension) == Some(Format::Pcd) ==> exists|cloud: Option<Seq<Point>>| #[trigger]
            is_pcd_cloud(number, bytes, cloud) && (sampled is Some <==> cloud is Some) && (
            cloud matches Some(points) ==> sampled.unwrap() == thinned(points, target as int) && (
            points.len() <= target ==> sampled == cloud)),
{
}

} // verus!
