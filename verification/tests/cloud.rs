use lana_khora::cloud::{
    bounds, detect_eyes, eye_centre, eye_clusters, interleave, load_cloud, load_verts,
    model_source, points_or_sphere, prepare, procedural_sphere, top, Bounds, ModelSource, EYE_BAND, EYE_HEIGHT,
    FALLBACK_POINTS, FORWARD, TARGET_HEIGHT, TARGET_POINTS,
};
use lana_khora::point::Point;
use lana_khora::scalar::{pz, Triple};

fn triple(x: f32, y: f32, z: f32) -> Triple {
    Triple { x: x.to_bits(), y: y.to_bits(), z: z.to_bits() }
}

fn point(x: f32, y: f32, z: f32) -> Point {
    Point { pos: triple(x, y, z), normal: pz() }
}

fn exts(names: &[&str]) -> Vec<Option<String>> {
    names
        .iter()
        .map(|n| if n.is_empty() { None } else { Some(n.to_string()) })
        .collect()
}

fn bits(values: &[f32]) -> Vec<u32> {
    values.iter().map(|v| v.to_bits()).collect()
}

#[test]
fn named_numbers() {
    assert_eq!(TARGET_POINTS, 120_000);
    assert_eq!(FALLBACK_POINTS, 20_000);
    assert_eq!(TARGET_HEIGHT, 1.7f32.to_bits());
    assert_eq!(EYE_HEIGHT, (1.7f32 * 0.92).to_bits());
    assert_eq!(EYE_BAND, 0.11f32.to_bits());
    assert_eq!(FORWARD, 0.2f32.to_bits());
}

#[test]
fn model_is_picked() {
    assert_eq!(model_source(true, &exts(&["glb"])), ModelSource::Named);
    assert_eq!(model_source(true, &[]), ModelSource::Named);
    assert_eq!(model_source(false, &exts(&["", "rs", "vrm", "glb"])), ModelSource::Listed(2));
    assert_eq!(model_source(false, &exts(&["pcd"])), ModelSource::Listed(0));
    assert_eq!(model_source(false, &exts(&["glb"])), ModelSource::Listed(0));
    assert_eq!(model_source(false, &exts(&["GLB", "", "toml"])), ModelSource::Missing);
    assert_eq!(model_source(false, &[]), ModelSource::Missing);
}

#[test]
fn clouds_are_measured() {
    let pts = [point(1.0, -2.0, 3.0), point(-1.5, 7.0, 2.0), point(0.0, 0.0, 9.0)];
    assert_eq!(
        bounds(&pts),
        Bounds { lo: triple(-1.5, -2.0, 2.0), hi: triple(1.0, 7.0, 9.0) }
    );
    assert_eq!(
        bounds(&[]),
        Bounds {
            lo: triple(f32::MAX, f32::MAX, f32::MAX),
            hi: triple(f32::MIN, f32::MIN, f32::MIN),
        }
    );
    let odd = [point(f32::NAN, 1.0, 1.0), point(2.0, 1.0, 1.0)];
    assert_eq!(bounds(&odd), Bounds { lo: triple(2.0, 1.0, 1.0), hi: triple(2.0, 1.0, 1.0) });
}

#[test]
fn top_is_the_greatest_height() {
    assert_eq!(top(&[point(9.0, 1.0, 9.0), point(0.0, 3.0, 0.0), point(0.0, 2.0, 0.0)]), 3.0f32.to_bits());
    assert_eq!(top(&[point(0.0, -1.0, 0.0)]), 0.0f32.to_bits());
    assert_eq!(top(&[]), 0.0f32.to_bits());
}

#[test]
fn points_are_laid_out() {
    let pts = [
        Point { pos: triple(1.0, 2.0, 3.0), normal: triple(4.0, 5.0, 6.0) },
        Point { pos: triple(7.0, 8.0, 9.0), normal: triple(10.0, 11.0, 12.0) },
    ];
    let expected = bits(&[1.0, 2.0, 3.0, 4.0, 5.0, 6.0, 7.0, 8.0, 9.0, 10.0, 11.0, 12.0]);
    assert_eq!(interleave(&pts), expected);
    assert_eq!(interleave(&[]), Vec::<u32>::new());
}

#[test]
fn clouds_are_prepared() {
    let pts = [
        Point { pos: triple(1.0, 2.0, 3.0), normal: triple(4.0, 5.0, 6.0) },
        Point { pos: triple(3.0, 6.0, 5.0), normal: triple(0.0, 1.0, 0.0) },
    ];
    let drop = |b: Bounds, v: Triple| Triple {
        x: v.x,
        y: (f32::from_bits(v.y) - f32::from_bits(b.lo.y)).to_bits(),
        z: v.z,
    };
    let p = prepare(&pts, &drop);
    assert_eq!(p.verts, bits(&[1.0, 0.0, 3.0, 4.0, 5.0, 6.0, 3.0, 4.0, 5.0, 0.0, 1.0, 0.0]));
    assert_eq!(p.top, 4.0f32.to_bits());
}

#[test]
fn sphere_points_face_outward() {
    let place = |i: usize, n: usize| Triple { x: i as u32, y: n as u32, z: 7 };
    let pts = procedural_sphere(3, &place);
    assert_eq!(pts.len(), 3);
    for (i, p) in pts.iter().enumerate() {
        assert_eq!(p.pos, Triple { x: i as u32, y: 3, z: 7 });
        assert_eq!(p.normal, p.pos);
    }
    assert!(procedural_sphere(0, &place).is_empty());
}

fn vertex(x: f32, z: f32, nz: f32) -> Vec<u32> {
    bits(&[x, 1.5, z, 0.0, 0.0, nz])
}

#[test]
fn eyes_are_found() {
    let mut verts: Vec<u32> = Vec::new();
    verts.extend(vertex(-0.1, 0.4, 1.0));
    verts.extend(vertex(0.1, 0.4, 1.0));
    verts.extend(vertex(0.1, 0.0, 1.0));
    verts.extend(vertex(0.1, 0.4, 0.2));
    verts.extend(vertex(-0.2, 0.4, 0.3));
    verts.extend(vertex(-0.2, 0.4, 0.3));
    verts.extend(vertex(0.0, 0.4, 0.3));
    verts.push(1);
    let near = [true, true, true, true, true, false, true];
    let eyes = eye_clusters(&verts, &near).unwrap();
    assert_eq!(eyes.left, vec![0, 4]);
    assert_eq!(eyes.right, vec![1, 6]);
}

#[test]
fn both_eyes_are_needed() {
    let mut verts: Vec<u32> = Vec::new();
    verts.extend(vertex(-0.1, 0.4, 1.0));
    assert!(eye_clusters(&verts, &[true]).is_none());
    verts.extend(vertex(0.1, 0.4, 1.0));
    assert!(eye_clusters(&verts, &[true, true]).is_some());
    assert!(eye_clusters(&verts, &[false, true]).is_none());
    assert!(eye_clusters(&verts, &[true]).is_none());
    assert!(eye_clusters(&[], &[]).is_none());
}

#[test]
fn undefined_numbers_are_not_before_the_middle() {
    let mut verts: Vec<u32> = Vec::new();
    verts.extend(vertex(-0.1, f32::NAN, 1.0));
    verts.extend(vertex(-0.1, 0.4, f32::NAN));
    verts.extend(vertex(-0.1, 0.4, 1.0));
    verts.extend(vertex(0.1, 0.4, 1.0));
    let eyes = eye_clusters(&verts, &[true; 4]).unwrap();
    assert_eq!((eyes.left, eyes.right), (vec![2], vec![3]));
}

#[test]
fn mirrored_cloud_has_its_eyes_swapped() {
    let xs = [-0.1f32, 0.2, 0.3, -0.4, 1e-40, -1e-40];
    let mut verts: Vec<u32> = Vec::new();
    let mut mirrored: Vec<u32> = Vec::new();
    for x in xs {
        verts.extend(vertex(x, 0.4, 1.0));
        mirrored.extend(vertex(-x, 0.4, 1.0));
    }
    let eyes = eye_clusters(&verts, &[true; 6]).unwrap();
    let swapped = eye_clusters(&mirrored, &[true; 6]).unwrap();
    assert_eq!((eyes.left, eyes.right), (swapped.right, swapped.left));
}

fn near(y: u32, y0: u32, band: u32) -> bool {
    (f32::from_bits(y) - f32::from_bits(y0)).abs() < f32::from_bits(band)
}

fn counted(verts: &[u32], left: &[usize], right: &[usize]) -> Triple {
    Triple { x: verts.len() as u32, y: left.len() as u32, z: right.len() as u32 }
}

#[test]
fn eyes_are_looked_for_near_their_height() {
    let mut verts: Vec<u32> = Vec::new();
    for (x, y) in [(-0.1, 1.5), (0.1, 1.55), (-0.1, 1.6), (0.1, 1.7), (0.1, 1.2)] {
        verts.extend(bits(&[x, y, 0.4, 0.0, 0.0, 1.0]));
    }
    assert_eq!(
        detect_eyes(&verts, EYE_HEIGHT, EYE_BAND, &near, &counted),
        Some(Triple { x: 30, y: 2, z: 1 })
    );
    assert_eq!(detect_eyes(&verts, 9.0f32.to_bits(), EYE_BAND, &near, &counted), None);
    assert_eq!(detect_eyes(&verts[..6], EYE_HEIGHT, EYE_BAND, &near, &counted), None);
}

fn ground(b: Bounds, v: Triple) -> Triple {
    let y = f32::from_bits(v.y) - f32::from_bits(b.lo.y);
    Triple { x: v.x, y: y.to_bits(), z: v.z }
}

fn ball(i: usize, n: usize) -> Triple {
    Triple { x: i as u32, y: 0, z: n as u32 }
}

fn number(s: &str) -> Option<u32> {
    s.parse::<f32>().ok().map(f32::to_bits)
}

fn same(v: Triple) -> Triple {
    v
}

#[test]
fn eyes_are_looked_for_in_the_prepared_cloud() {
    let sampled = vec![point(-1.0, 5.0, 1.0), point(1.0, 6.5, 1.0), point(-1.0, 6.5, 1.0)];
    let loaded = load_cloud(Some(sampled.clone()), &ground, &ball, &near, &counted);
    assert_eq!(loaded.verts, prepare(&sampled, &ground).verts);
    assert_eq!(loaded.top, 1.5f32.to_bits());
    assert_eq!(loaded.eye, Triple { x: 18, y: 1, z: 1 });
    assert_eq!(
        Some(loaded.eye),
        detect_eyes(&loaded.verts, EYE_HEIGHT, EYE_BAND, &near, &counted)
    );
    assert!(loaded.from_model && loaded.eyes_found);
    let one = load_cloud(Some(sampled[..2].to_vec()), &ground, &ball, &near, &counted);
    assert_eq!(one.eye, eye_centre(None));
    assert!(one.from_model && !one.eyes_found);
    let none = load_cloud(None, &ground, &ball, &near, &counted);
    assert_eq!(none.verts.len(), 6 * FALLBACK_POINTS);
    assert_eq!(&none.verts[6..9], &[1, 0, FALLBACK_POINTS as u32]);
    assert_eq!(none.eye, eye_centre(None));
    assert!(!none.from_model && !none.eyes_found);
}

#[test]
fn centre_is_given_points_of_the_cloud() {
    let places = |verts: &[u32], left: &[usize], right: &[usize]| Triple {
        x: verts[6 * left[0]],
        y: verts[6 * right[0]],
        z: (left.len() + right.len()) as u32,
    };
    let sampled = vec![point(-1.0, 5.0, 1.0), point(1.0, 6.5, 1.0), point(-2.0, 6.5, 1.0)];
    let loaded = load_cloud(Some(sampled), &ground, &ball, &near, &places);
    assert_eq!(loaded.eye, Triple { x: (-2.0f32).to_bits(), y: 1.0f32.to_bits(), z: 2 });
}

#[test]
fn model_files_are_loaded() {
    let text = "FIELDS x y z\nPOINTS 3\nDATA ascii\n-1 5 1\n1 6.5 1\n-1 6.5 1\n";
    let load = |extension: Option<&str>, bytes: Option<&[u8]>| {
        load_verts(extension, bytes, &number, &same, &ground, &ball, &near, &counted)
    };
    let loaded = load(Some("pcd"), Some(text.as_bytes()));
    assert_eq!(loaded.verts.len(), 18);
    assert_eq!(&loaded.verts[..3], bits(&[-1.0, 0.0, 1.0]).as_slice());
    assert_eq!(loaded.eye, Triple { x: 18, y: 1, z: 1 });
    assert!(loaded.from_model && loaded.eyes_found);
    for missing in [
        load(Some("pcd"), None),
        load(None, None),
        load(Some("obj"), Some(text.as_bytes())),
        load(Some("glb"), Some(text.as_bytes())),
        load(Some("pcd"), Some(b"")),
    ] {
        assert!(!missing.from_model);
        assert_eq!(missing.verts.len(), 6 * FALLBACK_POINTS);
        assert_eq!(missing.eye, eye_centre(None));
    }
    let mut large = "FIELDS x y z\nPOINTS 130000\nDATA ascii\n".to_string();
    for _ in 0..130_000 {
        large.push_str("1 2 3\n");
    }
    let thinned = load(Some("PCD"), Some(large.as_bytes()));
    assert_eq!(thinned.verts.len(), 6 * 65_000);
    assert!(thinned.verts.len() <= 6 * TARGET_POINTS);
}

#[test]
fn expected_eye() {
    assert_eq!(eye_centre(None), triple(0.07, 1.7 * 0.92, 0.4));
    assert_eq!(eye_centre(Some(triple(1.0, 2.0, 3.0))), triple(1.0, 2.0, 3.0));
}

#[test]
fn there_is_always_a_cloud() {
    let place = |i: usize, _n: usize| Triple { x: i as u32, y: 0, z: 0 };
    let sampled = vec![point(1.0, 2.0, 3.0)];
    assert_eq!(points_or_sphere(Some(sampled.clone()), &place), sampled);
    let sphere = points_or_sphere(None, &place);
    assert_eq!(sphere.len(), FALLBACK_POINTS);
    assert_eq!(sphere[7].pos.x, 7);
    assert_eq!(sphere[7].normal, sphere[7].pos);
}
