use lana_khora::point::{direct_normals, Point};
use lana_khora::sample::{model_format, sample_points, subsample, Format};
use lana_khora::scalar::{pz, Triple};

fn number(s: &str) -> Option<u32> {
    s.parse::<f32>().ok().map(f32::to_bits)
}

fn same(v: Triple) -> Triple {
    v
}

fn row(n: usize) -> Vec<Point> {
    (0..n)
        .map(|i| Point { pos: Triple { x: i as u32, y: 0, z: 0 }, normal: pz() })
        .collect()
}

fn xs(points: &[Point]) -> Vec<u32> {
    points.iter().map(|p| p.pos.x).collect()
}

const TEN: &str = "FIELDS x y z\nPOINTS 10\nDATA ascii\n0 0 0\n1 0 0\n2 0 0\n3 0 0\n4 0 0\n\
                   5 0 0\n6 0 0\n7 0 0\n8 0 0\n9 0 0\n";

#[test]
fn formats_by_extension() {
    for ext in ["glb", "GLB", "Glb", "vrm", "VRM"] {
        assert_eq!(model_format(Some(ext)), Some(Format::Glb), "{ext}");
    }
    for ext in ["pcd", "PCD", "pCd"] {
        assert_eq!(model_format(Some(ext)), Some(Format::Pcd), "{ext}");
    }
    for ext in ["", "gltf", "glb ", "gl", "obj", "\u{212a}"] {
        assert_eq!(model_format(Some(ext)), None, "{ext}");
    }
    assert_eq!(model_format(None), None);
}

#[test]
fn clouds_are_thinned_by_a_stride() {
    assert_eq!(xs(&subsample(row(10), 5)), vec![0, 2, 4, 6, 8]);
    assert_eq!(xs(&subsample(row(10), 4)), vec![0, 3, 6, 9]);
    assert_eq!(xs(&subsample(row(10), 3)), vec![0, 4, 8]);
    assert_eq!(xs(&subsample(row(10), 6)), vec![0, 2, 4, 6, 8]);
    assert_eq!(xs(&subsample(row(10), 1)), vec![0]);
}

#[test]
fn small_clouds_are_not_thinned() {
    assert_eq!(subsample(row(10), 10), row(10));
    assert_eq!(subsample(row(10), 11), row(10));
    assert_eq!(subsample(row(0), 3), row(0));
}

#[test]
fn nothing_is_kept_of_a_cloud_where_none_is_asked_for() {
    assert_eq!(subsample(row(10), 0), row(0));
    assert_eq!(subsample(row(0), 0), row(0));
}

#[test]
fn thinned_clouds_keep_to_the_target() {
    for n in 0..40usize {
        for target in 0..45usize {
            let kept = subsample(row(n), target);
            assert!(kept.len() <= target);
            assert_eq!(kept.is_empty(), n == 0 || target == 0);
            if n > target && target > 0 {
                let step = n.div_ceil(target);
                let expected: Vec<u32> = (0..n as u32).step_by(step).collect();
                assert_eq!(xs(&kept), expected);
            }
        }
    }
}

#[test]
fn normals_are_handed_over() {
    let turn = |v: Triple| Triple { x: v.z, y: v.x, z: v.y };
    let out = direct_normals(&row(2), &turn);
    assert_eq!(xs(&out), vec![0, 1]);
    assert_eq!(out[1].normal, Triple { x: 1.0f32.to_bits(), y: 0, z: 0 });
}

#[test]
fn files_are_sampled() {
    let pts = sample_points(Some("PCD"), TEN.as_bytes(), &number, &same, 3).unwrap();
    let expected: Vec<u32> = [0.0f32, 4.0, 8.0].iter().map(|v| v.to_bits()).collect();
    assert_eq!(xs(&pts), expected);
    assert!(pts.iter().all(|p| p.normal == pz()));
    let none = sample_points(Some("pcd"), TEN.as_bytes(), &number, &same, 0).unwrap();
    assert_eq!(none.len(), 0);
}

#[test]
fn direction_leaves_point_cloud_files_alone() {
    let flip = |v: Triple| Triple { x: v.z, y: v.y, z: v.x };
    let pts = sample_points(Some("pcd"), TEN.as_bytes(), &number, &flip, 3).unwrap();
    assert!(pts.iter().all(|p| p.normal == pz()));
}

#[test]
fn other_input_gives_nothing() {
    assert_eq!(sample_points(Some("obj"), TEN.as_bytes(), &number, &same, 3), None);
    assert_eq!(sample_points(None, TEN.as_bytes(), &number, &same, 3), None);
    assert_eq!(sample_points(Some("glb"), TEN.as_bytes(), &number, &same, 3), None);
    assert_eq!(sample_points(Some("pcd"), b"glTF", &number, &same, 3), None);
    assert_eq!(sample_points(Some("vrm"), b"", &number, &same, 3), None);
}

#[test]
fn binary_gltf_is_sampled() {
    let json = r#"{"accessors": [{"componentType": 5126, "type": "VEC3", "count": 4,
        "bufferView": 0}], "bufferViews": [{}],
        "meshes": [{"primitives": [{"attributes": {"POSITION": 0}}]}]}"#;
    let mut bytes: Vec<u8> = b"glTF\x02\0\0\0\0\0\0\0".to_vec();
    bytes.extend_from_slice(&(json.len() as u32).to_le_bytes());
    bytes.extend_from_slice(b"JSON");
    bytes.extend_from_slice(json.as_bytes());
    bytes.extend_from_slice(b"\0\0\0\0BIN\0");
    for i in 0..12 {
        bytes.extend_from_slice(&(i as f32).to_le_bytes());
    }
    let pts = sample_points(Some("VRM"), &bytes, &number, &same, 2).unwrap();
    let expected: Vec<u32> = [0.0f32, 6.0].iter().map(|v| v.to_bits()).collect();
    assert_eq!(xs(&pts), expected);
    assert!(pts.iter().all(|p| p.normal == pz()));
}
