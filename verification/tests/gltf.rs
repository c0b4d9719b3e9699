use lana_khora::gltf::{
    glb_chunks, glb_points, glb_vertices, gltf_points, read_gltf, read_vec3, Accessor, Attributes,
    BufferView, Gltf,
};
use lana_khora::json::json_u;
use lana_khora::point::Point;
use lana_khora::scalar::{origin, pz, Triple};

fn triple(x: f32, y: f32, z: f32) -> Triple {
    Triple { x: x.to_bits(), y: y.to_bits(), z: z.to_bits() }
}

fn floats(values: &[f32]) -> Vec<u8> {
    let mut out: Vec<u8> = Vec::new();
    for v in values {
        out.extend_from_slice(&v.to_le_bytes());
    }
    out
}

fn accessor(count: usize, offset: Option<usize>, view: usize) -> Accessor {
    Accessor {
        component_type: Some(5126),
        vec3: true,
        count: Some(count),
        byte_offset: offset,
        buffer_view: Some(view),
    }
}

fn plain_view() -> BufferView {
    BufferView { byte_offset: None, byte_stride: None }
}

fn glb(json: &str, bin: &[u8]) -> Vec<u8> {
    let mut out: Vec<u8> = Vec::new();
    out.extend_from_slice(b"glTF");
    out.extend_from_slice(&2u32.to_le_bytes());
    out.extend_from_slice(&0u32.to_le_bytes());
    out.extend_from_slice(&(json.len() as u32).to_le_bytes());
    out.extend_from_slice(b"JSON");
    out.extend_from_slice(json.as_bytes());
    out.extend_from_slice(&(bin.len() as u32).to_le_bytes());
    out.extend_from_slice(b"BIN\0");
    out.extend_from_slice(bin);
    out
}

const TWO_POINTS: &str = r#"{
    "accessors": [
        {"componentType": 5126, "type": "VEC3", "count": 2, "bufferView": 0},
        {"componentType": 5126, "type": "VEC3", "count": 1, "bufferView": 0, "byteOffset": 24}
    ],
    "bufferViews": [{"byteLength": 36}],
    "meshes": [{"primitives": [{"attributes": {"POSITION": 0, "NORMAL": 1}}]}]
}"#;

#[test]
fn vertices_are_read_in_a_row() {
    let bin = floats(&[1.0, 2.0, 3.0, 4.0, 5.0, 6.0]);
    assert_eq!(
        read_vec3(&[accessor(2, None, 0)], &[plain_view()], &bin, 0),
        Some(vec![triple(1.0, 2.0, 3.0), triple(4.0, 5.0, 6.0)])
    );
}

#[test]
fn offsets_and_stride_are_honoured() {
    let bin = floats(&[9.0, 9.0, 1.0, 2.0, 3.0, 9.0, 4.0, 5.0, 6.0, 9.0]);
    let view = BufferView { byte_offset: Some(4), byte_stride: Some(16) };
    assert_eq!(
        read_vec3(&[accessor(2, Some(4), 0)], &[view], &bin, 0),
        Some(vec![triple(1.0, 2.0, 3.0), triple(4.0, 5.0, 6.0)])
    );
}

#[test]
fn stride_is_never_less_than_a_vertex() {
    let bin = floats(&[1.0, 2.0, 3.0, 4.0, 5.0, 6.0]);
    let view = BufferView { byte_offset: None, byte_stride: Some(4) };
    assert_eq!(
        read_vec3(&[accessor(2, None, 0)], &[view], &bin, 0),
        Some(vec![triple(1.0, 2.0, 3.0), triple(4.0, 5.0, 6.0)])
    );
}

#[test]
fn short_buffers_are_refused() {
    let bin = floats(&[1.0, 2.0, 3.0, 4.0, 5.0]);
    let one = Some(vec![triple(1.0, 2.0, 3.0)]);
    assert_eq!(read_vec3(&[accessor(1, None, 0)], &[plain_view()], &bin, 0), one);
    assert_eq!(read_vec3(&[accessor(2, None, 0)], &[plain_view()], &bin, 0), None);
    assert_eq!(read_vec3(&[accessor(usize::MAX, None, 0)], &[plain_view()], &bin, 0), None);
    assert_eq!(read_vec3(&[accessor(3, Some(100), 0)], &[plain_view()], &bin, 0), None);
    assert_eq!(read_vec3(&[accessor(0, None, 0)], &[plain_view()], &bin, 0), Some(vec![]));
}

#[test]
fn vertices_without_an_address_are_refused() {
    let bin = floats(&[1.0, 2.0, 3.0]);
    let far = BufferView { byte_offset: Some(usize::MAX), byte_stride: None };
    assert_eq!(read_vec3(&[accessor(1, Some(1), 0)], &[far], &bin, 0), None);
    assert_eq!(read_vec3(&[accessor(1, None, 0)], &[far], &bin, 0), None);
    let near = BufferView { byte_offset: Some(usize::MAX - 8), byte_stride: None };
    assert_eq!(read_vec3(&[accessor(1, None, 0)], &[near], &bin, 0), None);
    let wide = BufferView { byte_offset: None, byte_stride: Some(usize::MAX) };
    assert_eq!(read_vec3(&[accessor(2, None, 0)], &[wide], &bin, 0), None);
    assert_eq!(
        read_vec3(&[accessor(1, None, 0)], &[wide], &bin, 0),
        Some(vec![triple(1.0, 2.0, 3.0)])
    );
}

#[test]
fn other_accessors_are_refused() {
    let bin = floats(&[1.0, 2.0, 3.0]);
    let good = accessor(1, None, 0);
    let views = [plain_view()];
    let bad = [
        Accessor { component_type: Some(5123), ..good },
        Accessor { component_type: None, ..good },
        Accessor { vec3: false, ..good },
        Accessor { count: None, ..good },
        Accessor { buffer_view: None, ..good },
        Accessor { buffer_view: Some(1), ..good },
    ];
    for a in bad {
        assert_eq!(read_vec3(&[a], &views, &bin, 0), None);
    }
    assert_eq!(read_vec3(&[good], &views, &bin, 1), None);
}

#[test]
fn vertices_that_are_not_finite_are_settled() {
    let bin = floats(&[1.0, f32::NAN, 3.0, 4.0, 5.0, 6.0]);
    assert_eq!(
        read_vec3(&[accessor(2, None, 0)], &[plain_view()], &bin, 0),
        Some(vec![origin(), triple(4.0, 5.0, 6.0)])
    );
}

#[test]
fn primitives_follow_one_another() {
    let bin = floats(&[1.0, 2.0, 3.0, 4.0, 5.0, 6.0]);
    let gltf = Gltf {
        accessors: vec![accessor(1, None, 0), accessor(1, Some(12), 0)],
        views: vec![plain_view()],
        primitives: vec![
            Attributes { position: Some(1), normal: None },
            Attributes { position: None, normal: Some(0) },
            Attributes { position: Some(7), normal: Some(0) },
            Attributes { position: Some(0), normal: Some(1) },
        ],
    };
    assert_eq!(
        gltf_points(&gltf, &bin),
        Some(vec![
            Point { pos: triple(4.0, 5.0, 6.0), normal: pz() },
            Point { pos: triple(1.0, 2.0, 3.0), normal: triple(4.0, 5.0, 6.0) },
        ])
    );
    let none = Gltf { accessors: vec![], views: vec![], primitives: gltf.primitives };
    assert_eq!(gltf_points(&none, &bin), None);
}

#[test]
fn chunks_are_found() {
    let bytes = glb("{}", &[1, 2, 3]);
    let chunks = glb_chunks(&bytes).unwrap();
    assert_eq!(chunks.json, b"{}");
    assert_eq!(chunks.bin, &[1, 2, 3]);
}

#[test]
fn malformed_containers_are_refused() {
    let good = glb("{}", &[1, 2, 3]);
    for n in 0..good.len() - 3 {
        assert!(glb_chunks(&good[..n]).is_none(), "{n}");
    }
    assert!(glb_chunks(&good[..good.len() - 3]).is_some());
    let mut magic = good.clone();
    magic[3] = b'f';
    assert!(glb_chunks(&magic).is_none());
    let mut version = good.clone();
    version[4] = 1;
    assert!(glb_chunks(&version).is_none());
    let mut long = good.clone();
    long[15] = 0xff;
    assert!(glb_chunks(&long).is_none());
    let mut tag = good.clone();
    tag[26] = b'X';
    assert!(glb_chunks(&tag).is_none());
    let mut first = good.clone();
    first[16..20].copy_from_slice(b"XXXX");
    assert!(glb_chunks(&first).is_none());
    for k in 16..20 {
        let mut other = good.clone();
        other[k] ^= 0x20;
        assert!(glb_chunks(&other).is_none());
    }
}

#[test]
fn whole_file_is_read() {
    let bin = floats(&[1.0, 2.0, 3.0, 4.0, 5.0, 6.0, 0.0, 2.0, 0.0]);
    assert_eq!(
        glb_vertices(&glb(TWO_POINTS, &bin)),
        Some(vec![
            Point { pos: triple(1.0, 2.0, 3.0), normal: triple(0.0, 2.0, 0.0) },
            Point { pos: triple(4.0, 5.0, 6.0), normal: pz() },
        ])
    );
}

#[test]
fn normals_are_directed() {
    let bin = floats(&[1.0, 2.0, 3.0, 4.0, 5.0, 6.0, 0.0, 2.0, 0.0]);
    let flip = |v: Triple| Triple { x: v.z, y: v.y, z: v.x };
    assert_eq!(
        glb_points(&glb(TWO_POINTS, &bin), &flip),
        Some(vec![
            Point { pos: triple(1.0, 2.0, 3.0), normal: triple(0.0, 2.0, 0.0) },
            Point { pos: triple(4.0, 5.0, 6.0), normal: triple(1.0, 0.0, 0.0) },
        ])
    );
}

#[test]
fn malformed_documents_are_refused() {
    let bin = floats(&[1.0, 2.0, 3.0, 4.0, 5.0, 6.0, 0.0, 2.0, 0.0]);
    let docs = [
        "",
        "{",
        "[]",
        "7",
        r#"{"bufferViews": [], "meshes": []}"#,
        r#"{"accessors": [], "meshes": []}"#,
        r#"{"accessors": [], "bufferViews": []}"#,
        r#"{"accessors": {}, "bufferViews": [], "meshes": []}"#,
        r#"{"accessors": [], "bufferViews": [], "meshes": []}"#,
        r#"{"accessors": [], "bufferViews": [], "meshes": [{}]}"#,
        r#"{"accessors": [], "bufferViews": [], "meshes": [{"primitives": 3}]}"#,
        r#"{"accessors": [], "bufferViews": [], "meshes": [{"primitives": [{}]}]}"#,
        r#"{"accessors": [], "bufferViews": [], "meshes": [{"primitives": [{"attributes": {}}]}]}"#,
    ];
    for doc in docs {
        assert_eq!(glb_vertices(&glb(doc, &bin)), None, "{doc}");
    }
}

#[test]
fn incomplete_mesh_spoils_the_file() {
    let bin = floats(&[1.0, 2.0, 3.0]);
    let start = r#"{"accessors": [{"componentType": 5126, "type": "VEC3", "count": 1,
        "bufferView": 0}], "bufferViews": [{}],
        "meshes": [{"primitives": [{"attributes": {"POSITION": 0}}]}"#;
    assert!(glb_vertices(&glb(&format!("{start}]}}"), &bin)).is_some());
    assert!(glb_vertices(&glb(&format!("{start}, {{}}]}}"), &bin)).is_none());
}

#[test]
fn members_of_another_type_do_not_count() {
    let bin = floats(&[1.0, 2.0, 3.0]);
    let file = |accessor: &str, attributes: &str| {
        glb(
            &format!(
                r#"{{"accessors": [{accessor}], "bufferViews": [{{"byteStride": "wide"}}],
                "meshes": [{{"primitives": [{{"attributes": {attributes}}}]}}]}}"#
            ),
            &bin,
        )
    };
    let good = r#"{"componentType": 5126, "type": "VEC3", "count": 1, "bufferView": 0}"#;
    assert!(glb_vertices(&file(good, r#"{"POSITION": 0}"#)).is_some());
    assert!(glb_vertices(&file(good, r#"{"POSITION": 0.0}"#)).is_none());
    assert!(glb_vertices(&file(good, r#"{"POSITION": -1}"#)).is_none());
    assert!(glb_vertices(&file(good, r#"{"POSITION": "0"}"#)).is_none());
    assert!(glb_vertices(&file(good, r#"{"POSITION": null}"#)).is_none());
    assert!(glb_vertices(&file(good, "null")).is_none());
    let flat = r#"{"componentType": 5126, "type": "VEC2", "count": 1, "bufferView": 0}"#;
    assert!(glb_vertices(&file(flat, r#"{"POSITION": 0}"#)).is_none());
    let number = r#"{"componentType": 5126, "type": 3, "count": 1, "bufferView": 0}"#;
    assert!(glb_vertices(&file(number, r#"{"POSITION": 0}"#)).is_none());
    let code = r#"{"componentType": "5126", "type": "VEC3", "count": 1, "bufferView": 0}"#;
    assert!(glb_vertices(&file(code, r#"{"POSITION": 0}"#)).is_none());
}

#[test]
fn document_is_read() {
    let root: serde_json::Value = serde_json::from_str(TWO_POINTS).unwrap();
    let gltf = read_gltf(&root).unwrap();
    assert_eq!(gltf.accessors, vec![accessor(2, None, 0), accessor(1, Some(24), 0)]);
    assert_eq!(gltf.views, vec![plain_view()]);
    assert_eq!(gltf.primitives, vec![Attributes { position: Some(0), normal: Some(1) }]);
}

#[test]
fn indices_are_read_from_objects() {
    let v: serde_json::Value =
        serde_json::from_str(r#"{"a": 7, "b": -7, "c": 7.0, "d": "7", "e": [7], "a": 8}"#).unwrap();
    assert_eq!(json_u(&v, "a"), Some(8));
    for key in ["b", "c", "d", "e", "f"] {
        assert_eq!(json_u(&v, key), None);
    }
    assert_eq!(json_u(&v["e"], "0"), None);
}
