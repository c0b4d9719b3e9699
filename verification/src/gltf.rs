//! Vertices of a binary glTF.
use vstd::prelude::*;

use crate::bytes::{f32_le, le_bytes, spelled_word_is_read_back, u32_le, word_at};
use crate::json::{
    as_str, as_u64, get, holds, json_array, json_document, json_tree, json_u, member,
    member_elements, member_index, member_is_text, member_unsigned,
    members_are_what_an_object_holds, parse_document, trees, JsonTree,
};
use crate::point::{cloud_of, direct_normals, is_directed, is_sound, non_empty, Point};
use crate::scalar::{finite, pz, settled, Triple};

verus! {

/// The component type code of single precision numbers.
pub const FLOAT: u64 = 5126;

/// The format version that is read.
pub const VERSION: u32 = 2;

/// The tag of a JSON chunk.
pub const JSON: u32 = 0x4E4F_534A;

/// The tag of a binary chunk.
pub const BIN: u32 = 0x004E_4942;

/// What is read of an accessor. Members that are missing or of another type are `None`.
#[derive(Clone, Copy, Debug, PartialEq, Eq, Structural)]
pub struct Accessor {
    pub component_type: Option<u64>,
    /// Whether the element type is `VEC3`.
    pub vec3: bool,
    pub count: Option<usize>,
    pub byte_offset: Option<usize>,
    pub buffer_view: Option<usize>,
}

/// What is read of a buffer view.
#[derive(Clone, Copy, Debug, PartialEq, Eq, Structural)]
pub struct BufferView {
    pub byte_offset: Option<usize>,
    pub byte_stride: Option<usize>,
}

/// The accessors that a primitive names for its vertices.
#[derive(Clone, Copy, Debug, PartialEq, Eq, Structural)]
pub struct Attributes {
    pub position: Option<usize>,
    pub normal: Option<usize>,
}

/// What is read of a document. The primitives of all meshes stand in document order.
#[derive(Debug)]
pub struct Gltf {
    pub accessors: Vec<Accessor>,
    pub views: Vec<BufferView>,
    pub primitives: Vec<Attributes>,
}

/// The mathematical counterpart of [`Gltf`].
pub struct GltfModel {
    pub accessors: Seq<Accessor>,
    pub views: Seq<BufferView>,
    pub primitives: Seq<Attributes>,
}

impl View for Gltf {
    type V = GltfModel;

    open spec fn view(&self) -> GltfModel {
        GltfModel {
            accessors: self.accessors@,
            views: self.views@,
            primitives: self.primitives@,
        }
    }
}

/// An offset, or zero where it is not given.
pub open spec fn offset_or_zero(offset: Option<usize>) -> int {
    match offset {
        Some(n) => n as int,
        None => 0,
    }
}

/// The distance from one vertex to the next: never less than a vertex takes.
pub open spec fn stride_of(view: BufferView) -> int {
    match view.byte_stride {
        Some(n) => if n < 12 {
            12
        } else {
            n as int
        },
        None => 12,
    }
}

/// The three numbers at a byte offset.
pub open spec fn triple_at(bin: Seq<u8>, off: int) -> Triple {
    Triple {
        x: word_at(bin, off).unwrap(),
        y: word_at(bin, off + 4).unwrap(),
        z: word_at(bin, off + 8).unwrap(),
    }
}

/// How many vertices of twelve bytes lie in a buffer of `len` bytes, the first at `base`
/// and each `stride` bytes after the one before it.
pub open spec fn fitting(base: int, stride: int, len: int) -> int {
    if base + 12 > len {
        0
    } else {
        (len - base - 12) / stride + 1
    }
}

/// The first `count` vertices; `None` where the buffer does not hold them all.
pub open spec fn strided(bin: Seq<u8>, base: int, stride: int, count: int) -> Option<
    Seq<Triple>,
> {
    if fitting(base, stride, bin.len() as int) < count {
        None
    } else {
        Some(Seq::new(count as nat, |i: int| settled(triple_at(bin, base + i * stride))))
    }
}

/// The vertices that the accessor at `idx` describes. `None` where there is no such
/// accessor, where it does not hold `VEC3` of single precision numbers, where it names no
/// buffer view, and where its data is out of range.
pub open spec fn vec3_of(
    accessors: Seq<Accessor>,
    views: Seq<BufferView>,
    bin: Seq<u8>,
    idx: int,
) -> Option<Seq<Triple>> {
    if idx < 0 || idx >= accessors.len() {
        None
    } else {
        let acc = accessors[idx];
        if acc.component_type != Some(FLOAT) || !acc.vec3 || acc.count is None
            || acc.buffer_view is None || acc.buffer_view.unwrap() >= views.len() {
            None
        } else {
            let view = views[acc.buffer_view.unwrap() as int];
            let base = offset_or_zero(view.byte_offset) + offset_or_zero(acc.byte_offset);
            if base > usize::MAX {
                None
            } else {
                strided(bin, base, stride_of(view), acc.count.unwrap() as int)
            }
        }
    }
}

/// The vertices of an accessor that may not be named.
pub open spec fn optional_vec3_of(
    accessors: Seq<Accessor>,
    views: Seq<BufferView>,
    bin: Seq<u8>,
    idx: Option<usize>,
) -> Option<Seq<Triple>> {
    match idx {
        Some(i) => vec3_of(accessors, views, bin, i as int),
        None => None,
    }
}

/// Each position with the normal of the same index, or with +Z where there is none.
pub open spec fn paired(positions: Seq<Triple>, normals: Option<Seq<Triple>>) -> Seq<Point> {
    Seq::new(
        positions.len(),
        |i: int|
            Point {
                pos: positions[i],
                normal: match normals {
                    Some(ns) => if i < ns.len() {
                        ns[i]
                    } else {
                        pz()
                    },
                    None => pz(),
                },
            },
    )
}

/// The points of one primitive; none where its positions cannot be read.
pub open spec fn primitive_cloud(model: GltfModel, bin: Seq<u8>, attrs: Attributes) -> Seq<Point> {
    match optional_vec3_of(model.accessors, model.views, bin, attrs.position) {
        Some(positions) => paired(
            positions,
            optional_vec3_of(model.accessors, model.views, bin, attrs.normal),
        ),
        None => Seq::empty(),
    }
}

/// The points of the first `n` primitives.
pub open spec fn primitives_cloud(model: GltfModel, bin: Seq<u8>, n: nat) -> Seq<Point>
    decreases n,
{
    if n == 0 {
        Seq::empty()
    } else {
        primitives_cloud(model, bin, (n - 1) as nat) + primitive_cloud(
            model,
            bin,
            model.primitives[n - 1],
        )
    }
}

/// The points of all primitives, in document order.
pub open spec fn gltf_cloud(model: GltfModel, bin: Seq<u8>) -> Seq<Point> {
    primitives_cloud(model, bin, model.primitives.len())
}

/// A vertex index is below [`fitting`] just where the buffer holds that vertex.
proof fn lemma_fitting(base: int, stride: int, len: int, i: int)
    requires
        stride >= 12,
        0 <= base,
        0 <= i,
    ensures
        i < fitting(base, stride, len) <==> base + i * stride + 12 <= len,
        0 <= i * stride,
{
    assert(0 <= i * stride) by (nonlinear_arith)
        requires
            stride >= 12,
            0 <= i,
    ;
    if base + 12 <= len {
        let room = len - base - 12;
        let q = room / stride;
        vstd::arithmetic::div_mod::lemma_fundamental_div_mod(room, stride);
        vstd::arithmetic::div_mod::lemma_mod_bound(room, stride);
        assert(i <= q <==> i * stride <= room) by (nonlinear_arith)
            requires
                stride >= 12,
                room == stride * q + room % stride,
                0 <= room % stride < stride,
        ;
    }
}

/// Reads the vertices that the accessor at `idx` describes, all of them or none.
pub fn read_vec3(
    accessors: &[Accessor],
    views: &[BufferView],
    bin: &[u8],
    idx: usize,
) -> (r: Option<Vec<Triple>>)
    ensures
        match r {
            Some(v) => vec3_of(accessors@, views@, bin@, idx as int) == Some(v@),
            None => vec3_of(accessors@, views@, bin@, idx as int) is None,
        },
{
    if idx >= accessors.len() {
        return None;
    }
    let acc: Accessor = accessors[idx];
    let is_float: bool = match acc.component_type {
        Some(code) => code == FLOAT,
        None => false,
    };
    if !is_float || !acc.vec3 {
        return None;
    }
    let count: usize = match acc.count {
        Some(n) => n,
        None => return None,
    };
    let view_idx: usize = match acc.buffer_view {
        Some(n) => n,
        None => return None,
    };
    if view_idx >= views.len() {
        return None;
    }
    let view: BufferView = views[view_idx];
    let acc_off: usize = acc.byte_offset.unwrap_or(0);
    let view_off: usize = view.byte_offset.unwrap_or(0);
    let given: usize = view.byte_stride.unwrap_or(12);
    let stride: usize = if given < 12 {
        12
    } else {
        given
    };
    let base: usize = match view_off.checked_add(acc_off) {
        Some(n) => n,
        None => return None,
    };
    let len: usize = bin.len();
    let mut out: Vec<Triple> = Vec::new();
    let mut vi: usize = 0;
    proof {
        lemma_fitting(base as int, stride as int, len as int, 0);
    }
    while vi < count
        invariant
            0 <= vi <= count,
            stride >= 12,
            len == bin@.len(),
            vi <= fitting(base as int, stride as int, len as int),
            out@ == Seq::new(
                vi as nat,
                |i: int| settled(triple_at(bin@, base + i * stride)),
            ),
            vec3_of(accessors@, views@, bin@, idx as int) == strided(
                bin@,
                base as int,
                stride as int,
                count as int,
            ),
        decreases count - vi,
    {
        proof {
            lemma_fitting(base as int, stride as int, len as int, vi as int);
        }
        let step: usize = match vi.checked_mul(stride) {
            Some(n) => n,
            None => return None,
        };
        let off: usize = match base.checked_add(step) {
            Some(n) => n,
            None => return None,
        };
        let second: usize = match off.checked_add(4) {
            Some(n) => n,
            None => return None,
        };
        let third: usize = match off.checked_add(8) {
            Some(n) => n,
            None => return None,
        };
        match (f32_le(bin, off), f32_le(bin, second), f32_le(bin, third)) {
            (Some(x), Some(y), Some(z)) => {
                out.push(finite(Triple { x, y, z }));
            },
            _ => {
                return None;
            },
        }
        vi = vi + 1;
    }
    Some(out)
}

/// Appends the points of one primitive.
fn push_primitive(gltf: &Gltf, bin: &[u8], attrs: Attributes, out: &mut Vec<Point>)
    ensures
        final(out)@ == old(out)@ + primitive_cloud(gltf@, bin@, attrs),
{
    let position: usize = match attrs.position {
        Some(i) => i,
        None => return ,
    };
    let positions: Vec<Triple> = match read_vec3(&gltf.accessors, &gltf.views, bin, position) {
        Some(v) => v,
        None => return ,
    };
    let normals: Option<Vec<Triple>> = match attrs.normal {
        Some(i) => read_vec3(&gltf.accessors, &gltf.views, bin, i),
        None => None,
    };
    let ghost all = primitive_cloud(gltf@, bin@, attrs);
    let ghost before = out@;
    let mut i: usize = 0;
    while i < positions.len()
        invariant
            0 <= i <= positions.len(),
            all.len() == positions.len(),
            all == paired(
                positions@,
                match normals {
                    Some(ns) => Some(ns@),
                    None => None,
                },
            ),
            out@ == before + all.take(i as int),
        decreases positions.len() - i,
    {
        let normal: Triple = match &normals {
            Some(ns) => if i < ns.len() {
                ns[i]
            } else {
                pz()
            },
            None => pz(),
        };
        out.push(Point { pos: positions[i], normal });
        assert(all.take(i + 1) == all.take(i as int).push(all[i as int]));
        i = i + 1;
    }
    assert(all.take(i as int) == all);
}

/// Collects the points of every primitive, in document order; `None` where there is none.
pub fn gltf_points(gltf: &Gltf, bin: &[u8]) -> (r: Option<Vec<Point>>)
    ensures
        cloud_of(r) == non_empty(gltf_cloud(gltf@, bin@)),
{
    let mut out: Vec<Point> = Vec::new();
    let mut i: usize = 0;
    while i < gltf.primitives.len()
        invariant
            0 <= i <= gltf.primitives.len(),
            out@ == primitives_cloud(gltf@, bin@, i as nat),
        decreases gltf.primitives.len() - i,
    {
        push_primitive(gltf, bin, gltf.primitives[i], &mut out);
        i = i + 1;
    }
    if out.len() == 0 {
        None
    } else {
        Some(out)
    }
}

/// What is read of an accessor's object.
pub open spec fn accessor_of(tree: JsonTree) -> Accessor {
    Accessor {
        component_type: member_unsigned(tree, "componentType"@),
        vec3: member_is_text(tree, "type"@, "VEC3"@),
        count: member_index(tree, "count"@),
        byte_offset: member_index(tree, "byteOffset"@),
        buffer_view: member_index(tree, "bufferView"@),
    }
}

/// What is read of a buffer view's object.
pub open spec fn view_of(tree: JsonTree) -> BufferView {
    BufferView {
        byte_offset: member_index(tree, "byteOffset"@),
        byte_stride: member_index(tree, "byteStride"@),
    }
}

/// What is read of a primitive, which must have attributes.
pub open spec fn attributes_of(tree: JsonTree) -> Option<Attributes> {
    match member(tree, "attributes"@) {
        Some(attrs) => Some(
            Attributes {
                position: member_index(attrs, "POSITION"@),
                normal: member_index(attrs, "NORMAL"@),
            },
        ),
        None => None,
    }
}

/// The first `n` primitives of a mesh, where each has attributes.
pub open spec fn leading_attributes(primitives: Seq<JsonTree>, n: nat) -> Option<Seq<Attributes>>
    decreases n,
{
    if n == 0 {
        Some(Seq::empty())
    } else {
        match (leading_attributes(primitives, (n - 1) as nat), attributes_of(primitives[n - 1])) {
            (Some(before), Some(attrs)) => Some(before.push(attrs)),
            _ => None,
        }
    }
}

/// The primitives of a mesh: it must have a list of them, each with attributes.
pub open spec fn mesh_attributes(mesh: JsonTree) -> Option<Seq<Attributes>> {
    match member_elements(mesh, "primitives"@) {
        Some(primitives) => leading_attributes(primitives, primitives.len()),
        None => None,
    }
}

/// The primitives of the first `n` meshes, one mesh after the other.
pub open spec fn meshes_attributes(meshes: Seq<JsonTree>, n: nat) -> Option<Seq<Attributes>>
    decreases n,
{
    if n == 0 {
        Some(Seq::empty())
    } else {
        match (meshes_attributes(meshes, (n - 1) as nat), mesh_attributes(meshes[n - 1])) {
            (Some(before), Some(attrs)) => Some(before + attrs),
            _ => None,
        }
    }
}

/// What is read of a document's root: it must have the three lists.
pub open spec fn gltf_of(tree: JsonTree) -> Option<GltfModel> {
    match (
        member_elements(tree, "accessors"@),
        member_elements(tree, "bufferViews"@),
        member_elements(tree, "meshes"@),
    ) {
        (Some(accessors), Some(views), Some(meshes)) => match meshes_attributes(
            meshes,
            meshes.len(),
        ) {
            Some(primitives) => Some(
                GltfModel {
                    accessors: accessors.map_values(|t: JsonTree| accessor_of(t)),
                    views: views.map_values(|t: JsonTree| view_of(t)),
                    primitives,
                },
            ),
            None => None,
        },
        _ => None,
    }
}

/// A mesh without its primitives stays so, whatever meshes follow it.
proof fn lemma_meshes_stay_unread(meshes: Seq<JsonTree>, n: nat, m: nat)
    requires
        n <= m,
        meshes_attributes(meshes, n) is None,
    ensures
        meshes_attributes(meshes, m) is None,
    decreases m,
{
    if n < m {
        lemma_meshes_stay_unread(meshes, n, (m - 1) as nat);
    }
}

/// A primitive without attributes stays so, whatever primitives follow it.
proof fn lemma_primitives_stay_unread(primitives: Seq<JsonTree>, n: nat, m: nat)
    requires
        n <= m,
        leading_attributes(primitives, n) is None,
    ensures
        leading_attributes(primitives, m) is None,
    decreases m,
{
    if n < m {
        lemma_primitives_stay_unread(primitives, n, (m - 1) as nat);
    }
}

/// Reads an accessor's object.
fn read_accessor(value: &serde_json::Value) -> (r: Accessor)
    ensures
        r == accessor_of(json_tree(*value)),
{
    let component_type: Option<u64> = match get(value, "componentType") {
        Some(v) => as_u64(v),
        None => None,
    };
    let vec3: bool = match get(value, "type") {
        Some(v) => match as_str(v) {
            Some(s) => s.to_owned() == "VEC3".to_owned(),
            None => false,
        },
        None => false,
    };
    Accessor {
        component_type,
        vec3,
        count: json_u(value, "count"),
        byte_offset: json_u(value, "byteOffset"),
        buffer_view: json_u(value, "bufferView"),
    }
}

/// Appends the primitives of one mesh; tells whether all of them could be read.
fn push_mesh(mesh: &serde_json::Value, out: &mut Vec<Attributes>) -> (r: bool)
    ensures
        match mesh_attributes(json_tree(*mesh)) {
            Some(attrs) => r && final(out)@ == old(out)@ + attrs,
            None => !r,
        },
{
    let primitives: &Vec<serde_json::Value> = match json_array(mesh, "primitives") {
        Some(items) => items,
        None => return false,
    };
    let ghost all = trees(primitives@);
    let ghost before = out@;
    let mut i: usize = 0;
    while i < primitives.len()
        invariant
            0 <= i <= primitives.len(),
            all == trees(primitives@),
            mesh_attributes(json_tree(*mesh)) == leading_attributes(all, all.len()),
            match leading_attributes(all, i as nat) {
                Some(attrs) => out@ == before + attrs,
                None => false,
            },
        decreases primitives.len() - i,
    {
        let attrs: &serde_json::Value = match get(&primitives[i], "attributes") {
            Some(v) => v,
            None => {
                proof {
                    lemma_primitives_stay_unread(all, (i + 1) as nat, all.len());
                }
                return false;
            },
        };
        out.push(
            Attributes { position: json_u(attrs, "POSITION"), normal: json_u(attrs, "NORMAL") },
        );
        i = i + 1;
        assert(out@ == before + leading_attributes(all, i as nat).unwrap());
    }
    true
}

/// Reads what is needed of a document's root; `None` where one of the three lists is
/// missing, and where a mesh or one of its primitives is not complete.
pub fn read_gltf(root: &serde_json::Value) -> (r: Option<Gltf>)
    ensures
        match r {
            Some(gltf) => gltf_of(json_tree(*root)) == Some(gltf@),
            None => gltf_of(json_tree(*root)) is None,
        },
{
    let accessor_values: &Vec<serde_json::Value> = match json_array(root, "accessors") {
        Some(items) => items,
        None => return None,
    };
    let view_values: &Vec<serde_json::Value> = match json_array(root, "bufferViews") {
        Some(items) => items,
        None => return None,
    };
    let meshes: &Vec<serde_json::Value> = match json_array(root, "meshes") {
        Some(items) => items,
        None => return None,
    };

    let mut accessors: Vec<Accessor> = Vec::new();
    let mut i: usize = 0;
    while i < accessor_values.len()
        invariant
            0 <= i <= accessor_values.len(),
            accessors@ == trees(accessor_values@).take(i as int).map_values(
                |t: JsonTree| accessor_of(t),
            ),
        decreases accessor_values.len() - i,
    {
        accessors.push(read_accessor(&accessor_values[i]));
        i = i + 1;
    }
    assert(trees(accessor_values@).take(i as int) == trees(accessor_values@));

    let mut views: Vec<BufferView> = Vec::new();
    let mut j: usize = 0;
    while j < view_values.len()
        invariant
            0 <= j <= view_values.len(),
            views@ == trees(view_values@).take(j as int).map_values(|t: JsonTree| view_of(t)),
        decreases view_values.len() - j,
    {
        let v: &serde_json::Value = &view_values[j];
        views.push(
            BufferView { byte_offset: json_u(v, "byteOffset"), byte_stride: json_u(v, "byteStride") },
        );
        j = j + 1;
    }
    assert(trees(view_values@).take(j as int) == trees(view_values@));

    let ghost all = trees(meshes@);
    let mut primitives: Vec<Attributes> = Vec::new();
    let mut k: usize = 0;
    while k < meshes.len()
        invariant
            0 <= k <= meshes.len(),
            all == trees(meshes@),
            member_elements(json_tree(*root), "accessors"@) is Some,
            member_elements(json_tree(*root), "bufferViews"@) is Some,
            member_elements(json_tree(*root), "meshes"@) == Some(all),
            meshes_attributes(all, k as nat) == Some(primitives@),
        decreases meshes.len() - k,
    {
        let complete: bool = push_mesh(&meshes[k], &mut primitives);
        if !complete {
            proof {
                lemma_meshes_stay_unread(all, (k + 1) as nat, all.len());
            }
            return None;
        }
        k = k + 1;
    }
    Some(Gltf { accessors, views, primitives })
}

/// The two chunks of a binary glTF that are read.
#[derive(Debug)]
pub struct Chunks<'a> {
    /// The text of the JSON chunk.
    pub json: &'a [u8],
    /// Everything behind the header of the binary chunk.
    pub bin: &'a [u8],
}

/// Where the JSON chunk of a binary glTF ends. `None` where the bytes do not start with
/// the magic word and the version, where the first chunk is no JSON chunk or ends behind
/// them, and where no binary chunk follows it.
pub open spec fn json_end(bytes: Seq<u8>) -> Option<int> {
    if bytes.len() >= 20 && bytes.subrange(0, 4) == seq![0x67u8, 0x6c, 0x54, 0x46] && word_at(
        bytes,
        4,
    ) == Some(VERSION) && word_at(bytes, 16) == Some(JSON) && word_at(
        bytes,
        20 + word_at(bytes, 12).unwrap() + 4,
    ) == Some(BIN) {
        Some(20 + word_at(bytes, 12).unwrap())
    } else {
        None
    }
}

/// The text of the JSON chunk that ends at `end`.
pub open spec fn json_chunk(bytes: Seq<u8>, end: int) -> Seq<u8> {
    bytes.subrange(20, end)
}

/// What lies behind the header of the binary chunk that follows the JSON chunk.
pub open spec fn bin_chunk(bytes: Seq<u8>, end: int) -> Seq<u8> {
    bytes.subrange(end + 8, bytes.len() as int)
}

/// Finds the two chunks of a binary glTF.
pub fn glb_chunks<'a>(bytes: &'a [u8]) -> (r: Option<Chunks<'a>>)
    ensures
        match json_end(bytes@) {
            Some(end) => r is Some && r.unwrap().json@ == json_chunk(bytes@, end)
                && r.unwrap().bin@ == bin_chunk(bytes@, end),
            None => r is None,
        },
{
    let len: usize = bytes.len();
    if len < 20 {
        return None;
    }
    if bytes[0] != 0x67 || bytes[1] != 0x6c || bytes[2] != 0x54 || bytes[3] != 0x46 {
        assert(bytes@.subrange(0, 4) != seq![0x67u8, 0x6c, 0x54, 0x46]) by {
            let head = bytes@.subrange(0, 4);
            assert(head[0] == bytes@[0] && head[1] == bytes@[1] && head[2] == bytes@[2] && head[3]
                == bytes@[3]);
        }
        return None;
    }
    assert(bytes@.subrange(0, 4) == seq![0x67u8, 0x6c, 0x54, 0x46]);
    match u32_le(bytes, 4) {
        Some(version) => if version != VERSION {
            return None;
        },
        None => return None,
    }
    let json_len: u32 = match u32_le(bytes, 12) {
        Some(n) => n,
        None => return None,
    };
    match u32_le(bytes, 16) {
        Some(tag) => if tag != JSON {
            return None;
        },
        None => return None,
    }
    let room: usize = len - 20;
    if json_len as u64 > room as u64 {
        return None;
    }
    let end: usize = 20 + json_len as usize;
    if len - end < 8 {
        return None;
    }
    match u32_le(bytes, end + 4) {
        Some(tag) => if tag != BIN {
            return None;
        },
        None => return None,
    }
    Some(
        Chunks {
            json: vstd::slice::slice_subrange(bytes, 20, end),
            bin: vstd::slice::slice_subrange(bytes, end + 8, len),
        },
    )
}

/// The points of a document and the binary chunk that comes with it.
pub open spec fn document_cloud(document: Option<JsonTree>, bin: Seq<u8>) -> Option<Seq<Point>> {
    match document {
        Some(tree) => match gltf_of(tree) {
            Some(model) => non_empty(gltf_cloud(model, bin)),
            None => None,
        },
        None => None,
    }
}

/// The points of a binary glTF, as its JSON chunk and its binary chunk give them.
pub open spec fn glb_cloud(bytes: Seq<u8>) -> Option<Seq<Point>> {
    match json_end(bytes) {
        Some(end) => document_cloud(
            json_document(json_chunk(bytes, end)),
            bin_chunk(bytes, end),
        ),
        None => None,
    }
}

/// The magic word, the version, a file length, the header of a JSON chunk of this length and
/// its text.
pub open spec fn assembled_head(file_len: u32, json: Seq<u8>) -> Seq<u8> {
    (seq![0x67u8, 0x6c, 0x54, 0x46] + le_bytes(VERSION) + le_bytes(file_len) + le_bytes(
        json.len() as u32,
    ) + le_bytes(JSON)) + json
}

/// A binary glTF of a JSON chunk and a binary chunk, with any file length and any length in
/// the header of the binary chunk.
pub open spec fn assembled(file_len: u32, json: Seq<u8>, bin_len: u32, bin: Seq<u8>) -> Seq<u8> {
    assembled_head(file_len, json) + le_bytes(bin_len) + le_bytes(BIN) + bin
}

/// The chunks that a binary glTF was put together from are found in it, and its points are
/// those that they give.
pub proof fn assembled_chunks_are_found(
    file_len: u32,
    json: Seq<u8>,
    bin_len: u32,
    bin: Seq<u8>,
)
    requires
        json.len() <= u32::MAX,
    ensures
        ({
            let bytes = assembled(file_len, json, bin_len, bin);
            &&& json_end(bytes) == Some((20 + json.len()) as int)
            &&& json_chunk(bytes, (20 + json.len()) as int) == json
            &&& bin_chunk(bytes, (20 + json.len()) as int) == bin
            &&& glb_cloud(bytes) == document_cloud(json_document(json), bin)
        }),
{
    let bytes = assembled(file_len, json, bin_len, bin);
    let magic = seq![0x67u8, 0x6c, 0x54, 0x46];
    let tail = json + le_bytes(bin_len) + le_bytes(BIN) + bin;
    let n = json.len() as u32;
    let to_version = magic;
    let to_len = magic + le_bytes(VERSION) + le_bytes(file_len);
    spelled_word_is_read_back(
        to_version,
        VERSION,
        le_bytes(file_len) + le_bytes(n) + le_bytes(JSON) + tail,
    );
    assert(bytes =~= to_version + le_bytes(VERSION) + (le_bytes(file_len) + le_bytes(n) + le_bytes(
        JSON,
    ) + tail));
    spelled_word_is_read_back(to_len, n, le_bytes(JSON) + tail);
    assert(bytes =~= to_len + le_bytes(n) + (le_bytes(JSON) + tail));
    let to_json = to_len + le_bytes(n);
    spelled_word_is_read_back(to_json, JSON, tail);
    assert(bytes =~= to_json + le_bytes(JSON) + tail);
    let to_tag = assembled_head(file_len, json) + le_bytes(bin_len);
    spelled_word_is_read_back(to_tag, BIN, bin);
    assert(bytes =~= to_tag + le_bytes(BIN) + bin);
    assert(bytes.subrange(0, 4) =~= magic);
    assert(bytes.subrange(20, 20 + n) =~= json);
    assert(bytes.subrange(28 + n, bytes.len() as int) =~= bin);
}

/// Collects the vertices of every primitive of a binary glTF, with their normals as the file
/// has them, or +Z where it has none.
pub fn glb_vertices(bytes: &[u8]) -> (r: Option<Vec<Point>>)
    ensures
        cloud_of(r) == glb_cloud(bytes@),
{
    let chunks: Chunks = match glb_chunks(bytes) {
        Some(chunks) => chunks,
        None => return None,
    };
    let root: serde_json::Value = match parse_document(chunks.json) {
        Some(root) => root,
        None => return None,
    };
    match read_gltf(&root) {
        Some(gltf) => gltf_points(&gltf, chunks.bin),
        None => None,
    }
}

/// Whether this is the cloud of a binary glTF with each normal handed to `direction`.
pub open spec fn is_glb_cloud<G: Fn(Triple) -> Triple>(
    direction: G,
    bytes: Seq<u8>,
    cloud: Option<Seq<Point>>,
) -> bool {
    match (glb_cloud(bytes), cloud) {
        (Some(vertices), Some(points)) => is_directed(direction, vertices, points),
        (None, None) => true,
        _ => false,
    }
}

/// Collects the points of every primitive of a binary glTF. `direction` makes a normal a
/// unit vector.
pub fn glb_points<G: Fn(Triple) -> Triple>(bytes: &[u8], direction: &G) -> (r: Option<Vec<Point>>)
    requires
        forall|v: Triple| call_requires(*direction, (v,)),
    ensures
        is_glb_cloud(*direction, bytes@, cloud_of(r)),
{
    match glb_vertices(bytes) {
        Some(vertices) => Some(direct_normals(vertices.as_slice(), direction)),
        None => None,
    }
}

/// Whether all of some triples are finite.
pub open spec fn all_settled(triples: Seq<Triple>) -> bool {
    forall|i: int| 0 <= i < triples.len() ==> (#[trigger] triples[i]).all_finite()
}

/// An accessor gives finite vertices, and just its count of them.
pub proof fn accessor_gives_finite_vertices(
    accessors: Seq<Accessor>,
    views: Seq<BufferView>,
    bin: Seq<u8>,
    idx: int,
)
    ensures
        match vec3_of(accessors, views, bin, idx) {
            Some(v) => all_settled(v) && v.len() == accessors[idx].count.unwrap(),
            None => true,
        },
{
    if let Some(v) = vec3_of(accessors, views, bin, idx) {
        let acc = accessors[idx];
        let view = views[acc.buffer_view.unwrap() as int];
        let base = offset_or_zero(view.byte_offset) + offset_or_zero(acc.byte_offset);
        lemma_fitting_positive(base, stride_of(view), bin.len() as int);
    }
}

/// A buffer does not hold fewer than no vertices.
proof fn lemma_fitting_positive(base: int, stride: int, len: int)
    requires
        stride >= 12,
        0 <= base,
    ensures
        0 <= fitting(base, stride, len),
{
    lemma_fitting(base, stride, len, 0);
    if base + 12 <= len {
        vstd::arithmetic::div_mod::lemma_div_pos_is_pos(len - base - 12, stride);
    }
}

/// The points of some primitives have finite positions and normals.
proof fn lemma_primitives_finite(model: GltfModel, bin: Seq<u8>, n: nat)
    ensures
        forall|i: int|
            0 <= i < primitives_cloud(model, bin, n).len() ==> (#[trigger] primitives_cloud(
                model,
                bin,
                n,
            )[i]).pos.all_finite() && primitives_cloud(model, bin, n)[i].normal.all_finite(),
    decreases n,
{
    if n > 0 {
        lemma_primitives_finite(model, bin, (n - 1) as nat);
        let attrs = model.primitives[n - 1];
        if let Some(i) = attrs.position {
            accessor_gives_finite_vertices(model.accessors, model.views, bin, i as int);
        }
        if let Some(i) = attrs.normal {
            accessor_gives_finite_vertices(model.accessors, model.views, bin, i as int);
        }
        let before = primitives_cloud(model, bin, (n - 1) as nat);
        let added = primitive_cloud(model, bin, attrs);
        let all = primitives_cloud(model, bin, n);
        assert forall|i: int| 0 <= i < all.len() implies (#[trigger] all[i]).pos.all_finite()
            && all[i].normal.all_finite() by {
            if i < before.len() {
                assert(all[i] == before[i]);
            } else {
                assert(all[i] == added[i - before.len()]);
            }
        }
    }
}

/// A binary glTF that can be read has points, all at finite positions and with normals of
/// finite numbers.
pub proof fn glb_cloud_is_sound(bytes: Seq<u8>)
    ensures
        match glb_cloud(bytes) {
            Some(points) => is_sound(points) && forall|i: int|
                0 <= i < points.len() ==> (#[trigger] points[i]).normal.all_finite(),
            None => true,
        },
{
    if let Some(points) = glb_cloud(bytes) {
        let end = json_end(bytes).unwrap();
        let model = gltf_of(json_document(json_chunk(bytes, end)).unwrap()).unwrap();
        lemma_primitives_finite(model, bin_chunk(bytes, end), model.primitives.len());
    }
}

/// A primitive without normals that can be read has +Z normals throughout.
pub proof fn missing_normals_point_along_z(model: GltfModel, bin: Seq<u8>, attrs: Attributes)
    requires
        optional_vec3_of(model.accessors, model.views, bin, attrs.normal) is None,
    ensures
        forall|i: int|
            0 <= i < primitive_cloud(model, bin, attrs).len() ==> (#[trigger] primitive_cloud(
                model,
                bin,
                attrs,
            )[i]).normal == pz(),
{
}

/// The bytes of some vertices, one behind the other.
pub open spec fn packed(vertices: Seq<Triple>) -> Seq<u8>
    decreases vertices.len(),
{
    if vertices.len() == 0 {
        Seq::empty()
    } else {
        packed(vertices.drop_last()) + vertex_bytes(vertices.last())
    }
}

/// The bytes of a vertex.
pub open spec fn vertex_bytes(v: Triple) -> Seq<u8> {
    le_bytes(v.x) + le_bytes(v.y) + le_bytes(v.z)
}

/// A vertex that was spelled is read back from where it stands.
#[verifier::spinoff_prover]
proof fn lemma_vertex_is_read_back(head: Seq<u8>, v: Triple, after: Seq<u8>)
    ensures
        triple_at(head + (vertex_bytes(v) + after), head.len() as int) == v,
{
    let all = head + (vertex_bytes(v) + after);
    let (x, y, z) = (le_bytes(v.x), le_bytes(v.y), le_bytes(v.z));
    spelled_word_is_read_back(head, v.x, y + z + after);
    assert(head + x + (y + z + after) =~= all);
    spelled_word_is_read_back(head + x, v.y, z + after);
    assert((head + x) + y + (z + after) =~= all);
    spelled_word_is_read_back(head + x + y, v.z, after);
    assert((head + x + y) + z + after =~= all);
}

/// Packed vertices take twelve bytes each.
proof fn lemma_packed_len(vertices: Seq<Triple>)
    ensures
        packed(vertices).len() == 12 * vertices.len(),
    decreases vertices.len(),
{
    if vertices.len() > 0 {
        lemma_packed_len(vertices.drop_last());
    }
}

/// Packed vertices stand each at its place.
proof fn lemma_packed(vertices: Seq<Triple>, after: Seq<u8>, i: int)
    requires
        0 <= i < vertices.len(),
    ensures
        packed(vertices).len() == 12 * vertices.len(),
        triple_at(packed(vertices) + after, 12 * i) == vertices[i],
    decreases vertices.len(),
{
    let before = vertices.drop_last();
    let tail = vertex_bytes(vertices.last());
    let head = packed(before);
    lemma_packed_len(vertices);
    lemma_packed_len(before);
    assert(packed(vertices) + after =~= head + (tail + after));
    if i < before.len() {
        lemma_packed(before, tail + after, i);
    } else {
        lemma_vertex_is_read_back(head, vertices.last(), after);
    }
}

/// Vertices that were packed into a buffer are read back from it in full, wherever they
/// start and whatever stands around them; those that are not finite as the origin.
pub proof fn packed_vertices_are_read_back(
    before: Seq<u8>,
    vertices: Seq<Triple>,
    after: Seq<u8>,
)
    ensures
        strided(before + packed(vertices) + after, before.len() as int, 12, vertices.len() as int)
            == Some(vertices.map_values(|v: Triple| settled(v))),
{
    let bin = before + packed(vertices) + after;
    let base = before.len() as int;
    let n = vertices.len() as int;
    if n > 0 {
        lemma_packed(vertices, after, 0);
        lemma_fitting(base, 12, bin.len() as int, n - 1);
        assert forall|i: int| 0 <= i < n implies triple_at(bin, base + i * 12) == #[trigger]
            vertices[i] by {
            lemma_packed(vertices, after, i);
            let inner = packed(vertices) + after;
            let off = base + i * 12;
            assert forall|k: int| 0 <= k < 12 implies #[trigger] bin[off + k] == inner[12 * i + k] by {}
            assert(bin[off + 0] == inner[12 * i + 0] && bin[off + 1] == inner[12 * i + 1] && bin[off
                + 2] == inner[12 * i + 2] && bin[off + 3] == inner[12 * i + 3]);
            assert(bin[off + 4] == inner[12 * i + 4] && bin[off + 5] == inner[12 * i + 5] && bin[off
                + 6] == inner[12 * i + 6] && bin[off + 7] == inner[12 * i + 7]);
            assert(bin[off + 8] == inner[12 * i + 8] && bin[off + 9] == inner[12 * i + 9] && bin[off
                + 10] == inner[12 * i + 10] && bin[off + 11] == inner[12 * i + 11]);
        }
    }
    lemma_fitting_positive(base, 12, bin.len() as int);
    assert(strided(bin, base, 12, n).unwrap() =~= vertices.map_values(|v: Triple| settled(v)));
}

/// Whether three words of a buffer, at an offset and right behind it, make a vertex.
pub open spec fn stands_at(bin: Seq<u8>, off: int, v: Triple) -> bool {
    &&& word_at(bin, off) is Some
    &&& word_at(bin, off + 4) is Some
    &&& word_at(bin, off + 8) is Some
    &&& v == settled(
        Triple {
            x: word_at(bin, off).unwrap(),
            y: word_at(bin, off + 4).unwrap(),
            z: word_at(bin, off + 8).unwrap(),
        },
    )
}

/// Vertices are read one stride apart from a base on, all of them or none: where the last
/// one ends within the buffer, each is the three words at its place, settled.
pub proof fn vertices_stand_one_stride_apart(bin: Seq<u8>, base: int, stride: int, count: int)
    requires
        stride >= 12,
        base >= 0,
        count >= 0,
    ensures
        strided(bin, base, stride, count) is Some <==> count == 0 || base + (count - 1) * stride
            + 12 <= bin.len(),
        strided(bin, base, stride, count) matches Some(v) ==> v.len() == count && forall|i: int|
            0 <= i < count ==> stands_at(bin, base + i * stride, #[trigger] v[i]),
{
    let len = bin.len() as int;
    lemma_fitting_positive(base, stride, len);
    if count > 0 {
        lemma_fitting(base, stride, len, count - 1);
    }
    if let Some(v) = strided(bin, base, stride, count) {
        assert forall|i: int| 0 <= i < count implies stands_at(
            bin,
            base + i * stride,
            #[trigger] v[i],
        ) by {
            lemma_fitting(base, stride, len, i);
        }
    }
}

/// Where the data of an accessor starts: as far behind the start of its view as it says, and
/// that as far behind the start of the buffer as it says, or right there.
pub open spec fn data_start(acc: Accessor, view: BufferView) -> int {
    (if view.byte_offset is Some {
        view.byte_offset.unwrap() as int
    } else {
        0
    }) + (if acc.byte_offset is Some {
        acc.byte_offset.unwrap() as int
    } else {
        0
    })
}

/// How far apart vertices stand: twelve bytes, or more where the view says so.
pub open spec fn data_step(view: BufferView) -> int {
    if view.byte_stride is Some && view.byte_stride.unwrap() > 12 {
        view.byte_stride.unwrap() as int
    } else {
        12
    }
}

/// An accessor is read where it holds triples of single precision numbers, names a view that
/// there is, and has all of its data in the buffer; then it gives its count of vertices, each
/// from its place.
pub proof fn accessors_are_read_in_full(
    accessors: Seq<Accessor>,
    views: Seq<BufferView>,
    bin: Seq<u8>,
    idx: int,
)
    ensures
        ({
            let acc = accessors[idx];
            let view = views[acc.buffer_view.unwrap() as int];
            let count = acc.count.unwrap() as int;
            let start = data_start(acc, view);
            let step = data_step(view);
            let read = vec3_of(accessors, views, bin, idx);
            &&& read is Some <==> {
                &&& 0 <= idx < accessors.len()
                &&& acc.component_type == Some(5126u64)
                &&& acc.vec3
                &&& acc.count is Some
                &&& acc.buffer_view is Some
                &&& acc.buffer_view.unwrap() < views.len()
                &&& start <= usize::MAX
                &&& count == 0 || start + (count - 1) * step + 12 <= bin.len()
            }
            &&& read matches Some(v) ==> v.len() == count && forall|i: int|
                0 <= i < count ==> stands_at(bin, start + i * step, #[trigger] v[i])
        }),
{
    let acc = accessors[idx];
    let view = views[acc.buffer_view.unwrap() as int];
    let count = acc.count.unwrap() as int;
    vertices_stand_one_stride_apart(bin, data_start(acc, view), data_step(view), count);
}

/// The points of a primitive: one for each of its positions, in order, with the normal of
/// its own index where there is one, and with +Z where there is not. A primitive whose
/// positions cannot be read has none.
pub proof fn positions_go_with_their_own_normals(model: GltfModel, bin: Seq<u8>, attrs: Attributes)
    ensures
        ({
            let points = primitive_cloud(model, bin, attrs);
            let ps = match attrs.position {
                Some(i) => vec3_of(model.accessors, model.views, bin, i as int),
                None => None,
            };
            let ns = match attrs.normal {
                Some(i) => vec3_of(model.accessors, model.views, bin, i as int),
                None => None,
            };
            &&& ps is None ==> points.len() == 0
            &&& ps matches Some(ps) ==> points.len() == ps.len() && forall|i: int|
                0 <= i < ps.len() ==> (#[trigger] points[i]).pos == ps[i]
            &&& ps matches Some(ps) ==> (ns matches Some(ns) ==> forall|i: int|
                0 <= i < ps.len() && i < ns.len() ==> (#[trigger] points[i]).normal == ns[i])
            &&& ps matches Some(ps) ==> forall|i: int|
                0 <= i < ps.len() && (ns is None || i >= ns.unwrap().len()) ==> (
                #[trigger] points[i]).normal == (Triple { x: 0, y: 0, z: 0x3f80_0000 })
        }),
{
}

/// An accessor of triples of single precision numbers in the first view.
pub open spec fn plain_accessor(count: nat, offset: nat) -> Accessor {
    Accessor {
        component_type: Some(5126),
        vec3: true,
        count: Some(count as usize),
        byte_offset: Some(offset as usize),
        buffer_view: Some(0),
    }
}

/// Positions and normals that are packed into a buffer, one list behind the other and each
/// named by an accessor, come back in pairs; so do fewer normals, and +Z for the rest.
pub proof fn packed_pairs_are_read_back(
    positions: Seq<Triple>,
    normals: Seq<Triple>,
    after: Seq<u8>,
)
    requires
        12 * positions.len() <= usize::MAX,
        12 * normals.len() <= usize::MAX,
        forall|i: int| 0 <= i < positions.len() ==> (#[trigger] positions[i]).all_finite(),
        forall|i: int| 0 <= i < normals.len() ==> (#[trigger] normals[i]).all_finite(),
    ensures
        ({
            let model = GltfModel {
                accessors: seq![
                    plain_accessor(positions.len(), 0),
                    plain_accessor(normals.len(), 12 * positions.len()),
                ],
                views: seq![BufferView { byte_offset: None, byte_stride: None }],
                primitives: seq![Attributes { position: Some(0), normal: Some(1) }],
            };
            let points = gltf_cloud(model, packed(positions) + packed(normals) + after);
            &&& points.len() == positions.len()
            &&& forall|i: int|
                0 <= i < points.len() ==> (#[trigger] points[i]).pos == positions[i]
                    && points[i].normal == (if i < normals.len() {
                    normals[i]
                } else {
                    Triple { x: 0, y: 0, z: 0x3f80_0000 }
                })
        }),
{
    let none = Seq::<u8>::empty();
    let p = packed(positions);
    let n = packed(normals);
    let bin = p + n + after;
    let attrs = Attributes { position: Some(0), normal: Some(1) };
    let model = GltfModel {
        accessors: seq![
            plain_accessor(positions.len(), 0),
            plain_accessor(normals.len(), 12 * positions.len()),
        ],
        views: seq![BufferView { byte_offset: None, byte_stride: None }],
        primitives: seq![attrs],
    };
    lemma_packed_len(positions);
    lemma_packed_len(normals);
    packed_vertices_are_read_back(none, positions, n + after);
    assert(none + p + (n + after) =~= bin);
    packed_vertices_are_read_back(p, normals, after);
    let ps = positions.map_values(|v: Triple| settled(v));
    let ns = normals.map_values(|v: Triple| settled(v));
    assert(ps =~= positions) by {
        assert forall|i: int| 0 <= i < positions.len() implies ps[i] == positions[i] by {
            assert(positions[i].all_finite());
        }
    }
    assert(ns =~= normals) by {
        assert forall|i: int| 0 <= i < normals.len() implies ns[i] == normals[i] by {
            assert(normals[i].all_finite());
        }
    }
    assert(vec3_of(model.accessors, model.views, bin, 0) == Some(ps));
    assert(vec3_of(model.accessors, model.views, bin, 1) == Some(ns));
    reveal_with_fuel(primitives_cloud, 2);
    assert(gltf_cloud(model, bin) =~= primitive_cloud(model, bin, attrs));
    positions_go_with_their_own_normals(model, bin, attrs);
}

/// The points of the first primitives depend on nothing behind them.
proof fn lemma_leading_primitives(model: GltfModel, more: Seq<Attributes>, bin: Seq<u8>, n: nat)
    requires
        n <= model.primitives.len(),
    ensures
        primitives_cloud(GltfModel { primitives: model.primitives + more, ..model }, bin, n)
            == primitives_cloud(model, bin, n),
    decreases n,
{
    if n > 0 {
        lemma_leading_primitives(model, more, bin, (n - 1) as nat);
        assert((model.primitives + more)[n - 1] == model.primitives[n - 1]);
    }
}

/// The points of a document are those of its primitives, one after the other: none without
/// primitives, and those of each further one behind those of the ones before it.
pub proof fn primitives_follow_one_another(model: GltfModel, bin: Seq<u8>, attrs: Attributes)
    ensures
        model.primitives.len() == 0 ==> gltf_cloud(model, bin).len() == 0,
        gltf_cloud(GltfModel { primitives: model.primitives.push(attrs), ..model }, bin)
            == gltf_cloud(model, bin) + primitive_cloud(model, bin, attrs),
{
    let n = model.primitives.len();
    let longer = GltfModel { primitives: model.primitives.push(attrs), ..model };
    lemma_leading_primitives(model, seq![attrs], bin, n);
    assert(model.primitives + seq![attrs] =~= model.primitives.push(attrs));
    assert(longer.primitives[n as int] == attrs);
    assert(primitive_cloud(longer, bin, attrs) =~= primitive_cloud(model, bin, attrs));
}

/// What is read of an accessor is what its object holds under the names of the format.
pub proof fn accessor_members_are_read(tree: JsonTree)
    ensures
        ({
            let acc = accessor_of(tree);
            &&& forall|c: u64|
                acc.component_type == Some(c) <==> #[trigger] holds(
                    tree,
                    "componentType"@,
                    JsonTree::Unsigned(c),
                )
            &&& acc.vec3 <==> holds(tree, "type"@, JsonTree::Text("VEC3"@))
            &&& forall|n: usize|
                n <= u64::MAX ==> (acc.count == Some(n) <==> #[trigger] holds(
                    tree,
                    "count"@,
                    JsonTree::Unsigned(n as u64),
                ))
            &&& forall|n: usize|
                n <= u64::MAX ==> (acc.byte_offset == Some(n) <==> #[trigger] holds(
                    tree,
                    "byteOffset"@,
                    JsonTree::Unsigned(n as u64),
                ))
            &&& forall|n: usize|
                n <= u64::MAX ==> (acc.buffer_view == Some(n) <==> #[trigger] holds(
                    tree,
                    "bufferView"@,
                    JsonTree::Unsigned(n as u64),
                ))
        }),
{
    members_are_what_an_object_holds(tree, "componentType"@);
    members_are_what_an_object_holds(tree, "type"@);
    members_are_what_an_object_holds(tree, "count"@);
    members_are_what_an_object_holds(tree, "byteOffset"@);
    members_are_what_an_object_holds(tree, "bufferView"@);
}

/// What is read of a view and of a primitive is what their objects hold under the names of
/// the format. A primitive must have attributes.
pub proof fn view_and_primitive_members_are_read(tree: JsonTree)
    ensures
        forall|n: usize|
            n <= u64::MAX ==> (view_of(tree).byte_offset == Some(n) <==> #[trigger] holds(
                tree,
                "byteOffset"@,
                JsonTree::Unsigned(n as u64),
            )),
        forall|n: usize|
            n <= u64::MAX ==> (view_of(tree).byte_stride == Some(n) <==> #[trigger] holds(
                tree,
                "byteStride"@,
                JsonTree::Unsigned(n as u64),
            )),
        forall|attrs: JsonTree| #[trigger]
            holds(tree, "attributes"@, attrs) ==> (attributes_of(tree) matches Some(a) && forall|
                n: usize,
            |
                n <= u64::MAX ==> (a.position == Some(n) <==> #[trigger] holds(
                    attrs,
                    "POSITION"@,
                    JsonTree::Unsigned(n as u64),
                )) && (a.normal == Some(n) <==> holds(
                    attrs,
                    "NORMAL"@,
                    JsonTree::Unsigned(n as u64),
                ))),
        attributes_of(tree) is Some ==> exists|attrs: JsonTree| #[trigger]
            holds(tree, "attributes"@, attrs),
{
    members_are_what_an_object_holds(tree, "byteOffset"@);
    members_are_what_an_object_holds(tree, "byteStride"@);
    members_are_what_an_object_holds(tree, "attributes"@);
    if let Some(attrs) = member(tree, "attributes"@) {
        assert(holds(tree, "attributes"@, attrs));
        members_are_what_an_object_holds(attrs, "POSITION"@);
        members_are_what_an_object_holds(attrs, "NORMAL"@);
    }
}

/// The first primitives of a mesh are read one for one, where all of them can be.
proof fn lemma_leading_attributes(primitives: Seq<JsonTree>, n: nat)
    requires
        n <= primitives.len(),
    ensures
        match leading_attributes(primitives, n) {
            Some(s) => s.len() == n && forall|i: int|
                0 <= i < n ==> attributes_of(primitives[i]) == Some(#[trigger] s[i]),
            None => exists|i: int|
                0 <= i < n && attributes_of(#[trigger] primitives[i]) is None,
        },
    decreases n,
{
    if n > 0 {
        lemma_leading_attributes(primitives, (n - 1) as nat);
        assert(attributes_of(primitives[n - 1]) is None ==> exists|i: int|
            0 <= i < n && attributes_of(#[trigger] primitives[i]) is None);
    }
}

/// A mesh is read primitive by primitive, in the order of its list: all of them, or the mesh
/// is not read, which is so too where it has no list of them.
pub proof fn mesh_primitives_are_read_in_order(mesh: JsonTree, primitives: Seq<JsonTree>)
    ensures
        holds(mesh, "primitives"@, JsonTree::Array(primitives)) ==> match mesh_attributes(mesh) {
            Some(s) => s.len() == primitives.len() && forall|i: int|
                0 <= i < primitives.len() ==> attributes_of(primitives[i]) == Some(#[trigger] s[i]),
            None => exists|i: int|
                0 <= i < primitives.len() && attributes_of(#[trigger] primitives[i]) is None,
        },
        mesh_attributes(mesh) is Some ==> exists|items: Seq<JsonTree>| #[trigger]
            holds(mesh, "primitives"@, JsonTree::Array(items)),
{
    members_are_what_an_object_holds(mesh, "primitives"@);
    lemma_leading_attributes(primitives, primitives.len());
    if let Some(items) = member_elements(mesh, "primitives"@) {
        assert(holds(mesh, "primitives"@, JsonTree::Array(items)));
    }
}

/// The primitives of the first meshes depend on nothing behind them.
proof fn lemma_leading_meshes(meshes: Seq<JsonTree>, more: Seq<JsonTree>, n: nat)
    requires
        n <= meshes.len(),
    ensures
        meshes_attributes(meshes + more, n) == meshes_attributes(meshes, n),
    decreases n,
{
    if n > 0 {
        lemma_leading_meshes(meshes, more, (n - 1) as nat);
        assert((meshes + more)[n - 1] == meshes[n - 1]);
    }
}

/// The primitives of a list of meshes are those of each of them, one mesh after the other;
/// one mesh that cannot be read spoils the list.
pub proof fn meshes_follow_one_another(meshes: Seq<JsonTree>, mesh: JsonTree)
    ensures
        meshes_attributes(Seq::empty(), 0) == Some(Seq::<Attributes>::empty()),
        meshes_attributes(meshes.push(mesh), meshes.len() + 1) == (match (
            meshes_attributes(meshes, meshes.len()),
            mesh_attributes(mesh),
        ) {
            (Some(before), Some(own)) => Some(before + own),
            _ => None,
        }),
{
    lemma_leading_meshes(meshes, seq![mesh], meshes.len());
    assert(meshes + seq![mesh] =~= meshes.push(mesh));
    assert(meshes.push(mesh)[meshes.len() as int] == mesh);
}

/// A document is read from its three lists: its accessors and its views one for one, and the
/// primitives of its meshes. It is not read where one of the lists is missing.
pub proof fn documents_are_read_from_their_lists(
    tree: JsonTree,
    accessors: Seq<JsonTree>,
    views: Seq<JsonTree>,
    meshes: Seq<JsonTree>,
)
    ensures
        holds(tree, "accessors"@, JsonTree::Array(accessors)) && holds(
            tree,
            "bufferViews"@,
            JsonTree::Array(views),
        ) && holds(tree, "meshes"@, JsonTree::Array(meshes)) ==> match gltf_of(tree) {
            Some(model) => {
                &&& model.accessors.len() == accessors.len()
                &&& forall|i: int|
                    0 <= i < accessors.len() ==> #[trigger] model.accessors[i] == accessor_of(
                        accessors[i],
                    )
                &&& model.views.len() == views.len()
                &&& forall|i: int|
                    0 <= i < views.len() ==> #[trigger] model.views[i] == view_of(views[i])
                &&& meshes_attributes(meshes, meshes.len()) == Some(model.primitives)
            },
            None => meshes_attributes(meshes, meshes.len()) is None,
        },
        gltf_of(tree) is Some ==> (exists|a: Seq<JsonTree>| #[trigger]
            holds(tree, "accessors"@, JsonTree::Array(a))) && (exists|v: Seq<JsonTree>| #[trigger]
            holds(tree, "bufferViews"@, JsonTree::Array(v))) && (exists|m: Seq<JsonTree>| #[trigger]
            holds(tree, "meshes"@, JsonTree::Array(m))),
{
    members_are_what_an_object_holds(tree, "accessors"@);
    members_are_what_an_object_holds(tree, "bufferViews"@);
    members_are_what_an_object_holds(tree, "meshes"@);
    if gltf_of(tree) is Some {
        let a = member_elements(tree, "accessors"@).unwrap();
        let v = member_elements(tree, "bufferViews"@).unwrap();
        let m = member_elements(tree, "meshes"@).unwrap();
        assert(holds(tree, "accessors"@, JsonTree::Array(a)));
        assert(holds(tree, "bufferViews"@, JsonTree::Array(v)));
        assert(holds(tree, "meshes"@, JsonTree::Array(m)));
    }
}

/// The chunks of a binary glTF are found just where its bytes start with the magic word and
/// the version, a JSON chunk of the length that its header gives follows, and a binary chunk
/// behind that.
pub proof fn chunks_are_found_by_their_headers(bytes: Seq<u8>)
    ensures
        json_end(bytes) is Some <==> {
            &&& bytes.len() >= 28
            &&& bytes[0] == 0x67 && bytes[1] == 0x6c && bytes[2] == 0x54 && bytes[3] == 0x46
            &&& word_at(bytes, 4) == Some(2u32)
            &&& word_at(bytes, 16) == Some(0x4e4f_534au32)
            &&& 28 + word_at(bytes, 12).unwrap() <= bytes.len()
            &&& word_at(bytes, 24 + word_at(bytes, 12).unwrap()) == Some(0x004e_4942u32)
        },
        json_end(bytes) matches Some(end) ==> {
            &&& end == 20 + word_at(bytes, 12).unwrap()
            &&& json_chunk(bytes, end).len() == word_at(bytes, 12).unwrap()
            &&& forall|i: int|
                0 <= i < json_chunk(bytes, end).len() ==> #[trigger] json_chunk(bytes, end)[i]
                    == bytes[20 + i]
            &&& bin_chunk(bytes, end).len() == bytes.len() - end - 8
            &&& forall|i: int|
                0 <= i < bin_chunk(bytes, end).len() ==> #[trigger] bin_chunk(bytes, end)[i]
                    == bytes[end + 8 + i]
        },
{
    let magic = seq![0x67u8, 0x6c, 0x54, 0x46];
    if bytes.len() >= 20 {
        let head = bytes.subrange(0, 4);
        assert(head[0] == bytes[0] && head[1] == bytes[1] && head[2] == bytes[2] && head[3]
            == bytes[3]);
        assert(magic[0] == 0x67 && magic[1] == 0x6c && magic[2] == 0x54 && magic[3] == 0x46);
        if bytes[0] == 0x67 && bytes[1] == 0x6c && bytes[2] == 0x54 && bytes[3] == 0x46 {
            assert(head =~= magic);
        }
    }
}

/// A binary glTF has a cloud just where its chunks are found, the first holds a document
/// that can be read, and the primitives of that have points in the second; those are its
/// cloud.
pub proof fn cloud_comes_from_the_chunks(bytes: Seq<u8>, tree: JsonTree, model: GltfModel)
    ensures
        glb_cloud(bytes) is Some ==> {
            &&& json_end(bytes) is Some
            &&& json_document(bytes.subrange(20, json_end(bytes).unwrap())) is Some
            &&& gltf_of(json_document(bytes.subrange(20, json_end(bytes).unwrap())).unwrap()) is Some
        },
        json_end(bytes) matches Some(end) ==> json_document(bytes.subrange(20, end)) == Some(tree)
            && gltf_of(tree) == Some(model) ==> {
            let points = gltf_cloud(model, bytes.subrange(end + 8, bytes.len() as int));
            &&& points.len() > 0 ==> glb_cloud(bytes) == Some(points)
            &&& points.len() == 0 ==> glb_cloud(bytes) is None
        },
{
}

/// Directing the normals of a binary glTF keeps its points at their places, and leaves one
/// that has none without.
pub proof fn directed_cloud_keeps_its_places<G: Fn(Triple) -> Triple>(
    direction: G,
    bytes: Seq<u8>,
    cloud: Option<Seq<Point>>,
)
    requires
        is_glb_cloud(direction, bytes, cloud),
    ensures
        cloud is Some <==> glb_cloud(bytes) is Some,
        cloud matches Some(points) ==> {
            let vertices = glb_cloud(bytes).unwrap();
            &&& points.len() == vertices.len()
            &&& forall|i: int|
                0 <= i < points.len() ==> (#[trigger] points[i]).pos == vertices[i].pos
                    && call_ensures(direction, (vertices[i].normal,), points[i].normal)
        },
{
}

} // verus!
