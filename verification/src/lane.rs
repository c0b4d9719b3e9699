//! The lane that draws a cloud as a list of points.
//!
//! What the graphics device makes is known here by number only: the device's own handles
//! are kept by whoever talks to it.
use vstd::prelude::*;

use crate::bytes::le_bytes;
use crate::cloud::{components, interleaved};
use crate::point::Point;
use crate::scalar::{Triple, ONE, ZERO};

verus! {

/// How many numbers a point has.
pub const POINT_WORDS: usize = 6;

/// How many bytes the uniform block takes.
pub const GLOBALS_SIZE: u64 = 144;

/// The bytes of some words, each of them spelled from its least significant byte on.
pub open spec fn spelled_up(words: Seq<u32>) -> Seq<u8> {
    Seq::new(4 * words.len(), |i: int| le_bytes(words[i / 4])[i % 4])
}

/// The bytes of some words, each of them spelled from its most significant byte on.
pub open spec fn spelled_down(words: Seq<u32>) -> Seq<u8> {
    Seq::new(4 * words.len(), |i: int| le_bytes(words[i / 4])[3 - i % 4])
}

/// Whether these are the bytes of some words, in the byte order of some machine.
pub open spec fn spells(bytes: Seq<u8>, words: Seq<u32>) -> bool {
    bytes == spelled_up(words) || bytes == spelled_down(words)
}

/// Calls `bytemuck::cast_slice` from `u32` to `u8`: the bytes that the words take in memory.
/// Their order is that of the machine, and the same for all words. It never fails, as a
/// byte can stand anywhere and words leave no bytes over.
#[verifier::external_body]
fn cast_words(words: &[u32]) -> (r: &[u8])
    ensures
        spells(r@, words@),
{
    bytemuck::cast_slice(words)
}

/// The constants of the material, four numbers to a row.
#[derive(Clone, Copy, Debug)]
pub struct Material {
    /// Openness of the mouth, emission, back-face cull, height of the mouth.
    pub p: [u32; 4],
    /// Half-height of the mouth, its amplitude, jitter, half-width of the mouth.
    pub q: [u32; 4],
    /// Height of the eyes, their distance from the middle, outer and inner ring.
    pub r: [u32; 4],
    /// Depth of the eyes, flow, dissolution, life.
    pub s: [u32; 4],
}

/// The numbers of a material.
pub open spec fn material_words(m: Material) -> Seq<u32> {
    m.p@ + m.q@ + m.r@ + m.s@
}

/// The numbers of the material of an avatar with its eyes at this place: the mouth is
/// closed, and everything but the eyes is fixed.
pub open spec fn avatar_material(eye: Triple) -> Seq<u32> {
    seq![
        ZERO,
        0x4026_6666,
        0x3d4c_cccd,
        0x3fc1_a9fc,
        0x3c23_d70a,
        0x3c03_126f,
        0x3bc4_9ba6,
        0x3cf5_c28f,
        eye.y,
        eye.x,
        0x3c93_74bc,
        0x3c03_126f,
        eye.z,
        0x3c23_d70a,
        0x3e19_999a,
        ONE,
    ]
}

impl Material {
    /// The material of an avatar: emission `2.6`, cull `0.05`, mouth at `0.89` of the height
    /// and `0.010` by `0.03` large, with an amplitude of `0.008` and a jitter of `0.006`;
    /// rings of `0.018` and `0.008` round the eyes; flow `0.010`, dissolution `0.15`, life `1`.
    pub fn avatar(eye: Triple) -> (m: Material)
        ensures
            material_words(m) == avatar_material(eye),
    {
        Material {
            p: [ZERO, 0x4026_6666, 0x3d4c_cccd, 0x3fc1_a9fc],
            q: [0x3c23_d70a, 0x3c03_126f, 0x3bc4_9ba6, 0x3cf5_c28f],
            r: [eye.y, eye.x, 0x3c93_74bc, 0x3c03_126f],
            s: [eye.z, 0x3c23_d70a, 0x3e19_999a, ONE],
        }
    }
}

/// The uniform block of a frame.
#[derive(Clone, Copy, Debug)]
pub struct Globals {
    /// View and projection, column by column.
    pub view_proj: [[u32; 4]; 4],
    /// Place of the camera, and the time in seconds.
    pub cam_time: [u32; 4],
    pub p: [u32; 4],
    pub q: [u32; 4],
    pub r: [u32; 4],
    pub s: [u32; 4],
}

impl Globals {
    /// The numbers of the block, in the order in which the shader reads them.
    pub open spec fn words(self) -> Seq<u32> {
        self.view_proj@[0]@ + self.view_proj@[1]@ + self.view_proj@[2]@ + self.view_proj@[3]@
            + self.cam_time@ + self.p@ + self.q@ + self.r@ + self.s@
    }

    /// Puts a block together from the camera and a material.
    pub fn new(view_proj: [[u32; 4]; 4], cam_time: [u32; 4], material: Material) -> (g: Globals)
        ensures
            g.view_proj == view_proj,
            g.cam_time == cam_time,
            g.p == material.p,
            g.q == material.q,
            g.r == material.r,
            g.s == material.s,
    {
        Globals {
            view_proj,
            cam_time,
            p: material.p,
            q: material.q,
            r: material.r,
            s: material.s,
        }
    }

    /// The bytes of the block, as they are written to the uniform buffer.
    pub fn to_bytes(&self) -> (r: Vec<u8>)
        ensures
            spells(r@, self.words()),
            r@.len() == GLOBALS_SIZE,
    {
        let mut words: Vec<u32> = Vec::new();
        push_row(&mut words, &self.view_proj[0]);
        push_row(&mut words, &self.view_proj[1]);
        push_row(&mut words, &self.view_proj[2]);
        push_row(&mut words, &self.view_proj[3]);
        push_row(&mut words, &self.cam_time);
        push_row(&mut words, &self.p);
        push_row(&mut words, &self.q);
        push_row(&mut words, &self.r);
        push_row(&mut words, &self.s);
        assert(words@ == self.words());
        vstd::slice::slice_to_vec(cast_words(words.as_slice()))
    }
}

/// Appends four numbers.
fn push_row(words: &mut Vec<u32>, row: &[u32; 4])
    ensures
        final(words)@ == old(words)@ + row@,
{
    words.push(row[0]);
    words.push(row[1]);
    words.push(row[2]);
    words.push(row[3]);
}

/// Where the vertex stage finds a point's position and normal, in bytes.
#[derive(Clone, Copy, Debug, PartialEq, Eq, Structural)]
pub struct VertexLayout {
    pub stride: u64,
    pub position_offset: u64,
    pub position_location: u32,
    pub normal_offset: u64,
    pub normal_location: u32,
}

/// The layout of a laid out cloud.
#[verifier::allow_in_spec]
pub fn vertex_layout() -> (r: VertexLayout)
    returns
        (VertexLayout {
            stride: 24,
            position_offset: 0,
            position_location: 0,
            normal_offset: 12,
            normal_location: 1,
        }),
{
    VertexLayout {
        stride: 24,
        position_offset: 0,
        position_location: 0,
        normal_offset: 12,
        normal_location: 1,
    }
}

/// The layout addresses, in a laid out cloud, the position and the normal of each point.
pub proof fn layout_addresses_the_points(points: Seq<Point>, i: int)
    requires
        0 <= i < points.len(),
    ensures
        ({
            let words = interleaved(points);
            let at = i * vertex_layout().stride;
            let pos = (at + vertex_layout().position_offset) / 4;
            let normal = (at + vertex_layout().normal_offset) / 4;
            &&& words[pos] == points[i].pos.x
            &&& words[pos + 1] == points[i].pos.y
            &&& words[pos + 2] == points[i].pos.z
            &&& words[normal] == points[i].normal.x
            &&& words[normal + 1] == points[i].normal.y
            &&& words[normal + 2] == points[i].normal.z
        }),
{
    let c = components(points[i]);
    assert forall|k: int| 0 <= k < 6 implies interleaved(points)[6 * i + k] == #[trigger] c[k] by {
        assert((6 * i + k) / 6 == i && (6 * i + k) % 6 == k);
    }
    assert(c[0] == points[i].pos.x && c[1] == points[i].pos.y && c[2] == points[i].pos.z && c[3]
        == points[i].normal.x && c[4] == points[i].normal.y && c[5] == points[i].normal.z);
}

/// The colour that a frame starts with, nearly black.
#[verifier::allow_in_spec]
pub fn clear_color() -> (r: (u32, u32, u32, u32))
    returns
        (0x3c23_d70au32, 0x3c23_d70au32, 0x3ca3_d70au32, ONE),
{
    (0x3c23_d70a, 0x3c23_d70a, 0x3ca3_d70a, ONE)
}

/// What the device has made for the lane, each by its number, and whether the vertices were
/// written. What is set once stays.
#[derive(Clone, Copy, Debug, PartialEq, Eq, Structural)]
pub struct Slots {
    pub bind_layout: Option<usize>,
    pub shader: Option<usize>,
    pub pipeline_layout: Option<usize>,
    pub pipeline: Option<usize>,
    pub ubuf: Option<usize>,
    pub bind_group: Option<usize>,
    pub vbuf: Option<usize>,
    pub uploaded: bool,
}

/// Slots with nothing in them.
#[verifier::allow_in_spec]
pub fn blank_slots() -> (r: Slots)
    returns
        (Slots {
            bind_layout: None,
            shader: None,
            pipeline_layout: None,
            pipeline: None,
            ubuf: None,
            bind_group: None,
            vbuf: None,
            uploaded: false,
        }),
{
    Slots {
        bind_layout: None,
        shader: None,
        pipeline_layout: None,
        pipeline: None,
        ubuf: None,
        bind_group: None,
        vbuf: None,
        uploaded: false,
    }
}

impl Slots {
    /// Whether all that a draw needs is there.
    pub open spec fn ready(self) -> bool {
        self.pipeline is Some && self.bind_group is Some && self.ubuf is Some && self.vbuf is Some
            && self.uploaded
    }

    /// Whether nothing that was set has changed.
    pub open spec fn kept_in(self, later: Slots) -> bool {
        &&& self.bind_layout is Some ==> later.bind_layout == self.bind_layout
        &&& self.shader is Some ==> later.shader == self.shader
        &&& self.pipeline_layout is Some ==> later.pipeline_layout == self.pipeline_layout
        &&& self.pipeline is Some ==> later.pipeline == self.pipeline
        &&& self.ubuf is Some ==> later.ubuf == self.ubuf
        &&& self.bind_group is Some ==> later.bind_group == self.bind_group
        &&& self.vbuf is Some ==> later.vbuf == self.vbuf
        &&& self.uploaded ==> later.uploaded
    }
}

/// What the device is asked for while the lane is set up. Numbers are those of what it made
/// before and the lane has kept.
#[derive(Clone, Copy, Debug, PartialEq, Eq, Structural)]
pub enum Step {
    /// A layout with one uniform buffer of [`GLOBALS_SIZE`] bytes.
    BindLayout,
    /// The shader module.
    Shader,
    /// The layout of the pipeline.
    PipelineLayout { bind_layout: usize },
    /// The pipeline, with [`vertex_layout`].
    Pipeline { shader: usize, layout: usize },
    /// The uniform buffer, of [`GLOBALS_SIZE`] bytes.
    UniformBuffer,
    /// The bind group of the uniform buffer.
    BindGroup { bind_layout: usize, ubuf: usize },
    /// The vertex buffer, as large as the vertices.
    VertexBuffer,
    /// Writing the vertices to their buffer.
    Upload { vbuf: usize },
    /// Nothing: the lane is set up.
    Done,
}

/// What a device can refuse while the lane is set up.
#[derive(Clone, Copy, Debug, PartialEq, Eq, Structural)]
pub enum InitError {
    BindLayout,
    Shader,
    PipelineLayout,
    Pipeline,
    UniformBuffer,
    BindGroup,
    VertexBuffer,
    Upload,
}

/// The name of the refused call.
pub open spec fn refused(e: InitError) -> Seq<char> {
    match e {
        InitError::BindLayout => "create_bind_group_layout"@,
        InitError::Shader => "create_shader_module"@,
        InitError::PipelineLayout => "create_pipeline_layout"@,
        InitError::Pipeline => "create_render_pipeline"@,
        InitError::UniformBuffer => "create_buffer(ubo)"@,
        InitError::BindGroup => "create_bind_group"@,
        InitError::VertexBuffer => "create_buffer(vbo)"@,
        InitError::Upload => "write_buffer(vbo)"@,
    }
}

impl InitError {
    /// The name of the call that the device refused.
    pub fn what(&self) -> (r: &'static str)
        ensures
            r@ == refused(*self),
    {
        match self {
            InitError::BindLayout => "create_bind_group_layout",
            InitError::Shader => "create_shader_module",
            InitError::PipelineLayout => "create_pipeline_layout",
            InitError::Pipeline => "create_render_pipeline",
            InitError::UniformBuffer => "create_buffer(ubo)",
            InitError::BindGroup => "create_bind_group",
            InitError::VertexBuffer => "create_buffer(vbo)",
            InitError::Upload => "write_buffer(vbo)",
        }
    }
}

/// The first thing that is not there yet, in the order in which one needs the other.
pub open spec fn needed(slots: Slots) -> Step {
    match slots.bind_layout {
        None => Step::BindLayout,
        Some(bind_layout) => match slots.shader {
            None => Step::Shader,
            Some(shader) => match slots.pipeline_layout {
                None => Step::PipelineLayout { bind_layout },
                Some(layout) => if slots.pipeline is None {
                    Step::Pipeline { shader, layout }
                } else {
                    match slots.ubuf {
                        None => Step::UniformBuffer,
                        Some(ubuf) => if slots.bind_group is None {
                            Step::BindGroup { bind_layout, ubuf }
                        } else {
                            match slots.vbuf {
                                None => Step::VertexBuffer,
                                Some(vbuf) => if !slots.uploaded {
                                    Step::Upload { vbuf }
                                } else {
                                    Step::Done
                                },
                            }
                        },
                    }
                },
            },
        },
    }
}

/// The error of a step that the device refused, if it can be refused.
pub open spec fn refusal(step: Step) -> Option<InitError> {
    match step {
        Step::BindLayout => Some(InitError::BindLayout),
        Step::Shader => Some(InitError::Shader),
        Step::PipelineLayout { .. } => Some(InitError::PipelineLayout),
        Step::Pipeline { .. } => Some(InitError::Pipeline),
        Step::UniformBuffer => Some(InitError::UniformBuffer),
        Step::BindGroup { .. } => Some(InitError::BindGroup),
        Step::VertexBuffer => Some(InitError::VertexBuffer),
        Step::Upload { .. } => Some(InitError::Upload),
        Step::Done => None,
    }
}

/// What the lane has after the device was asked for what it needs and made this; nothing
/// new where it refused.
pub open spec fn slots_after(slots: Slots, made: Option<usize>) -> Slots {
    if made is None {
        slots
    } else {
        match needed(slots) {
            Step::BindLayout => Slots { bind_layout: made, ..slots },
            Step::Shader => Slots { shader: made, ..slots },
            Step::PipelineLayout { .. } => Slots { pipeline_layout: made, ..slots },
            Step::Pipeline { .. } => Slots { pipeline: made, ..slots },
            Step::UniformBuffer => Slots { ubuf: made, ..slots },
            Step::BindGroup { .. } => Slots { bind_group: made, ..slots },
            Step::VertexBuffer => Slots { vbuf: made, ..slots },
            Step::Upload { .. } => Slots { uploaded: true, ..slots },
            Step::Done => slots,
        }
    }
}

/// What the lane gives back after the device was asked for what it needs: what it needs
/// next, or the error where the device refused.
pub open spec fn answer(slots: Slots, made: Option<usize>) -> Result<Step, InitError> {
    match refusal(needed(slots)) {
        Some(e) if made is None => Err(e),
        _ => Ok(needed(slots_after(slots, made))),
    }
}

/// What a frame offers to a draw.
#[derive(Clone, Copy, Debug, PartialEq, Eq, Structural)]
pub struct Offered {
    pub globals: bool,
    pub device: bool,
    pub color_target: bool,
    pub encoder: bool,
}

/// What a draw can lack.
#[derive(Clone, Copy, Debug, PartialEq, Eq, Structural)]
pub enum Missing {
    Globals,
    Device,
    ColorTarget,
    Encoder,
    Handles,
    UniformWrite,
}

/// The name of what is missing.
pub open spec fn missing_name(m: Missing) -> Seq<char> {
    match m {
        Missing::Globals => "Globals"@,
        Missing::Device => "Arc<dyn GraphicsDevice>"@,
        Missing::ColorTarget => "ColorTarget"@,
        Missing::Encoder => "Slot<dyn CommandEncoder>"@,
        Missing::Handles => "PointCloudLane GPU handles"@,
        Missing::UniformWrite => "write_buffer(ubo)"@,
    }
}

impl Missing {
    /// The name of what is missing.
    pub fn name(&self) -> (r: &'static str)
        ensures
            r@ == missing_name(*self),
    {
        match self {
            Missing::Globals => "Globals",
            Missing::Device => "Arc<dyn GraphicsDevice>",
            Missing::ColorTarget => "ColorTarget",
            Missing::Encoder => "Slot<dyn CommandEncoder>",
            Missing::Handles => "PointCloudLane GPU handles",
            Missing::UniformWrite => "write_buffer(ubo)",
        }
    }
}

/// A draw: what it is made with, and how many vertices of how many instances.
#[derive(Clone, Copy, Debug, PartialEq, Eq, Structural)]
pub struct Draw {
    pub pipeline: usize,
    pub bind_group: usize,
    pub ubuf: usize,
    pub vbuf: usize,
    pub vertices: u32,
    pub instances: u32,
}

/// The draw of a lane, where it is ready.
pub open spec fn draw_of(slots: Slots, points: u32) -> Option<Draw> {
    if slots.ready() {
        Some(
            Draw {
                pipeline: slots.pipeline.unwrap(),
                bind_group: slots.bind_group.unwrap(),
                ubuf: slots.ubuf.unwrap(),
                vbuf: slots.vbuf.unwrap(),
                vertices: points,
                instances: 1,
            },
        )
    } else {
        None
    }
}

/// What is planned for a frame: the draw of the lane, or the first thing that it lacks, in
/// the order in which it is looked for.
pub open spec fn planned(ready: Option<Draw>, offered: Offered) -> Result<Draw, Missing> {
    if !offered.globals {
        Err(Missing::Globals)
    } else if !offered.device {
        Err(Missing::Device)
    } else if !offered.color_target {
        Err(Missing::ColorTarget)
    } else if !offered.encoder {
        Err(Missing::Encoder)
    } else {
        match ready {
            Some(draw) => Ok(draw),
            None => Err(Missing::Handles),
        }
    }
}

/// Plans a frame with the draw of a lane, where it is ready. As what is made once stays, the
/// draw that a lane gave once is its draw from there on.
pub fn plan_draw(ready: Option<Draw>, offered: Offered) -> (r: Result<Draw, Missing>)
    ensures
        r == planned(ready, offered),
{
    if !offered.globals {
        return Err(Missing::Globals);
    }
    if !offered.device {
        return Err(Missing::Device);
    }
    if !offered.color_target {
        return Err(Missing::ColorTarget);
    }
    if !offered.encoder {
        return Err(Missing::Encoder);
    }
    match ready {
        Some(draw) => Ok(draw),
        None => Err(Missing::Handles),
    }
}

/// How many whole points a list of numbers holds, where so many can be drawn at once; none
/// otherwise.
pub open spec fn drawable(words: nat) -> u32 {
    if words / 6 <= u32::MAX {
        (words / 6) as u32
    } else {
        0
    }
}

/// The count of draws after one, which counts only where its uniform block was written.
pub open spec fn calls_after(calls: u32, written: bool) -> u32 {
    if !written {
        calls
    } else if calls == u32::MAX {
        0
    } else {
        (calls + 1) as u32
    }
}

/// What the end of a draw gives: whether it is reported, or what it lacks.
pub open spec fn ending(calls: u32, written: bool) -> Result<bool, Missing> {
    if written {
        Ok(calls < 3)
    } else {
        Err(Missing::UniformWrite)
    }
}

/// A lane that draws the points of a cloud.
#[derive(Debug)]
pub struct PointCloudLane {
    verts: Vec<u32>,
    n_points: u32,
    slots: Slots,
    calls: u32,
}

impl PointCloudLane {
    /// The laid out cloud.
    pub closed spec fn spec_verts(self) -> Seq<u32> {
        self.verts@
    }

    /// How many points are drawn.
    pub closed spec fn spec_points(self) -> u32 {
        self.n_points
    }

    /// What the device has made so far.
    pub closed spec fn spec_slots(self) -> Slots {
        self.slots
    }

    /// How many draws were counted, before the count starts over.
    pub closed spec fn spec_calls(self) -> u32 {
        self.calls
    }

    /// The points that are drawn are those of the cloud.
    #[verifier::type_invariant]
    pub closed spec fn well_formed(self) -> bool {
        self.n_points == drawable(self.verts@.len())
    }

    /// Builds the lane of a laid out cloud.
    pub fn new(verts: Vec<u32>) -> (r: PointCloudLane)
        ensures
            r.spec_verts() == verts@,
            r.spec_points() == drawable(verts@.len()),
            r.spec_slots() == blank_slots(),
            r.spec_calls() == 0,
    {
        let whole: usize = verts.len() / POINT_WORDS;
        let n_points: u32 = if whole as u64 <= u32::MAX as u64 {
            whole as u32
        } else {
            0
        };
        PointCloudLane {
            verts,
            n_points,
            slots: blank_slots(),
            calls: 0,
        }
    }

    /// How many points are drawn.
    pub fn n_points(&self) -> (r: u32)
        ensures
            r == self.spec_points(),
            r == drawable(self.spec_verts().len()),
    {
        proof {
            use_type_invariant(self);
        }
        self.n_points
    }

    /// The bytes of the vertices, as they are written to the vertex buffer.
    pub fn vertex_bytes(&self) -> (r: &[u8])
        ensures
            spells(r@, self.spec_verts()),
    {
        cast_words(self.verts.as_slice())
    }

    /// What the device is to be asked for next. Each run of the set-up starts here, so that
    /// it asks for nothing that an earlier one has got.
    pub fn next_step(&self) -> (r: Step)
        ensures
            r == needed(self.spec_slots()),
    {
        let slots: Slots = self.slots;
        let bind_layout: usize = match slots.bind_layout {
            Some(n) => n,
            None => return Step::BindLayout,
        };
        let shader: usize = match slots.shader {
            Some(n) => n,
            None => return Step::Shader,
        };
        let layout: usize = match slots.pipeline_layout {
            Some(n) => n,
            None => return Step::PipelineLayout { bind_layout },
        };
        if slots.pipeline.is_none() {
            return Step::Pipeline { shader, layout };
        }
        let ubuf: usize = match slots.ubuf {
            Some(n) => n,
            None => return Step::UniformBuffer,
        };
        if slots.bind_group.is_none() {
            return Step::BindGroup { bind_layout, ubuf };
        }
        let vbuf: usize = match slots.vbuf {
            Some(n) => n,
            None => return Step::VertexBuffer,
        };
        if !slots.uploaded {
            return Step::Upload { vbuf };
        }
        Step::Done
    }

    /// Takes what the device made of the next step, and gives the one after it. Where the
    /// device refused, the lane is left as it is, and a later run asks again.
    pub fn advance(&mut self, made: Option<usize>) -> (r: Result<Step, InitError>)
        ensures
            r == answer(old(self).spec_slots(), made),
            final(self).spec_slots() == slots_after(old(self).spec_slots(), made),
            final(self).spec_verts() == old(self).spec_verts(),
            final(self).spec_points() == old(self).spec_points(),
            final(self).spec_calls() == old(self).spec_calls(),
    {
        proof {
            use_type_invariant(&*self);
        }
        let step: Step = self.next_step();
        let mut slots: Slots = self.slots;
        if made.is_none() {
            return match step {
                Step::BindLayout => Err(InitError::BindLayout),
                Step::Shader => Err(InitError::Shader),
                Step::PipelineLayout { .. } => Err(InitError::PipelineLayout),
                Step::Pipeline { .. } => Err(InitError::Pipeline),
                Step::UniformBuffer => Err(InitError::UniformBuffer),
                Step::BindGroup { .. } => Err(InitError::BindGroup),
                Step::VertexBuffer => Err(InitError::VertexBuffer),
                Step::Upload { .. } => Err(InitError::Upload),
                Step::Done => Ok(Step::Done),
            };
        }
        match step {
            Step::BindLayout => slots.bind_layout = made,
            Step::Shader => slots.shader = made,
            Step::PipelineLayout { .. } => slots.pipeline_layout = made,
            Step::Pipeline { .. } => slots.pipeline = made,
            Step::UniformBuffer => slots.ubuf = made,
            Step::BindGroup { .. } => slots.bind_group = made,
            Step::VertexBuffer => slots.vbuf = made,
            Step::Upload { .. } => slots.uploaded = true,
            Step::Done => {},
        }
        self.slots = slots;
        Ok(self.next_step())
    }

    /// The draw of the lane, where it is set up.
    pub fn ready_draw(&self) -> (r: Option<Draw>)
        ensures
            r == draw_of(self.spec_slots(), self.spec_points()),
    {
        if !self.slots.uploaded {
            return None;
        }
        match (self.slots.pipeline, self.slots.bind_group, self.slots.ubuf, self.slots.vbuf) {
            (Some(pipeline), Some(bind_group), Some(ubuf), Some(vbuf)) => Some(
                Draw {
                    pipeline,
                    bind_group,
                    ubuf,
                    vbuf,
                    vertices: self.n_points,
                    instances: 1,
                },
            ),
            _ => None,
        }
    }

    /// Gives the draw of a frame, or the first thing that it lacks.
    pub fn plan(&self, offered: Offered) -> (r: Result<Draw, Missing>)
        ensures
            r == planned(draw_of(self.spec_slots(), self.spec_points()), offered),
    {
        plan_draw(self.ready_draw(), offered)
    }

    /// Ends a draw, once the device was asked to write the uniform block. Where it did not
    /// write it, there is no draw. Otherwise the draw is counted, and the answer tells
    /// whether it is one of the first three, which are reported.
    pub fn finish_draw(&mut self, written: bool) -> (r: Result<bool, Missing>)
        ensures
            r == (if written {
                Ok::<bool, Missing>(old(self).spec_calls() < 3)
            } else {
                Err::<bool, Missing>(Missing::UniformWrite)
            }),
            final(self).spec_calls() == (if !written {
                old(self).spec_calls()
            } else if old(self).spec_calls() == u32::MAX {
                0
            } else {
                (old(self).spec_calls() + 1) as u32
            }),
            final(self).spec_calls() == calls_after(old(self).spec_calls(), written),
            r == ending(old(self).spec_calls(), written),
            final(self).spec_slots() == old(self).spec_slots(),
            final(self).spec_verts() == old(self).spec_verts(),
            final(self).spec_points() == old(self).spec_points(),
    {
        proof {
            use_type_invariant(&*self);
        }
        if !written {
            return Err(Missing::UniformWrite);
        }
        let before: u32 = self.calls;
        self.calls = before.wrapping_add(1);
        Ok(before < 3)
    }
}

/// What the lane has after the device was asked `n` times, for what was needed each time. A
/// refusal ends a run of the set-up, and what was asked after it belongs to a later run.
pub open spec fn kept_after(slots: Slots, made: Seq<Option<usize>>, n: nat) -> Slots
    decreases n,
{
    if n == 0 {
        slots
    } else {
        slots_after(kept_after(slots, made, (n - 1) as nat), made[n - 1])
    }
}

/// What a new lane asks of the device after it has asked `k` times.
pub open spec fn asked(made: Seq<Option<usize>>, k: nat) -> Step {
    needed(kept_after(blank_slots(), made, k))
}

/// Whatever a device makes or refuses, in any number of runs, what was set once stays.
pub proof fn set_slots_stay(slots: Slots, made: Seq<Option<usize>>, n: nat)
    ensures
        slots.kept_in(kept_after(slots, made, n)),
    decreases n,
{
    if n > 0 {
        set_slots_stay(slots, made, (n - 1) as nat);
    }
}

/// The draw that a lane gave once is its draw from there on.
pub proof fn ready_draw_stays(slots: Slots, made: Seq<Option<usize>>, n: nat, points: u32)
    requires
        slots.ready(),
    ensures
        draw_of(kept_after(slots, made, n), points) == draw_of(slots, points),
{
    set_slots_stay(slots, made, n);
}

/// Whether a new lane, in the first `n` times that it asked, asked for this and got this.
pub open spec fn got(made: Seq<Option<usize>>, n: nat, step: Step, number: usize) -> bool {
    exists|k: nat| k < n && #[trigger] asked(made, k) == step && made[k as int] == Some(number)
}

/// What was got stays so as the lane asks on.
proof fn lemma_got_stays(made: Seq<Option<usize>>, n: nat, step: Step, number: usize)
    requires
        got(made, n, step, number),
    ensures
        got(made, n + 1, step, number),
{
    let k = choose|k: nat|
        k < n && #[trigger] asked(made, k) == step && made[k as int] == Some(number);
    assert(k < n + 1 && asked(made, k) == step);
}

/// All that a new lane holds after any number of runs was made of what it holds: the bind
/// group binds the uniform buffer that the lane has and writes to, in the layout that it
/// has, the pipeline was made of its shader and layout, and the layout of its bind layout.
pub proof fn handles_belong_together(made: Seq<Option<usize>>, n: nat)
    ensures
        ({
            let kept = kept_after(blank_slots(), made, n);
            &&& kept.pipeline_layout matches Some(layout) ==> kept.bind_layout is Some && got(
                made,
                n,
                Step::PipelineLayout { bind_layout: kept.bind_layout.unwrap() },
                layout,
            )
            &&& kept.pipeline matches Some(pipeline) ==> kept.shader is Some
                && kept.pipeline_layout is Some && got(
                made,
                n,
                Step::Pipeline {
                    shader: kept.shader.unwrap(),
                    layout: kept.pipeline_layout.unwrap(),
                },
                pipeline,
            )
            &&& kept.bind_group matches Some(group) ==> kept.bind_layout is Some && kept.ubuf is Some
                && got(
                made,
                n,
                Step::BindGroup {
                    bind_layout: kept.bind_layout.unwrap(),
                    ubuf: kept.ubuf.unwrap(),
                },
                group,
            )
        }),
    decreases n,
{
    if n > 0 {
        let m = (n - 1) as nat;
        handles_belong_together(made, m);
        let before = kept_after(blank_slots(), made, m);
        let kept = kept_after(blank_slots(), made, n);
        assert(asked(made, m) == needed(before));
        if before.pipeline_layout is Some {
            lemma_got_stays(
                made,
                m,
                Step::PipelineLayout { bind_layout: kept.bind_layout.unwrap() },
                kept.pipeline_layout.unwrap(),
            );
        }
        if before.pipeline is Some {
            lemma_got_stays(
                made,
                m,
                Step::Pipeline {
                    shader: kept.shader.unwrap(),
                    layout: kept.pipeline_layout.unwrap(),
                },
                kept.pipeline.unwrap(),
            );
        }
        if before.bind_group is Some {
            lemma_got_stays(
                made,
                m,
                Step::BindGroup {
                    bind_layout: kept.bind_layout.unwrap(),
                    ubuf: kept.ubuf.unwrap(),
                },
                kept.bind_group.unwrap(),
            );
        }
    }
}

/// Where a step stands in the set-up.
pub open spec fn place_of(step: Step) -> nat {
    match step {
        Step::BindLayout => 0,
        Step::Shader => 1,
        Step::PipelineLayout { .. } => 2,
        Step::Pipeline { .. } => 3,
        Step::UniformBuffer => 4,
        Step::BindGroup { .. } => 5,
        Step::VertexBuffer => 6,
        Step::Upload { .. } => 7,
        Step::Done => 8,
    }
}

/// Each thing is made once: after the device has made what it was asked for, it is asked
/// only for what comes later, in whatever run. What it refused, it is asked for again.
pub proof fn each_handle_is_made_once(slots: Slots, made: Seq<Option<usize>>, i: nat, j: nat)
    requires
        i < j,
    ensures
        ({
            let first = needed(kept_after(slots, made, i));
            let later = needed(kept_after(slots, made, j));
            &&& made[i as int] is Some && first != Step::Done ==> place_of(first) < place_of(later)
            &&& place_of(first) <= place_of(later)
            &&& j == i + 1 && made[i as int] is None ==> later == first
        }),
    decreases j,
{
    if i + 1 < j {
        each_handle_is_made_once(slots, made, i, (j - 1) as nat);
    }
}

/// A new lane asks for eight things. Once the device has made each of them, the lane is set
/// up and can draw, and before that it cannot.
pub proof fn set_up_lane_can_draw(made: Seq<Option<usize>>, n: nat)
    ensures
        kept_after(blank_slots(), made, n).ready() <==> asked(made, n) == Step::Done,
        n < 8 ==> asked(made, n) != Step::Done,
        n == 8 && (forall|i: int| 0 <= i < 8 ==> #[trigger] made[i] is Some) ==> asked(made, n)
            == Step::Done,
{
    lemma_filled_in_order(made, n);
    if n == 8 && (forall|i: int| 0 <= i < 8 ==> #[trigger] made[i] is Some) {
        reveal_with_fuel(kept_after, 9);
    }
}

/// A new lane gets nothing before what stands before it, and one thing at a time.
proof fn lemma_filled_in_order(made: Seq<Option<usize>>, n: nat)
    ensures
        ({
            let kept = kept_after(blank_slots(), made, n);
            &&& kept.uploaded ==> kept.vbuf is Some
            &&& kept.vbuf is Some ==> kept.bind_group is Some
            &&& kept.bind_group is Some ==> kept.ubuf is Some
            &&& kept.ubuf is Some ==> kept.pipeline is Some
            &&& kept.pipeline is Some ==> kept.pipeline_layout is Some
            &&& kept.pipeline_layout is Some ==> kept.shader is Some
            &&& kept.shader is Some ==> kept.bind_layout is Some
        }),
        place_of(asked(made, n)) <= n,
    decreases n,
{
    if n > 0 {
        lemma_filled_in_order(made, (n - 1) as nat);
    }
}

/// A lane of a laid out cloud draws all of its points, as long as they can be counted.
pub proof fn lane_draws_the_whole_cloud(points: Seq<Point>)
    requires
        points.len() <= u32::MAX,
    ensures
        drawable(interleaved(points).len()) == points.len(),
{
}

/// The vertex buffer is as long as the layout's stride, once for each point.
pub proof fn vertex_bytes_fill_the_strides(points: Seq<Point>, bytes: Seq<u8>)
    requires
        spells(bytes, interleaved(points)),
    ensures
        bytes.len() == points.len() * vertex_layout().stride,
{
}

/// Words that were spelled are found in the bytes, each in its place: where bytes rise in
/// weight, read as they stand, and where they fall, read from the last to the first.
pub proof fn spelled_words_stand_in_their_places(words: Seq<u32>, i: int)
    requires
        0 <= i < words.len(),
    ensures
        ({
            let up = spelled_up(words);
            let down = spelled_down(words);
            let w = words[i] as int;
            &&& up.len() == 4 * words.len() && down.len() == 4 * words.len()
            &&& w == up[4 * i] + 256 * (up[4 * i + 1] + 256 * (up[4 * i + 2] + 256 * up[4 * i + 3]))
            &&& w == down[4 * i + 3] + 256 * (down[4 * i + 2] + 256 * (down[4 * i + 1] + 256
                * down[4 * i]))
        }),
{
    let up = spelled_up(words);
    let down = spelled_down(words);
    let b = le_bytes(words[i]);
    assert((4 * i) / 4 == i && (4 * i) % 4 == 0);
    assert((4 * i + 1) / 4 == i && (4 * i + 1) % 4 == 1);
    assert((4 * i + 2) / 4 == i && (4 * i + 2) % 4 == 2);
    assert((4 * i + 3) / 4 == i && (4 * i + 3) % 4 == 3);
    assert(up[4 * i] == b[0] && up[4 * i + 1] == b[1] && up[4 * i + 2] == b[2] && up[4 * i + 3]
        == b[3]);
    assert(down[4 * i] == b[3] && down[4 * i + 1] == b[2] && down[4 * i + 2] == b[1] && down[4 * i
        + 3] == b[0]);
}

/// The eye stands in three numbers of an avatar's material, and the others are the same for
/// every avatar.
pub proof fn material_depends_on_the_eye_alone(a: Triple, b: Triple)
    ensures
        avatar_material(a).len() == 16,
        avatar_material(a)[8] == a.y,
        avatar_material(a)[9] == a.x,
        avatar_material(a)[12] == a.z,
        forall|k: int|
            0 <= k < 16 && k != 8 && k != 9 && k != 12 ==> #[trigger] avatar_material(a)[k]
                == avatar_material(b)[k],
{
}

/// The uniform block holds the matrix column by column, then the camera and the time, then
/// the four rows of the material.
pub proof fn uniform_block_is_laid_out(g: Globals)
    ensures
        g.words().len() == 36,
        forall|c: int, k: int|
            0 <= c < 4 && 0 <= k < 4 ==> g.words()[4 * c + k] == #[trigger] g.view_proj@[c]@[k],
        forall|k: int| 0 <= k < 4 ==> g.words()[16 + k] == #[trigger] g.cam_time@[k],
        forall|k: int| 0 <= k < 4 ==> g.words()[20 + k] == #[trigger] g.p@[k],
        forall|k: int| 0 <= k < 4 ==> g.words()[24 + k] == #[trigger] g.q@[k],
        forall|k: int| 0 <= k < 4 ==> g.words()[28 + k] == #[trigger] g.r@[k],
        forall|k: int| 0 <= k < 4 ==> g.words()[32 + k] == #[trigger] g.s@[k],
{
    assert forall|c: int, k: int| 0 <= c < 4 && 0 <= k < 4 implies g.words()[4 * c + k]
        == #[trigger] g.view_proj@[c]@[k] by {
        assert(c == 0 || c == 1 || c == 2 || c == 3);
    }
}

/// What a lane is asked for next is missing, all that comes before it is there, and what it
/// is to be made of is what the lane has. Where nothing is missing, nothing is asked for.
pub proof fn first_missing_handle_is_needed(slots: Slots)
    ensures
        ({
            let layout = slots.bind_layout is Some;
            let shader = layout && slots.shader is Some;
            let joined = shader && slots.pipeline_layout is Some;
            let pipeline = joined && slots.pipeline is Some;
            let uniforms = pipeline && slots.ubuf is Some;
            let group = uniforms && slots.bind_group is Some;
            let vertices = group && slots.vbuf is Some;
            let step = needed(slots);
            &&& step == Step::BindLayout <==> !layout
            &&& step == Step::Shader <==> layout && !shader
            &&& step is PipelineLayout <==> shader && !joined
            &&& step matches Step::PipelineLayout { bind_layout } ==> slots.bind_layout == Some(
                bind_layout,
            )
            &&& step is Pipeline <==> joined && !pipeline
            &&& step matches Step::Pipeline { shader: s, layout: l } ==> slots.shader == Some(s)
                && slots.pipeline_layout == Some(l)
            &&& step == Step::UniformBuffer <==> pipeline && !uniforms
            &&& step is BindGroup <==> uniforms && !group
            &&& step matches Step::BindGroup { bind_layout, ubuf } ==> slots.bind_layout == Some(
                bind_layout,
            ) && slots.ubuf == Some(ubuf)
            &&& step == Step::VertexBuffer <==> group && !vertices
            &&& step is Upload <==> vertices && !slots.uploaded
            &&& step matches Step::Upload { vbuf } ==> slots.vbuf == Some(vbuf)
            &&& step == Step::Done <==> vertices && slots.uploaded
        }),
{
}

/// What the device made is kept under the name that it was asked for, and nothing else
/// changes; what it refused leaves everything as it was, with the error of what was asked for.
pub proof fn made_handles_are_kept(slots: Slots, n: usize)
    ensures
        ({
            let after = slots_after(slots, Some(n));
            let step = needed(slots);
            &&& step == Step::BindLayout ==> after == (Slots { bind_layout: Some(n), ..slots })
            &&& step == Step::Shader ==> after == (Slots { shader: Some(n), ..slots })
            &&& step is PipelineLayout ==> after == (Slots { pipeline_layout: Some(n), ..slots })
            &&& step is Pipeline ==> after == (Slots { pipeline: Some(n), ..slots })
            &&& step == Step::UniformBuffer ==> after == (Slots { ubuf: Some(n), ..slots })
            &&& step is BindGroup ==> after == (Slots { bind_group: Some(n), ..slots })
            &&& step == Step::VertexBuffer ==> after == (Slots { vbuf: Some(n), ..slots })
            &&& step is Upload ==> after == (Slots { uploaded: true, ..slots })
            &&& step == Step::Done ==> after == slots
            &&& answer(slots, Some(n)) == Ok::<Step, InitError>(needed(after))
            &&& slots_after(slots, None) == slots
            &&& step == Step::BindLayout ==> answer(slots, None) == Err::<Step, InitError>(
                InitError::BindLayout,
            )
            &&& step == Step::Shader ==> answer(slots, None) == Err::<Step, InitError>(
                InitError::Shader,
            )
            &&& step is PipelineLayout ==> answer(slots, None) == Err::<Step, InitError>(
                InitError::PipelineLayout,
            )
            &&& step is Pipeline ==> answer(slots, None) == Err::<Step, InitError>(
                InitError::Pipeline,
            )
            &&& step == Step::UniformBuffer ==> answer(slots, None) == Err::<Step, InitError>(
                InitError::UniformBuffer,
            )
            &&& step is BindGroup ==> answer(slots, None) == Err::<Step, InitError>(
                InitError::BindGroup,
            )
            &&& step == Step::VertexBuffer ==> answer(slots, None) == Err::<Step, InitError>(
                InitError::VertexBuffer,
            )
            &&& step is Upload ==> answer(slots, None) == Err::<Step, InitError>(InitError::Upload)
            &&& step == Step::Done ==> answer(slots, None) == Ok::<Step, InitError>(Step::Done)
        }),
{
}

/// A frame is drawn just where all four things are offered and the lane is set up, with the
/// handles of the lane and all of its points, once. Else it lacks the first of them that is
/// not there.
pub proof fn frames_are_drawn_with_everything_there(slots: Slots, points: u32, offered: Offered)
    ensures
        ({
            let set_up = slots.pipeline is Some && slots.bind_group is Some && slots.ubuf is Some
                && slots.vbuf is Some && slots.uploaded;
            let plan = planned(draw_of(slots, points), offered);
            &&& plan is Ok <==> offered.globals && offered.device && offered.color_target
                && offered.encoder && set_up
            &&& plan matches Ok(draw) ==> slots.pipeline == Some(draw.pipeline) && slots.bind_group
                == Some(draw.bind_group) && slots.ubuf == Some(draw.ubuf) && slots.vbuf == Some(
                draw.vbuf,
            ) && draw.vertices == points && draw.instances == 1
            &&& plan == Err::<Draw, Missing>(Missing::Globals) <==> !offered.globals
            &&& plan == Err::<Draw, Missing>(Missing::Device) <==> offered.globals
                && !offered.device
            &&& plan == Err::<Draw, Missing>(Missing::ColorTarget) <==> offered.globals
                && offered.device && !offered.color_target
            &&& plan == Err::<Draw, Missing>(Missing::Encoder) <==> offered.globals
                && offered.device && offered.color_target && !offered.encoder
            &&& plan == Err::<Draw, Missing>(Missing::Handles) <==> offered.globals
                && offered.device && offered.color_target && offered.encoder && !set_up
        }),
{
}

/// A lane draws the whole points of its numbers, six to a point, where so many can be drawn
/// at once, and none where not.
pub proof fn whole_points_are_drawn(words: nat)
    ensures
        words < 6 * 0x1_0000_0000 ==> 6 * drawable(words) <= words < 6 * drawable(words) + 6,
        words >= 6 * 0x1_0000_0000 ==> drawable(words) == 0,
{
}

/// The count of draws goes up by one with each whose uniform block was written, starting
/// over where it can go no higher, and the first three are reported. A draw whose block was
/// not written is none.
pub proof fn written_draws_are_counted(calls: u32)
    ensures
        calls_after(calls, false) == calls,
        ending(calls, false) == Err::<bool, Missing>(Missing::UniformWrite),
        (calls_after(calls, true) - calls - 1) % 0x1_0000_0000 == 0,
        ending(calls, true) == Ok::<bool, Missing>(calls == 0 || calls == 1 || calls == 2),
{
}

} // verus!
