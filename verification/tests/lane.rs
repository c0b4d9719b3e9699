use lana_khora::cloud::interleave;
use lana_khora::lane::{
    clear_color, plan_draw, vertex_layout, Draw, Globals, InitError, Material, Missing, Offered,
    PointCloudLane, Step, GLOBALS_SIZE,
};
use lana_khora::point::Point;
use lana_khora::scalar::{pz, Triple};

const ALL: Offered = Offered { globals: true, device: true, color_target: true, encoder: true };

fn b(v: f32) -> u32 {
    v.to_bits()
}

fn row(values: [f32; 4]) -> [u32; 4] {
    [b(values[0]), b(values[1]), b(values[2]), b(values[3])]
}

fn run(lane: &mut PointCloudLane, made: &[Option<usize>]) -> Result<Step, InitError> {
    let mut step = lane.next_step();
    for m in made {
        step = lane.advance(*m)?;
    }
    Ok(step)
}

#[test]
fn points_are_counted() {
    assert_eq!(PointCloudLane::new(vec![0; 12]).n_points(), 2);
    assert_eq!(PointCloudLane::new(vec![0; 17]).n_points(), 2);
    assert_eq!(PointCloudLane::new(vec![]).n_points(), 0);
    let p = Point { pos: Triple { x: 1, y: 2, z: 3 }, normal: pz() };
    assert_eq!(PointCloudLane::new(interleave(&[p, p, p])).n_points(), 3);
}

#[test]
fn vertices_are_cast_to_bytes() {
    let lane = PointCloudLane::new(vec![0x0102_0304, b(1.0)]);
    let mut expected: Vec<u8> = Vec::new();
    expected.extend_from_slice(&0x0102_0304u32.to_ne_bytes());
    expected.extend_from_slice(&1.0f32.to_ne_bytes());
    assert_eq!(lane.vertex_bytes(), expected.as_slice());
}

#[test]
fn layout_matches_the_vertices() {
    let layout = vertex_layout();
    assert_eq!((layout.stride, layout.position_offset, layout.normal_offset), (24, 0, 12));
    assert_eq!((layout.position_location, layout.normal_location), (0, 1));
    let p = Point { pos: Triple { x: 1, y: 2, z: 3 }, normal: Triple { x: 4, y: 5, z: 6 } };
    let verts = interleave(&[p, p]);
    assert_eq!(verts[(layout.stride + layout.normal_offset) as usize / 4], 4);
    assert_eq!(PointCloudLane::new(verts).vertex_bytes().len() as u64, 2 * layout.stride);
}

#[test]
fn clear_colour() {
    assert_eq!(clear_color(), (b(0.01), b(0.01), b(0.02), b(1.0)));
}

#[test]
fn material_of_an_avatar() {
    let m = Material::avatar(Triple { x: b(0.07), y: b(1.5), z: b(0.4) });
    assert_eq!(m.p, row([0.0, 2.6, 0.05, 1.7 * 0.89]));
    assert_eq!(m.q, row([0.010, 0.008, 0.006, 0.03]));
    assert_eq!(m.r, row([1.5, 0.07, 0.018, 0.008]));
    assert_eq!(m.s, row([0.4, 0.010, 0.15, 1.0]));
}

#[test]
fn uniform_block_is_cast_to_bytes() {
    let m = Material::avatar(Triple { x: b(0.07), y: b(1.5), z: b(0.4) });
    let view = [
        row([1.0, 2.0, 3.0, 4.0]),
        row([5.0, 6.0, 7.0, 8.0]),
        row([9.0, 10.0, 11.0, 12.0]),
        row([13.0, 14.0, 15.0, 16.0]),
    ];
    let time = row([17.0, 18.0, 19.0, 20.0]);
    let bytes = Globals::new(view, time, m).to_bytes();
    assert_eq!(bytes.len() as u64, GLOBALS_SIZE);
    let mut expected: Vec<u8> = Vec::new();
    for part in [view[0], view[1], view[2], view[3], time, m.p, m.q, m.r, m.s] {
        for w in part {
            expected.extend_from_slice(&w.to_ne_bytes());
        }
    }
    assert_eq!(bytes, expected);
}

#[test]
fn steps_follow_one_another() {
    let mut lane = PointCloudLane::new(vec![0; 6]);
    let mut seen: Vec<Step> = vec![lane.next_step()];
    for id in 10..18 {
        seen.push(lane.advance(Some(id)).unwrap());
        assert_eq!(lane.next_step(), seen[seen.len() - 1]);
    }
    assert_eq!(
        seen,
        vec![
            Step::BindLayout,
            Step::Shader,
            Step::PipelineLayout { bind_layout: 10 },
            Step::Pipeline { shader: 11, layout: 12 },
            Step::UniformBuffer,
            Step::BindGroup { bind_layout: 10, ubuf: 14 },
            Step::VertexBuffer,
            Step::Upload { vbuf: 16 },
            Step::Done,
        ]
    );
    assert_eq!(lane.advance(None), Ok(Step::Done));
    assert_eq!(lane.advance(Some(99)), Ok(Step::Done));
}

#[test]
fn complete_run_can_draw() {
    let mut lane = PointCloudLane::new(vec![0; 30]);
    let made: Vec<Option<usize>> = (10..18).map(Some).collect();
    assert_eq!(run(&mut lane, &made), Ok(Step::Done));
    assert_eq!(
        lane.plan(ALL),
        Ok(Draw {
            pipeline: 13,
            bind_group: 15,
            ubuf: 14,
            vbuf: 16,
            vertices: 5,
            instances: 1,
        })
    );
}

#[test]
fn draw_of_a_ready_lane_is_planned() {
    let mut lane = PointCloudLane::new(vec![0; 12]);
    assert_eq!(lane.ready_draw(), None);
    assert_eq!(plan_draw(lane.ready_draw(), ALL), Err(Missing::Handles));
    let made: Vec<Option<usize>> = (10..18).map(Some).collect();
    assert_eq!(run(&mut lane, &made), Ok(Step::Done));
    let ready = lane.ready_draw();
    assert!(ready.is_some());
    assert_eq!(plan_draw(ready, ALL), lane.plan(ALL));
    let blind = Offered { color_target: false, ..ALL };
    assert_eq!(plan_draw(ready, blind), Err(Missing::ColorTarget));
    assert_eq!(plan_draw(None, blind), Err(Missing::ColorTarget));
    assert_eq!(run(&mut lane, &[Some(99), None]), Ok(Step::Done));
    assert_eq!(lane.ready_draw(), ready);
}

#[test]
fn refusals_are_named() {
    let names = [
        (InitError::BindLayout, "create_bind_group_layout"),
        (InitError::Shader, "create_shader_module"),
        (InitError::PipelineLayout, "create_pipeline_layout"),
        (InitError::Pipeline, "create_render_pipeline"),
        (InitError::UniformBuffer, "create_buffer(ubo)"),
        (InitError::BindGroup, "create_bind_group"),
        (InitError::VertexBuffer, "create_buffer(vbo)"),
        (InitError::Upload, "write_buffer(vbo)"),
    ];
    for (k, (error, name)) in names.iter().enumerate() {
        let mut lane = PointCloudLane::new(vec![0; 6]);
        let mut made: Vec<Option<usize>> = (0..k).map(Some).collect();
        made.push(None);
        assert_eq!(run(&mut lane, &made), Err(*error));
        assert_eq!(error.what(), *name);
        assert_eq!(lane.plan(ALL), Err(Missing::Handles));
    }
}

#[test]
fn first_handles_stay() {
    let mut lane = PointCloudLane::new(vec![0; 6]);
    let first: Vec<Option<usize>> =
        vec![Some(1), Some(2), Some(3), Some(4), Some(5), None];
    assert_eq!(run(&mut lane, &first), Err(InitError::BindGroup));
    assert_eq!(lane.next_step(), Step::BindGroup { bind_layout: 1, ubuf: 5 });
    let second: Vec<Option<usize>> = vec![Some(26), Some(27), Some(28)];
    assert_eq!(run(&mut lane, &second), Ok(Step::Done));
    let draw = lane.plan(ALL).unwrap();
    assert_eq!((draw.pipeline, draw.ubuf, draw.bind_group, draw.vbuf), (4, 5, 26, 27));
    assert_eq!(run(&mut lane, &[]), Ok(Step::Done));
}

#[test]
fn refused_steps_are_asked_for_again() {
    let mut lane = PointCloudLane::new(vec![0; 6]);
    let mut asked: Vec<Step> = Vec::new();
    for id in 10..18 {
        let step = lane.next_step();
        assert!(lane.advance(None).is_err());
        assert_eq!(lane.next_step(), step);
        assert_eq!(lane.plan(ALL), Err(Missing::Handles));
        assert!(!asked.contains(&step));
        asked.push(step);
        assert!(lane.advance(Some(id)).is_ok());
    }
    assert!(asked.contains(&Step::BindGroup { bind_layout: 10, ubuf: 14 }));
    assert!(asked.contains(&Step::Pipeline { shader: 11, layout: 12 }));
    let draw = lane.plan(ALL).unwrap();
    assert_eq!((draw.pipeline, draw.ubuf, draw.bind_group, draw.vbuf), (13, 14, 15, 16));
}

#[test]
fn first_missing_thing_is_named() {
    let lane = PointCloudLane::new(vec![0; 6]);
    let none = Offered { globals: false, device: false, color_target: false, encoder: false };
    assert_eq!(lane.plan(none), Err(Missing::Globals));
    let some = Offered { globals: true, ..none };
    assert_eq!(lane.plan(some), Err(Missing::Device));
    let more = Offered { device: true, ..some };
    assert_eq!(lane.plan(more), Err(Missing::ColorTarget));
    let most = Offered { color_target: true, ..more };
    assert_eq!(lane.plan(most), Err(Missing::Encoder));
    assert_eq!(lane.plan(ALL), Err(Missing::Handles));
    assert_eq!(Missing::Globals.name(), "Globals");
    assert_eq!(Missing::Device.name(), "Arc<dyn GraphicsDevice>");
    assert_eq!(Missing::ColorTarget.name(), "ColorTarget");
    assert_eq!(Missing::Encoder.name(), "Slot<dyn CommandEncoder>");
    assert_eq!(Missing::Handles.name(), "PointCloudLane GPU handles");
    assert_eq!(Missing::UniformWrite.name(), "write_buffer(ubo)");
}

#[test]
fn first_three_draws_are_reported() {
    let mut lane = PointCloudLane::new(vec![0; 6]);
    let reported: Vec<Result<bool, Missing>> = (0..5).map(|_| lane.finish_draw(true)).collect();
    assert_eq!(reported, vec![Ok(true), Ok(true), Ok(true), Ok(false), Ok(false)]);
}

#[test]
fn draw_without_its_uniforms_is_not_counted() {
    let mut lane = PointCloudLane::new(vec![0; 6]);
    assert_eq!(lane.finish_draw(true), Ok(true));
    for _ in 0..5 {
        assert_eq!(lane.finish_draw(false), Err(Missing::UniformWrite));
    }
    assert_eq!(lane.finish_draw(true), Ok(true));
    assert_eq!(lane.finish_draw(true), Ok(true));
    assert_eq!(lane.finish_draw(true), Ok(false));
}
