use sq::assets::{AssetManager, TextureInfo};
use sq::model::{
    BlendMode, FaceCullMode, FilterMode, Mapping, Material, MaterialKey, MaterialUniforms,
    Quaternion, Rectangle, RenderTargetKey, Scalar, ShaderKey, Transform, Vector2, Vector3,
    Vector4, WrapMode,
};
use sq::plan::FrameStep;
use sq::render::{QueueError, RenderQueue, Renderer};
use sq::schedule::RenderSchedule;

fn scalar(value: f32) -> Scalar {
    Scalar::from_bits(value.to_bits())
}

fn sprite() -> Mapping {
    Mapping::Sprite {
        uv_rect: Rectangle { x: scalar(0.0), y: scalar(0.0), width: scalar(1.0), height: scalar(1.0) },
    }
}

fn sprite_at(z: f32) -> Transform {
    Transform::Sprite {
        position: Vector2 { x: scalar(0.0), y: scalar(0.0) },
        rotation: scalar(0.0),
        scale: Vector2 { x: scalar(1.0), y: scalar(1.0) },
        z_order: scalar(z),
    }
}

fn mesh_at(z: f32) -> Transform {
    Transform::Mesh {
        position: Vector3 { x: scalar(0.0), y: scalar(0.0), z: scalar(z) },
        rotation: Quaternion {
            s: scalar(1.0),
            v: Vector3 { x: scalar(0.0), y: scalar(0.0), z: scalar(0.0) },
        },
        scale: Vector3 { x: scalar(1.0), y: scalar(1.0), z: scalar(1.0) },
    }
}

fn uniforms() -> MaterialUniforms {
    MaterialUniforms {
        tint: Vector4 { x: scalar(1.0), y: scalar(1.0), z: scalar(1.0), w: scalar(1.0) },
        custom_params: vec![scalar(0.25)],
    }
}

fn material(assets: &mut AssetManager) -> MaterialKey {
    let shader = assets.create_shader("sprite");
    assets.create_material(Material {
        textures: vec![],
        shader,
        blend_mode: BlendMode::AlphaBlend,
        cull_mode: FaceCullMode::Off,
        filter_mode: FilterMode::Nearest,
        wrap_mode: (WrapMode::Clamp, WrapMode::Clamp),
    })
}

fn main_to_screen() -> RenderSchedule {
    RenderSchedule::builder().add_pass("main", "screen").unwrap()
}

fn renderer_with(schedule: RenderSchedule) -> Renderer {
    let mut renderer = Renderer::new();
    renderer.set_schedule(schedule);
    renderer
}

fn queue_sprite(renderer: &mut Renderer, material: MaterialKey, z: f32, pass: &str, transparent: bool) {
    let result =
        renderer.queue(material, sprite(), sprite_at(z), uniforms(), pass.to_string(), transparent);
    assert_eq!(result, Ok(()));
}

fn materials_of(entries: &Vec<RenderQueue>) -> Vec<MaterialKey> {
    entries.iter().map(|entry| entry.material).collect()
}

fn depths_of(entries: &Vec<RenderQueue>) -> Vec<u64> {
    entries.iter().map(|entry| entry.queue_depth).collect()
}

fn drawn_in(plan: &Vec<FrameStep>) -> usize {
    plan.iter()
        .map(|step| match step {
            FrameStep::Pass { opaque, transparent, .. } => opaque.len() + transparent.len(),
            _ => 0,
        })
        .sum()
}

#[test]
fn a_new_renderer_has_nothing_queued() {
    let mut renderer = Renderer::new();
    assert_eq!(renderer.depth_counter(), 0);
    assert!(renderer.schedule().steps().is_empty());
    assert_eq!(
        renderer.schedule().render_target(&"screen".to_string()),
        Some(RenderTargetKey::Screen)
    );
    let assets = AssetManager::new();
    assert!(renderer.execute(&assets).is_empty());
}

#[test]
fn opaque_first_then_transparent_in_call_order() {
    let mut assets = AssetManager::new();
    let mat_a = material(&mut assets);
    let mat_b = material(&mut assets);
    let mat_c = material(&mut assets);
    let mut renderer = renderer_with(main_to_screen());
    queue_sprite(&mut renderer, mat_a, 0.0, "main", false);
    queue_sprite(&mut renderer, mat_b, 1.0, "main", true);
    queue_sprite(&mut renderer, mat_c, 0.5, "main", true);
    let plan = renderer.execute(&assets);
    assert_eq!(plan.len(), 1);
    match &plan[0] {
        FrameStep::Pass { render_pass, target, opaque, transparent, stale } => {
            assert_eq!(render_pass, "main");
            assert_eq!(*target, RenderTargetKey::Screen);
            assert_eq!(materials_of(opaque), vec![mat_a]);
            assert_eq!(materials_of(transparent), vec![mat_b, mat_c]);
            assert_eq!(depths_of(opaque), vec![0]);
            assert_eq!(depths_of(transparent), vec![1, 2]);
            assert_eq!(transparent[0].transform, sprite_at(1.0));
            assert_eq!(transparent[1].transform, sprite_at(0.5));
            assert!(stale.is_empty());
        }
        other => panic!("expected a pass, got {:?}", other),
    }
}

#[test]
fn a_queued_entry_carries_what_was_submitted() {
    let mut assets = AssetManager::new();
    let mat = material(&mut assets);
    let mut renderer = renderer_with(main_to_screen());
    queue_sprite(&mut renderer, mat, 0.75, "main", true);
    let plan = renderer.execute(&assets);
    match &plan[0] {
        FrameStep::Pass { transparent, .. } => {
            assert_eq!(
                transparent,
                &vec![RenderQueue {
                    material: mat,
                    mapping: sprite(),
                    transform: sprite_at(0.75),
                    uniforms: uniforms(),
                    allow_transparency: true,
                    queue_depth: 0,
                }]
            );
        }
        other => panic!("expected a pass, got {:?}", other),
    }
}

#[test]
fn the_counter_counts_accepted_submissions() {
    let mut assets = AssetManager::new();
    let mat = material(&mut assets);
    let mut renderer = renderer_with(main_to_screen());
    assert_eq!(renderer.depth_counter(), 0);
    queue_sprite(&mut renderer, mat, 0.0, "main", false);
    assert_eq!(renderer.depth_counter(), 1);
    queue_sprite(&mut renderer, mat, 0.0, "other", true);
    assert_eq!(renderer.depth_counter(), 2);
    renderer.execute(&assets);
    assert_eq!(renderer.depth_counter(), 0);
}

#[test]
fn a_sprite_with_a_mesh_transform_is_refused() {
    let mut assets = AssetManager::new();
    let mat = material(&mut assets);
    let mut renderer = renderer_with(main_to_screen());
    let result = renderer.queue(mat, sprite(), mesh_at(0.0), uniforms(), "main".to_string(), false);
    assert_eq!(result, Err(QueueError::TransformMismatch));
    assert_eq!(renderer.depth_counter(), 0);
    assert!(renderer.execute(&assets).is_empty());
}

#[test]
fn a_mesh_with_a_sprite_transform_is_refused() {
    let mut assets = AssetManager::new();
    let mat = material(&mut assets);
    let vertex_buffer = assets.create_vertex_buffer();
    let index_buffer = assets.create_index_buffer();
    let mesh = Mapping::Mesh { vertex_buffer, index_buffer, vertex_count: 4, index_count: 6 };
    let mut renderer = renderer_with(main_to_screen());
    let refused = renderer.queue(mat, mesh, sprite_at(0.0), uniforms(), "main".to_string(), true);
    assert_eq!(refused, Err(QueueError::TransformMismatch));
    assert_eq!(renderer.depth_counter(), 0);
    let accepted = renderer.queue(mat, mesh, mesh_at(2.0), uniforms(), "main".to_string(), true);
    assert_eq!(accepted, Ok(()));
    assert_eq!(renderer.depth_counter(), 1);
    assert_eq!(drawn_in(&renderer.execute(&assets)), 1);
}

#[test]
fn a_refused_submission_takes_no_depth() {
    let mut assets = AssetManager::new();
    let mat = material(&mut assets);
    let mut renderer = renderer_with(main_to_screen());
    queue_sprite(&mut renderer, mat, 0.0, "main", true);
    let refused = renderer.queue(mat, sprite(), mesh_at(0.0), uniforms(), "main".to_string(), true);
    assert_eq!(refused, Err(QueueError::TransformMismatch));
    queue_sprite(&mut renderer, mat, 0.0, "main", true);
    let plan = renderer.execute(&assets);
    match &plan[0] {
        FrameStep::Pass { transparent, .. } => assert_eq!(depths_of(transparent), vec![0, 1]),
        other => panic!("expected a pass, got {:?}", other),
    }
}

#[test]
fn every_queued_submission_is_drawn_or_set_aside() {
    let mut assets = AssetManager::new();
    let live = material(&mut assets);
    let doomed = material(&mut assets);
    let mut renderer = renderer_with(main_to_screen());
    queue_sprite(&mut renderer, live, 0.0, "main", false);
    queue_sprite(&mut renderer, doomed, 0.0, "main", false);
    queue_sprite(&mut renderer, live, 0.0, "main", true);
    queue_sprite(&mut renderer, doomed, 0.0, "main", true);
    queue_sprite(&mut renderer, live, 0.0, "main", true);
    assets.remove_material(doomed);
    let plan = renderer.execute(&assets);
    assert_eq!(plan.len(), 1);
    match &plan[0] {
        FrameStep::Pass { opaque, transparent, stale, .. } => {
            assert_eq!(opaque.len() + transparent.len(), 5 - 2);
            assert_eq!(depths_of(opaque), vec![0]);
            assert_eq!(depths_of(transparent), vec![2, 4]);
            assert_eq!(depths_of(stale), vec![1, 3]);
            assert_eq!(materials_of(stale), vec![doomed, doomed]);
        }
        other => panic!("expected a pass, got {:?}", other),
    }
}

#[test]
fn a_pass_of_stale_submissions_draws_nothing() {
    let mut assets = AssetManager::new();
    let doomed = material(&mut assets);
    let mut renderer = renderer_with(main_to_screen());
    queue_sprite(&mut renderer, doomed, 0.0, "main", false);
    queue_sprite(&mut renderer, MaterialKey { raw: 0 }, 0.0, "main", true);
    assets.remove_material(doomed);
    let plan = renderer.execute(&assets);
    assert_eq!(drawn_in(&plan), 0);
    match &plan[0] {
        FrameStep::Pass { opaque, transparent, stale, .. } => {
            assert!(opaque.is_empty());
            assert!(transparent.is_empty());
            assert_eq!(stale.len(), 2);
        }
        other => panic!("expected a pass, got {:?}", other),
    }
}

#[test]
fn a_stale_submission_does_not_stop_its_siblings() {
    let mut assets = AssetManager::new();
    let live = material(&mut assets);
    let no_shader = assets.create_material(Material {
        textures: vec![],
        shader: ShaderKey { raw: 0 },
        blend_mode: BlendMode::Off,
        cull_mode: FaceCullMode::Off,
        filter_mode: FilterMode::Nearest,
        wrap_mode: (WrapMode::Repeat, WrapMode::Repeat),
    });
    let mut renderer = renderer_with(main_to_screen());
    queue_sprite(&mut renderer, no_shader, 0.0, "main", false);
    queue_sprite(&mut renderer, live, 0.0, "main", false);
    let plan = renderer.execute(&assets);
    match &plan[0] {
        FrameStep::Pass { opaque, stale, .. } => {
            assert_eq!(materials_of(opaque), vec![live]);
            assert_eq!(materials_of(stale), vec![no_shader]);
        }
        other => panic!("expected a pass, got {:?}", other),
    }
}

#[test]
fn transparent_depths_rise_whatever_the_interleaving() {
    let mut assets = AssetManager::new();
    let mat = material(&mut assets);
    let mut renderer = renderer_with(main_to_screen());
    let pattern = [true, false, false, true, true, false, true, false, true, true, false, true];
    for (index, transparent) in pattern.iter().enumerate() {
        queue_sprite(&mut renderer, mat, 10.0 - index as f32, "main", *transparent);
    }
    let plan = renderer.execute(&assets);
    match &plan[0] {
        FrameStep::Pass { opaque, transparent, .. } => {
            assert_eq!(depths_of(transparent), vec![0, 3, 4, 6, 8, 9, 11]);
            for pair in depths_of(transparent).windows(2) {
                assert!(pair[0] < pair[1]);
            }
            assert!(transparent.iter().all(|entry| entry.allow_transparency));
            assert!(opaque.iter().all(|entry| !entry.allow_transparency));
            assert_eq!(opaque.len(), 5);
        }
        other => panic!("expected a pass, got {:?}", other),
    }
}

#[test]
fn opaque_submissions_are_batched_by_material() {
    let mut assets = AssetManager::new();
    let m1 = material(&mut assets);
    let m2 = material(&mut assets);
    let m3 = material(&mut assets);
    let mut renderer = renderer_with(main_to_screen());
    for mat in [m1, m2, m1, m3, m2] {
        queue_sprite(&mut renderer, mat, 0.0, "main", false);
    }
    let plan = renderer.execute(&assets);
    match &plan[0] {
        FrameStep::Pass { opaque, .. } => {
            assert_eq!(materials_of(opaque), vec![m1, m1, m2, m2, m3]);
            assert_eq!(depths_of(opaque), vec![0, 2, 1, 4, 3]);
        }
        other => panic!("expected a pass, got {:?}", other),
    }
}

#[test]
fn transparent_submissions_are_not_batched() {
    let mut assets = AssetManager::new();
    let m1 = material(&mut assets);
    let m2 = material(&mut assets);
    let mut renderer = renderer_with(main_to_screen());
    for mat in [m1, m2, m1, m2] {
        queue_sprite(&mut renderer, mat, 0.0, "main", true);
    }
    let plan = renderer.execute(&assets);
    match &plan[0] {
        FrameStep::Pass { transparent, .. } => {
            assert_eq!(materials_of(transparent), vec![m1, m2, m1, m2]);
        }
        other => panic!("expected a pass, got {:?}", other),
    }
}

#[test]
fn executing_again_at_once_draws_nothing() {
    let mut assets = AssetManager::new();
    let mat = material(&mut assets);
    let mut renderer = renderer_with(main_to_screen());
    queue_sprite(&mut renderer, mat, 0.0, "main", false);
    queue_sprite(&mut renderer, mat, 0.0, "main", true);
    assert_eq!(drawn_in(&renderer.execute(&assets)), 2);
    assert_eq!(renderer.depth_counter(), 0);
    let again = renderer.execute(&assets);
    assert!(again.is_empty());
    assert_eq!(drawn_in(&again), 0);
    assert_eq!(renderer.depth_counter(), 0);
}

#[test]
fn a_second_frame_starts_counting_at_zero() {
    let mut assets = AssetManager::new();
    let mat = material(&mut assets);
    let mut renderer = renderer_with(main_to_screen());
    queue_sprite(&mut renderer, mat, 0.0, "main", true);
    queue_sprite(&mut renderer, mat, 0.0, "main", true);
    renderer.execute(&assets);
    queue_sprite(&mut renderer, mat, 0.0, "main", true);
    let plan = renderer.execute(&assets);
    match &plan[0] {
        FrameStep::Pass { transparent, .. } => assert_eq!(depths_of(transparent), vec![0]),
        other => panic!("expected a pass, got {:?}", other),
    }
}

#[test]
fn a_pass_that_is_not_scheduled_is_dropped() {
    let mut assets = AssetManager::new();
    let mat = material(&mut assets);
    let ghost = material(&mut assets);
    let mut renderer = renderer_with(main_to_screen());
    queue_sprite(&mut renderer, mat, 0.0, "main", false);
    queue_sprite(&mut renderer, ghost, 0.0, "ghost_pass", false);
    queue_sprite(&mut renderer, ghost, 0.0, "ghost_pass", true);
    let plan = renderer.execute(&assets);
    assert_eq!(plan.len(), 1);
    for step in &plan {
        match step {
            FrameStep::Pass { render_pass, opaque, transparent, stale, .. } => {
                assert_ne!(render_pass, "ghost_pass");
                assert!(!materials_of(opaque).contains(&ghost));
                assert!(!materials_of(transparent).contains(&ghost));
                assert!(!materials_of(stale).contains(&ghost));
            }
            other => panic!("expected a pass, got {:?}", other),
        }
    }
    assert_eq!(drawn_in(&plan), 1);
}

#[test]
fn what_was_dropped_does_not_come_back_in_the_next_frame() {
    let mut assets = AssetManager::new();
    let ghost = material(&mut assets);
    let mut renderer = renderer_with(main_to_screen());
    queue_sprite(&mut renderer, ghost, 0.0, "ghost_pass", false);
    assert!(renderer.execute(&assets).is_empty());
    renderer.set_schedule(
        RenderSchedule::builder().add_pass("ghost_pass", "screen").unwrap(),
    );
    assert!(renderer.execute(&assets).is_empty());
}

#[test]
fn a_pass_with_nothing_queued_adds_no_step() {
    let mut assets = AssetManager::new();
    let mat = material(&mut assets);
    let schedule = RenderSchedule::builder()
        .add_pass("world", "screen")
        .unwrap()
        .add_pass("ui", "screen")
        .unwrap();
    let mut renderer = renderer_with(schedule);
    queue_sprite(&mut renderer, mat, 0.0, "ui", false);
    let plan = renderer.execute(&assets);
    assert_eq!(plan.len(), 1);
    match &plan[0] {
        FrameStep::Pass { render_pass, .. } => assert_eq!(render_pass, "ui"),
        other => panic!("expected a pass, got {:?}", other),
    }
}

#[test]
fn a_pass_scheduled_twice_draws_once() {
    let mut assets = AssetManager::new();
    let mat = material(&mut assets);
    let fog = assets.create_dynamic_render_target((64, 64), "fog");
    let schedule = RenderSchedule::builder()
        .with_render_target("fog", fog)
        .add_pass("world", "fog")
        .unwrap()
        .add_pass("world", "screen")
        .unwrap();
    let mut renderer = renderer_with(schedule);
    queue_sprite(&mut renderer, mat, 0.0, "world", false);
    let plan = renderer.execute(&assets);
    assert_eq!(plan.len(), 1);
    match &plan[0] {
        FrameStep::Pass { target, opaque, .. } => {
            assert_eq!(*target, fog);
            assert_eq!(opaque.len(), 1);
        }
        other => panic!("expected a pass, got {:?}", other),
    }
}

#[test]
fn steps_come_out_in_schedule_order() {
    let mut assets = AssetManager::new();
    let mat = material(&mut assets);
    let blur = assets.create_shader("blur");
    let fog = assets.create_dynamic_render_target((64, 64), "fog");
    let schedule = RenderSchedule::builder()
        .with_render_target("fog", fog)
        .add_pass("world", "fog")
        .unwrap()
        .add_process("fog", blur, "screen")
        .unwrap()
        .add_pass("ui", "screen")
        .unwrap();
    let mut renderer = renderer_with(schedule);
    queue_sprite(&mut renderer, mat, 0.0, "ui", true);
    queue_sprite(&mut renderer, mat, 0.0, "world", false);
    let plan = renderer.execute(&assets);
    assert_eq!(plan.len(), 3);
    match &plan[0] {
        FrameStep::Pass { render_pass, target, opaque, transparent, .. } => {
            assert_eq!(render_pass, "world");
            assert_eq!(*target, fog);
            assert_eq!(depths_of(opaque), vec![1]);
            assert!(transparent.is_empty());
        }
        other => panic!("expected a pass, got {:?}", other),
    }
    assert_eq!(
        plan[1],
        FrameStep::Process { subject: fog, shader: blur, target: RenderTargetKey::Screen }
    );
    match &plan[2] {
        FrameStep::Pass { render_pass, target, opaque, transparent, .. } => {
            assert_eq!(render_pass, "ui");
            assert_eq!(*target, RenderTargetKey::Screen);
            assert!(opaque.is_empty());
            assert_eq!(depths_of(transparent), vec![0]);
        }
        other => panic!("expected a pass, got {:?}", other),
    }
}

#[test]
fn a_process_step_runs_in_every_frame() {
    let mut assets = AssetManager::new();
    let blur = assets.create_shader("blur");
    let schedule = RenderSchedule::builder().add_process("screen", blur, "screen").unwrap();
    let mut renderer = renderer_with(schedule);
    let expected = vec![FrameStep::Process {
        subject: RenderTargetKey::Screen,
        shader: blur,
        target: RenderTargetKey::Screen,
    }];
    assert_eq!(renderer.execute(&assets), expected);
    assert_eq!(renderer.execute(&assets), expected);
    assert_eq!(drawn_in(&expected), 0);
}

#[test]
fn a_process_step_with_a_stale_shader_is_skipped() {
    let assets = AssetManager::new();
    let gone = ShaderKey { raw: 0 };
    let schedule = RenderSchedule::builder().add_process("screen", gone, "screen").unwrap();
    let mut renderer = renderer_with(schedule);
    assert_eq!(renderer.execute(&assets), vec![FrameStep::StaleProcess { shader: gone }]);
}

#[test]
fn submissions_can_be_queued_before_the_schedule_is_set() {
    let mut assets = AssetManager::new();
    let mat = material(&mut assets);
    let mut renderer = Renderer::new();
    queue_sprite(&mut renderer, mat, 0.0, "main", false);
    renderer.set_schedule(main_to_screen());
    assert_eq!(drawn_in(&renderer.execute(&assets)), 1);
}

#[test]
fn set_schedule_keeps_what_is_queued() {
    let mut assets = AssetManager::new();
    let mat = material(&mut assets);
    let mut renderer = renderer_with(main_to_screen());
    queue_sprite(&mut renderer, mat, 0.0, "main", false);
    renderer.set_schedule(main_to_screen());
    assert_eq!(renderer.depth_counter(), 1);
    assert_eq!(drawn_in(&renderer.execute(&assets)), 1);
}

#[test]
fn passes_keep_their_submissions_apart() {
    let mut assets = AssetManager::new();
    let world = material(&mut assets);
    let ui = material(&mut assets);
    let schedule = RenderSchedule::builder()
        .add_pass("world", "screen")
        .unwrap()
        .add_pass("ui", "screen")
        .unwrap();
    let mut renderer = renderer_with(schedule);
    queue_sprite(&mut renderer, ui, 0.0, "ui", false);
    queue_sprite(&mut renderer, world, 0.0, "world", false);
    queue_sprite(&mut renderer, ui, 0.0, "ui", false);
    let plan = renderer.execute(&assets);
    assert_eq!(plan.len(), 2);
    match (&plan[0], &plan[1]) {
        (
            FrameStep::Pass { render_pass: first, opaque: first_opaque, .. },
            FrameStep::Pass { render_pass: second, opaque: second_opaque, .. },
        ) => {
            assert_eq!(first, "world");
            assert_eq!(materials_of(first_opaque), vec![world]);
            assert_eq!(second, "ui");
            assert_eq!(materials_of(second_opaque), vec![ui, ui]);
        }
        other => panic!("expected two passes, got {:?}", other),
    }
}

#[test]
fn a_texture_of_a_loaded_material_keeps_it_live() {
    let mut assets = AssetManager::new();
    let shader = assets.create_shader("sprite");
    let name = assets.load_texture("tree.png", TextureInfo { width: 8, height: 8 });
    let texture = assets.get_texture_key(&name).unwrap();
    let mat = assets.create_material(Material {
        textures: vec![texture],
        shader,
        blend_mode: BlendMode::Additive,
        cull_mode: FaceCullMode::Front,
        filter_mode: FilterMode::Linear,
        wrap_mode: (WrapMode::MirroredRepeat, WrapMode::Repeat),
    });
    let mut renderer = renderer_with(main_to_screen());
    queue_sprite(&mut renderer, mat, 0.0, "main", false);
    assert_eq!(drawn_in(&renderer.execute(&assets)), 1);
}
