use live2d::gpu_pass::{command_pass_actions, main_pass_actions, PassAction, PassTarget, TargetLoad};
use live2d::model::{
    AlphaBlendMode, BlendMode, CanvasInfo, ColorBlendMode, Drawable, DrawableId, ModelSnapshot,
    Offscreen, RenderObject, Vertex,
};
use live2d::render::RenderPlanner;

fn bits(value: f32) -> u32 {
    value.to_bits()
}

fn drawable(id: &str, render_order: i32, blend_mode: BlendMode) -> Drawable {
    Drawable {
        id: DrawableId::from(id),
        render_order,
        parent_part_index: None,
        texture_index: 0,
        vertices: vec![Vertex {
            position_bits: [bits(0.0), bits(0.0)],
            uv_bits: [bits(0.0), bits(0.0)],
        }],
        indices: vec![0],
        visible: true,
        opacity_bits: bits(1.0),
        blend_mode,
        clipping: None,
    }
}

fn snapshot(drawables: Vec<Drawable>) -> ModelSnapshot {
    ModelSnapshot {
        model_key: "sample".into(),
        canvas: CanvasInfo::default(),
        art_meshes: Vec::new(),
        textures: Vec::new(),
        drawables,
        offscreens: Vec::new(),
        render_objects: Vec::new(),
        part_parent_indices: Vec::new(),
    }
}

fn advanced() -> BlendMode {
    BlendMode::Advanced {
        color: ColorBlendMode::Multiply,
        alpha: AlphaBlendMode::Over,
    }
}

fn draws(target: PassTarget, load: TargetLoad, draws: Vec<usize>, copy_target: bool) -> PassAction {
    PassAction::Draws {
        target,
        load,
        draws,
        copy_target,
    }
}

fn layered_snapshot() -> ModelSnapshot {
    let mut arm = drawable("arm", 2, BlendMode::Normal);
    arm.parent_part_index = Some(0);
    let mut snapshot = snapshot(vec![
        drawable("body", 0, BlendMode::Normal),
        arm,
        drawable("outside", 3, BlendMode::Normal),
    ]);
    snapshot.offscreens = vec![Offscreen {
        index: 0,
        render_order: 1,
        owner_part_index: Some(0),
        opacity_bits: bits(1.0),
        blend_mode: BlendMode::Normal,
        clipping: None,
    }];
    snapshot.render_objects = vec![
        RenderObject::Drawable(DrawableId::from("body")),
        RenderObject::Offscreen(0),
        RenderObject::Drawable(DrawableId::from("arm")),
        RenderObject::Drawable(DrawableId::from("outside")),
    ];
    snapshot.part_parent_indices = vec![None];
    snapshot
}

#[test]
fn plain_plan_draws_runs_and_advanced_draws_alone() {
    let plan = RenderPlanner::new().build(&snapshot(vec![
        drawable("a", 0, BlendMode::Normal),
        drawable("b", 1, advanced()),
        drawable("c", 2, BlendMode::Normal),
        drawable("d", 3, BlendMode::Additive),
    ]));
    assert_eq!(
        main_pass_actions(&plan, true, &[]),
        vec![
            draws(PassTarget::Root, TargetLoad::First, vec![0], false),
            draws(PassTarget::Root, TargetLoad::Load, vec![1], true),
            draws(PassTarget::Root, TargetLoad::Load, vec![2, 3], false),
        ]
    );
}

#[test]
fn plain_plan_starting_advanced_clears_first() {
    let plan = RenderPlanner::new().build(&snapshot(vec![
        drawable("a", 0, advanced()),
        drawable("b", 1, BlendMode::Normal),
    ]));
    assert_eq!(
        main_pass_actions(&plan, true, &[]),
        vec![
            PassAction::OpenRoot,
            draws(PassTarget::Root, TargetLoad::Load, vec![0], true),
            draws(PassTarget::Root, TargetLoad::Load, vec![1], false),
        ]
    );
    assert_eq!(
        main_pass_actions(&plan, false, &[]),
        vec![
            draws(PassTarget::Root, TargetLoad::First, vec![0], true),
            draws(PassTarget::Root, TargetLoad::Load, vec![1], false),
        ]
    );
}

#[test]
fn empty_plan_opens_the_root_once() {
    let plan = RenderPlanner::new().build(&snapshot(Vec::new()));
    assert_eq!(main_pass_actions(&plan, true, &[]), vec![PassAction::OpenRoot]);
}

#[test]
fn layered_plan_draws_into_its_offscreen_and_composites_it() {
    let plan = RenderPlanner::new().build(&layered_snapshot());
    assert_eq!(
        main_pass_actions(&plan, true, &[true]),
        vec![
            draws(PassTarget::Root, TargetLoad::First, vec![0], false),
            PassAction::ClearOffscreen(0),
            draws(PassTarget::Offscreen(0), TargetLoad::Load, vec![1], false),
            PassAction::Composite {
                offscreen: 0,
                target: PassTarget::Root,
                load: TargetLoad::Load,
            },
            draws(PassTarget::Root, TargetLoad::Load, vec![2], false),
        ]
    );
}

#[test]
fn invisible_offscreen_is_not_composited() {
    let plan = RenderPlanner::new().build(&layered_snapshot());
    assert_eq!(
        command_pass_actions(&plan, &[false]),
        vec![
            draws(PassTarget::Root, TargetLoad::First, vec![0], false),
            PassAction::ClearOffscreen(0),
            draws(PassTarget::Offscreen(0), TargetLoad::Load, vec![1], false),
            draws(PassTarget::Root, TargetLoad::Load, vec![2], false),
        ]
    );
}

#[test]
fn root_left_untouched_gets_an_empty_pass() {
    let mut snapshot = layered_snapshot();
    snapshot.drawables.retain(|d| d.id.as_str() == "arm");
    snapshot.render_objects = vec![
        RenderObject::Offscreen(0),
        RenderObject::Drawable(DrawableId::from("arm")),
    ];
    let plan = RenderPlanner::new().build(&snapshot);
    assert_eq!(
        command_pass_actions(&plan, &[false]),
        vec![
            PassAction::ClearOffscreen(0),
            draws(PassTarget::Offscreen(0), TargetLoad::Load, vec![0], false),
            PassAction::OpenRoot,
        ]
    );
}
