use live2d::dispatch::Live2DRenderBackend;
use live2d::model::{
    BlendMode, CanvasInfo, ClippingInfo, Drawable, DrawableId, MaskRef, ModelSnapshot, Offscreen,
    RenderObject, TextureAsset, Vertex,
};
use live2d::plan::{DrawCommand, MaskPass, ModelRenderCtx, RenderCommand};
use live2d::render::{is_plannable, RenderPlanner};
use live2d::synthetic::CountingBackend;
use live2d::world::RenderWorld;

fn bits(value: f32) -> u32 {
    value.to_bits()
}

fn drawable(id: &str, render_order: i32, clipping: Option<ClippingInfo>) -> Drawable {
    Drawable {
        id: DrawableId::from(id),
        render_order,
        parent_part_index: None,
        texture_index: 0,
        vertices: vec![Vertex {
            position_bits: [bits(0.0), bits(0.0)],
            uv_bits: [bits(0.0), bits(0.0)],
        }],
        indices: vec![0],
        visible: true,
        opacity_bits: bits(1.0),
        blend_mode: BlendMode::Normal,
        clipping,
    }
}

fn drawable_with_shape(id: &str, render_order: i32, vertex_count: usize, index_count: usize) -> Drawable {
    Drawable {
        id: DrawableId::from(id),
        render_order,
        parent_part_index: None,
        texture_index: 0,
        vertices: (0..vertex_count)
            .map(|index| Vertex {
                position_bits: [bits(index as f32), bits(0.0)],
                uv_bits: [bits(0.0), bits(0.0)],
            })
            .collect(),
        indices: (0..index_count).map(|index| index as u16).collect(),
        visible: true,
        opacity_bits: bits(1.0),
        blend_mode: BlendMode::Normal,
        clipping: None,
    }
}

fn snapshot(drawables: Vec<Drawable>) -> ModelSnapshot {
    ModelSnapshot {
        model_key: "sample".into(),
        canvas: CanvasInfo::default(),
        art_meshes: Vec::new(),
        textures: Vec::new(),
        drawables,
        offscreens: Vec::new(),
        render_objects: Vec::new(),
        part_parent_indices: Vec::new(),
    }
}

fn clip(ids: &[&str], inverted: bool) -> Option<ClippingInfo> {
    Some(ClippingInfo {
        drawable_ids: ids.iter().map(|id| DrawableId::from(*id)).collect(),
        inverted,
    })
}

fn offscreen_zero() -> Offscreen {
    Offscreen {
        index: 0,
        render_order: 1,
        owner_part_index: Some(0),
        opacity_bits: bits(1.0),
        blend_mode: BlendMode::Normal,
        clipping: None,
    }
}

fn draw_ids(draws: &[DrawCommand]) -> Vec<&str> {
    draws.iter().map(|draw| draw.drawable_id.as_str()).collect()
}

#[test]
fn builds_draws_in_render_order() {
    let mut snapshot = snapshot(vec![drawable("b", 20, None), drawable("a", 10, None)]);
    snapshot.textures = vec![TextureAsset {
        width: 1,
        height: 1,
        rgba: vec![255, 255, 255, 255],
    }];

    let plan = RenderPlanner::new().build(&snapshot);

    assert_eq!(draw_ids(&plan.draws), ["a", "b"]);
}

#[test]
fn render_commands_wrap_drawables_in_owner_offscreen_order() {
    let body = drawable("body", 0, None);
    let mut arm = drawable("arm", 2, None);
    arm.parent_part_index = Some(0);
    let mut sleeve = drawable("sleeve", 3, None);
    sleeve.parent_part_index = Some(1);
    let outside = drawable("outside", 4, None);
    let mut snapshot = snapshot(vec![body, arm, sleeve, outside]);
    snapshot.offscreens = vec![offscreen_zero()];
    snapshot.render_objects = vec![
        RenderObject::Drawable(DrawableId::from("body")),
        RenderObject::Offscreen(0),
        RenderObject::Drawable(DrawableId::from("arm")),
        RenderObject::Drawable(DrawableId::from("sleeve")),
        RenderObject::Drawable(DrawableId::from("outside")),
    ];
    snapshot.part_parent_indices = vec![None, Some(0)];

    let plan = RenderPlanner::new().build(&snapshot);

    assert_eq!(
        plan.commands,
        vec![
            RenderCommand::Draw { draw_index: 0 },
            RenderCommand::BeginOffscreen { offscreen_index: 0 },
            RenderCommand::Draw { draw_index: 1 },
            RenderCommand::Draw { draw_index: 2 },
            RenderCommand::CompositeOffscreen { offscreen_index: 0 },
            RenderCommand::Draw { draw_index: 3 },
        ]
    );
}

#[test]
fn allocates_mask_passes_for_clipped_drawables() {
    let snapshot = snapshot(vec![
        drawable("mask", 0, None),
        drawable("masked", 1, clip(&["mask"], true)),
    ]);

    let plan = RenderPlanner::new().build(&snapshot);

    assert_eq!(plan.masks.len(), 1);
    assert_eq!(plan.draws[1].mask, Some(MaskRef(0)));
    assert!(plan.masks[0].inverted);
    assert!(plan.draws[1].inverted_mask);
}

#[test]
fn visible_translucent_drawable_stays_in_main_draws() {
    let mut snapshot = snapshot(vec![drawable("half", 0, None)]);
    snapshot.drawables[0].opacity_bits = bits(0.35);

    let plan = RenderPlanner::new().build(&snapshot);

    assert_eq!(plan.draws.len(), 1);
    assert_eq!(plan.draws[0].drawable_id.as_str(), "half");
    assert_eq!(f32::from_bits(plan.draws[0].opacity_bits), 0.35);
    assert_eq!(plan.model.drawables.len(), 1);
}

#[test]
fn transparent_unreferenced_drawables_are_not_resident() {
    let mut hidden = drawable("hidden", 0, None);
    hidden.visible = false;
    let mut zero_alpha = drawable("zero", 1, None);
    zero_alpha.opacity_bits = bits(0.0);
    let snapshot = snapshot(vec![hidden, zero_alpha, drawable("visible", 2, None)]);

    let plan = RenderPlanner::new().build(&snapshot);

    assert_eq!(plan.model.drawables.len(), 1);
    assert_eq!(plan.model.drawables[0].drawable_id.as_str(), "visible");
    assert!(plan.mask_draws.is_empty());
    assert_eq!(plan.draws.len(), 1);
    assert_eq!(plan.draws[0].drawable_id.as_str(), "visible");
}

#[test]
fn transparent_mask_source_is_resident_but_not_main_drawn() {
    let mut mask = drawable("mask", 0, None);
    mask.visible = false;
    let snapshot = snapshot(vec![mask, drawable("masked", 1, clip(&["mask"], false))]);

    let plan = RenderPlanner::new().build(&snapshot);
    let resident_ids = plan
        .model
        .drawables
        .iter()
        .map(|drawable| drawable.drawable_id.as_str())
        .collect::<Vec<_>>();

    assert_eq!(resident_ids, ["mask", "masked"]);
    assert_eq!(draw_ids(&plan.draws), ["masked"]);
    assert_eq!(draw_ids(&plan.mask_draws), ["mask"]);
    assert_eq!(plan.masks[0].drawable_ids, vec![DrawableId::from("mask")]);
}

#[test]
fn shares_mask_passes_for_matching_clip_groups() {
    let snapshot = snapshot(vec![
        drawable("mask", 0, None),
        drawable("masked-a", 1, clip(&["mask"], false)),
        drawable("masked-b", 2, clip(&["mask"], false)),
    ]);

    let plan = RenderPlanner::new().build(&snapshot);

    assert_eq!(plan.masks.len(), 1);
    assert_eq!(plan.draws[1].mask, Some(MaskRef(0)));
    assert_eq!(plan.draws[2].mask, Some(MaskRef(0)));
}

#[test]
fn packs_drawable_ranges_once_and_draws_in_render_order() {
    let snapshot = snapshot(vec![
        drawable_with_shape("b", 20, 2, 3),
        drawable_with_shape("a", 10, 3, 6),
    ]);

    let plan = RenderPlanner::new().build(&snapshot);

    assert_eq!(plan.model.vertex_count, 5);
    assert_eq!(plan.model.index_count, 9);
    assert_eq!(plan.model.drawables[0].drawable_id.as_str(), "b");
    assert_eq!(plan.model.drawables[0].ranges.vertex_range, 0..2);
    assert_eq!(plan.model.drawables[0].ranges.index_range, 0..3);
    assert_eq!(plan.model.drawables[1].drawable_id.as_str(), "a");
    assert_eq!(plan.model.drawables[1].ranges.vertex_range, 2..5);
    assert_eq!(plan.model.drawables[1].ranges.index_range, 3..9);
    assert_eq!(draw_ids(&plan.draws), ["a", "b"]);
    assert_eq!(plan.draws[0].vertex_range, 2..5);
    assert_eq!(plan.draws[0].index_range, 3..9);
    assert_eq!(plan.draws[1].vertex_range, 0..2);
    assert_eq!(plan.draws[1].index_range, 0..3);
}

#[test]
fn render_world_matches_planner_and_refreshes_render_order() {
    let mut snapshot = snapshot(vec![drawable("b", 20, None), drawable("a", 10, None)]);
    let mut world = RenderWorld::new();

    assert_eq!(world.build(&snapshot), RenderPlanner::new().build(&snapshot));

    snapshot.drawables[0].render_order = 0;
    snapshot.drawables[1].render_order = 30;
    let plan = world.build(&snapshot);

    assert_eq!(draw_ids(&plan.draws), ["b", "a"]);
}

#[test]
fn render_world_refreshes_offscreen_commands_when_object_order_changes() {
    let mut arm = drawable("arm", 2, None);
    arm.parent_part_index = Some(0);
    let mut snapshot = snapshot(vec![drawable("body", 0, None), arm, drawable("outside", 3, None)]);
    snapshot.offscreens = vec![offscreen_zero()];
    snapshot.render_objects = vec![
        RenderObject::Drawable(DrawableId::from("body")),
        RenderObject::Offscreen(0),
        RenderObject::Drawable(DrawableId::from("arm")),
        RenderObject::Drawable(DrawableId::from("outside")),
    ];
    snapshot.part_parent_indices = vec![None];
    let mut world = RenderWorld::new();

    assert_eq!(
        world.build(&snapshot).commands,
        vec![
            RenderCommand::Draw { draw_index: 0 },
            RenderCommand::BeginOffscreen { offscreen_index: 0 },
            RenderCommand::Draw { draw_index: 1 },
            RenderCommand::CompositeOffscreen { offscreen_index: 0 },
            RenderCommand::Draw { draw_index: 2 },
        ]
    );

    let mut moved = snapshot;
    moved.render_objects = vec![
        RenderObject::Drawable(DrawableId::from("body")),
        RenderObject::Drawable(DrawableId::from("outside")),
        RenderObject::Offscreen(0),
        RenderObject::Drawable(DrawableId::from("arm")),
    ];

    assert_eq!(
        world.build(&moved).commands,
        vec![
            RenderCommand::Draw { draw_index: 0 },
            RenderCommand::Draw { draw_index: 2 },
            RenderCommand::BeginOffscreen { offscreen_index: 0 },
            RenderCommand::Draw { draw_index: 1 },
            RenderCommand::CompositeOffscreen { offscreen_index: 0 },
        ]
    );
}

#[test]
fn render_world_rebuilds_when_opacity_crosses_draw_threshold() {
    let mut snapshot = snapshot(vec![drawable("fading", 0, None), drawable("visible", 1, None)]);
    let mut world = RenderWorld::new();

    assert_eq!(world.build(&snapshot).model.drawables.len(), 2);

    snapshot.drawables[0].opacity_bits = bits(0.0);
    let plan = world.build(&snapshot);

    assert_eq!(plan, RenderPlanner::new().build(&snapshot));
    assert_eq!(plan.model.drawables.len(), 1);
    assert_eq!(plan.draws[0].drawable_id.as_str(), "visible");
}

#[test]
fn render_world_rebuilds_when_resident_mask_source_becomes_drawable() {
    let mut mask_source = drawable("mask-source", 1, clip(&["mask"], false));
    mask_source.opacity_bits = bits(0.0);
    let masked = drawable("masked", 2, clip(&["mask", "mask-source"], false));
    let mut mask = drawable("mask", 0, None);
    mask.visible = false;
    let mut snapshot = snapshot(vec![mask, mask_source, masked]);
    let mut world = RenderWorld::new();

    assert_eq!(world.build(&snapshot).draws.len(), 1);

    snapshot.drawables[1].opacity_bits = bits(1.0);
    let plan = world.build(&snapshot);

    assert_eq!(plan, RenderPlanner::new().build(&snapshot));
    assert_eq!(plan.draws.len(), 2);
    assert_eq!(plan.masks.len(), 2);
}

#[test]
fn render_world_retains_multiple_model_caches() {
    let mut model_a = snapshot(vec![drawable("a", 0, None), drawable("b", 1, None)]);
    model_a.model_key = "model-a".into();
    let mut model_b = snapshot(vec![drawable("a", 0, None), drawable("b", 1, None)]);
    model_b.model_key = "model-b".into();
    let mut world = RenderWorld::new();

    assert_eq!(world.build(&model_a), RenderPlanner::new().build(&model_a));
    assert_eq!(world.build(&model_b), RenderPlanner::new().build(&model_b));
    assert_eq!(world.cache_count(), 2);

    model_a.drawables[0].render_order = 2;
    model_a.drawables[1].render_order = 1;
    let plan = world.build(&model_a);

    assert_eq!(world.cache_count(), 2);
    assert_eq!(draw_ids(&plan.draws), ["b", "a"]);
}

#[derive(Default)]
struct RecordingBackend {
    events: Vec<Event>,
}

impl Live2DRenderBackend for RecordingBackend {
    fn begin_model(&mut self, ctx: &ModelRenderCtx) {
        self.events.push(Event::BeginModel {
            vertices: ctx.vertex_count,
            indices: ctx.index_count,
        });
    }

    fn begin_clip_masks(&mut self, masks: &[MaskPass]) {
        self.events.push(Event::BeginClipMasks(masks.len()));
    }

    fn begin_clip_mask(&mut self, mask: &MaskPass) {
        self.events.push(Event::BeginClipMask {
            id: mask.id,
            inverted: mask.inverted,
        });
    }

    fn draw_mask_drawable(&mut self, mask: &MaskPass, call: &DrawCommand) {
        self.events.push(Event::MaskDrawable {
            mask: mask.id,
            drawable: call.drawable_id.clone(),
        });
    }

    fn end_clip_mask(&mut self, mask: &MaskPass) {
        self.events.push(Event::EndClipMask(mask.id));
    }

    fn end_clip_masks(&mut self) {}

    fn begin_main_pass(&mut self) {
        self.events.push(Event::BeginMainPass);
    }

    fn draw_drawable(&mut self, call: &DrawCommand) {
        self.events.push(Event::Draw(call.drawable_id.clone()));
    }

    fn end_model(&mut self) {
        self.events.push(Event::EndModel);
    }
}

#[derive(Debug, PartialEq)]
enum Event {
    BeginModel { vertices: u32, indices: u32 },
    BeginClipMasks(usize),
    BeginClipMask { id: MaskRef, inverted: bool },
    MaskDrawable { mask: MaskRef, drawable: DrawableId },
    EndClipMask(MaskRef),
    BeginMainPass,
    Draw(DrawableId),
    EndModel,
}

#[test]
fn dispatches_clip_masks_before_main_draws() {
    let snapshot = snapshot(vec![
        drawable("mask", 0, None),
        drawable("masked", 1, clip(&["mask"], false)),
    ]);
    let plan = RenderPlanner::new().build(&snapshot);
    let mut backend = RecordingBackend::default();

    plan.dispatch(&mut backend);

    assert_eq!(
        backend.events,
        vec![
            Event::BeginModel {
                vertices: 2,
                indices: 2,
            },
            Event::BeginClipMasks(1),
            Event::BeginClipMask {
                id: MaskRef(0),
                inverted: false,
            },
            Event::MaskDrawable {
                mask: MaskRef(0),
                drawable: DrawableId::from("mask"),
            },
            Event::EndClipMask(MaskRef(0)),
            Event::BeginMainPass,
            Event::Draw(DrawableId::from("mask")),
            Event::Draw(DrawableId::from("masked")),
            Event::EndModel,
        ]
    );
}

#[test]
fn counting_backend_counts_each_kind_of_call() {
    let snapshot = snapshot(vec![
        drawable("mask", 0, None),
        drawable("masked", 1, clip(&["mask"], false)),
    ]);
    let plan = RenderPlanner::new().build(&snapshot);
    let mut backend = CountingBackend::default();

    plan.dispatch(&mut backend);
    assert_eq!(
        backend,
        CountingBackend {
            begin_models: 1,
            mask_passes: 1,
            mask_draws: 1,
            main_draws: 2,
        }
    );

    plan.dispatch(&mut backend);
    assert_eq!(
        backend,
        CountingBackend {
            begin_models: 2,
            mask_passes: 2,
            mask_draws: 2,
            main_draws: 4,
        }
    );
}

fn clip_swap_snapshot() -> ModelSnapshot {
    snapshot(vec![
        drawable("m1", 0, None),
        drawable("m2", 1, None),
        drawable("x", 2, clip(&["m1"], false)),
        drawable("y", 3, clip(&["m2"], false)),
    ])
}

#[test]
fn render_world_renumbers_masks_when_clip_groups_swap_order() {
    let mut snapshot = clip_swap_snapshot();
    let mut world = RenderWorld::new();
    assert_eq!(world.build_with_mask_refresh(&snapshot), RenderPlanner::new().build(&snapshot));

    snapshot.drawables[2].render_order = 3;
    snapshot.drawables[3].render_order = 2;
    let plan = world.build_with_mask_refresh(&snapshot);

    assert_eq!(plan, RenderPlanner::new().build(&snapshot));
    assert_eq!(plan.masks[0].drawable_ids, vec![DrawableId::from("m2")]);
    assert_eq!(plan.masks[1].drawable_ids, vec![DrawableId::from("m1")]);
    assert_eq!(draw_ids(&plan.draws), ["m1", "m2", "y", "x"]);
}

#[test]
fn render_world_build_keeps_mask_numbering_when_clip_groups_swap_order() {
    let mut snapshot = clip_swap_snapshot();
    let mut world = RenderWorld::new();
    world.build(&snapshot);

    snapshot.drawables[2].render_order = 3;
    snapshot.drawables[3].render_order = 2;
    let plan = world.build(&snapshot);

    assert_eq!(plan.masks[0].drawable_ids, vec![DrawableId::from("m1")]);
    assert_eq!(plan.masks[1].drawable_ids, vec![DrawableId::from("m2")]);
    assert_eq!(draw_ids(&plan.draws), ["m1", "m2", "y", "x"]);
}

#[test]
fn unreached_part_cycle_still_plans() {
    let mut snapshot = snapshot(vec![drawable("a", 0, None)]);
    snapshot.offscreens = vec![Offscreen {
        index: 0,
        render_order: 0,
        owner_part_index: None,
        opacity_bits: bits(1.0),
        blend_mode: BlendMode::Normal,
        clipping: None,
    }];
    snapshot.render_objects = vec![
        RenderObject::Offscreen(0),
        RenderObject::Drawable(DrawableId::from("a")),
    ];
    snapshot.part_parent_indices = vec![Some(0)];
    assert!(is_plannable(&snapshot));
    assert_eq!(
        RenderPlanner::new().build(&snapshot).commands,
        vec![
            RenderCommand::BeginOffscreen { offscreen_index: 0 },
            RenderCommand::CompositeOffscreen { offscreen_index: 0 },
            RenderCommand::Draw { draw_index: 0 },
        ]
    );
}

#[test]
fn part_cycle_on_a_walk_is_not_plannable() {
    let mut a = drawable("a", 0, None);
    a.parent_part_index = Some(0);
    let mut snapshot = snapshot(vec![a]);
    snapshot.offscreens = vec![Offscreen {
        index: 0,
        render_order: 0,
        owner_part_index: Some(1),
        opacity_bits: bits(1.0),
        blend_mode: BlendMode::Normal,
        clipping: None,
    }];
    snapshot.render_objects = vec![
        RenderObject::Offscreen(0),
        RenderObject::Drawable(DrawableId::from("a")),
    ];
    snapshot.part_parent_indices = vec![Some(0), None];
    assert!(!is_plannable(&snapshot));
}
