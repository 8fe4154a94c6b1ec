use live2d::gpu::{GpuUploadPlan, PositionUpload};
use live2d::gpu_mask::{
    buffer_size, mask_atlas_needs_rebuild, mask_atlas_static_signature, mask_draw_call_count,
    mask_uniform_slots,
    position_uploads_touch_masks, render_plan_has_advanced_blend, uniform_slots, MaskAtlasLayout,
};
use live2d::gpu::{blend_uniform, pipeline_blend_mode, PipelineBlendMode};
use live2d::gpu_scene::{
    f32_bits_equal, gpu_position_upload_plan, gpu_scene_indices, gpu_scene_positions,
    gpu_scene_uvs, padded_index_bytes, scene_topology, texture_topology, GpuPosition,
};
use live2d::model::{
    AlphaBlendMode, BlendMode, CanvasInfo, ClippingInfo, ColorBlendMode, Drawable, DrawableId,
    ModelSnapshot, TextureAsset, Vertex,
};
use live2d::render::RenderPlanner;

fn bits(value: f32) -> u32 {
    value.to_bits()
}

fn vertex(position: [f32; 2], uv: [f32; 2]) -> Vertex {
    Vertex {
        position_bits: [bits(position[0]), bits(position[1])],
        uv_bits: [bits(uv[0]), bits(uv[1])],
    }
}

fn mesh(id: &str, render_order: i32, vertex_count: usize, index_count: usize) -> Drawable {
    Drawable {
        id: DrawableId::from(id),
        render_order,
        parent_part_index: None,
        texture_index: 0,
        vertices: (0..vertex_count)
            .map(|index| vertex([index as f32, index as f32 + 1.0], [0.0, 0.0]))
            .collect(),
        indices: (0..index_count).map(|index| index as u16).collect(),
        visible: true,
        opacity_bits: bits(1.0),
        blend_mode: BlendMode::Normal,
        clipping: None,
    }
}

fn snapshot(drawables: Vec<Drawable>) -> ModelSnapshot {
    ModelSnapshot {
        model_key: "sample".into(),
        canvas: CanvasInfo::default(),
        art_meshes: Vec::new(),
        drawables,
        offscreens: Vec::new(),
        render_objects: Vec::new(),
        part_parent_indices: Vec::new(),
        textures: vec![TextureAsset {
            width: 1,
            height: 1,
            rgba: vec![255, 255, 255, 255],
        }],
    }
}

fn snapshot_with_drawable(vertex_count: usize, index_count: usize) -> ModelSnapshot {
    snapshot(vec![mesh("mesh", 0, vertex_count, index_count)])
}

fn masked_snapshot() -> ModelSnapshot {
    let mut mask = mesh("mask", 0, 1, 1);
    mask.vertices = vec![vertex([0.0, 0.0], [0.0, 0.0])];
    let mut masked = mesh("masked", 1, 1, 1);
    masked.vertices = vec![vertex([1.0, 1.0], [0.0, 0.0])];
    masked.clipping = Some(ClippingInfo {
        drawable_ids: vec![DrawableId::from("mask")],
        inverted: false,
    });
    snapshot(vec![mask, masked])
}

#[test]
fn scene_topology_allows_dynamic_vertex_upload_without_rebuild() {
    let base = snapshot_with_drawable(2, 3);
    let mut next = snapshot_with_drawable(2, 3);
    next.drawables[0].vertices[0].position_bits = [bits(2.0), bits(3.0)];
    let base_plan = RenderPlanner::new().build(&base);
    let next_plan = RenderPlanner::new().build(&next);

    assert_eq!(scene_topology(&base), scene_topology(&next));
    assert_ne!(
        gpu_scene_positions(&base, &base_plan),
        gpu_scene_positions(&next, &next_plan)
    );
    assert_eq!(
        gpu_scene_uvs(&base, &base_plan),
        gpu_scene_uvs(&next, &next_plan)
    );
}

#[test]
fn scene_topology_changes_for_static_gpu_buffer_data() {
    let base = snapshot_with_drawable(2, 3);
    let mut changed_uv = base.clone();
    changed_uv.drawables[0].vertices[0].uv_bits = [bits(0.5), bits(0.25)];
    let mut changed_indices = base.clone();
    changed_indices.drawables[0].indices[0] = 1;

    assert_ne!(scene_topology(&base), scene_topology(&snapshot_with_drawable(3, 3)));
    assert_ne!(scene_topology(&base), scene_topology(&snapshot_with_drawable(2, 4)));
    assert_ne!(scene_topology(&base), scene_topology(&changed_uv));
    assert_ne!(scene_topology(&base), scene_topology(&changed_indices));
}

#[test]
fn texture_topology_is_independent_from_drawable_buffer_shape() {
    let base = snapshot_with_drawable(2, 3);
    let changed_drawable = snapshot_with_drawable(4, 6);

    assert_eq!(texture_topology(&base), texture_topology(&changed_drawable));
}

#[test]
fn texture_topology_changes_for_texture_resource_shape() {
    let base = snapshot_with_drawable(2, 3);
    let mut resized = base.clone();
    resized.textures[0].width = 2;
    resized.textures[0].rgba.resize(2 * 1 * 4, 255);
    let mut changed_bytes = base.clone();
    changed_bytes.textures[0].rgba.push(0);

    assert_ne!(texture_topology(&base), texture_topology(&resized));
    assert_ne!(texture_topology(&base), texture_topology(&changed_bytes));
}

#[test]
fn position_upload_plan_merges_contiguous_dirty_vertices() {
    let base = snapshot(vec![mesh("a", 0, 2, 3), mesh("b", 1, 3, 3)]);
    let mut next = base.clone();
    next.drawables[0].vertices[1].position_bits = [bits(10.0), bits(11.0)];
    next.drawables[1].vertices[0].position_bits = [bits(20.0), bits(21.0)];
    let plan = RenderPlanner::new().build(&base);
    let mut positions = gpu_scene_positions(&base, &plan);
    let upload_plan = gpu_position_upload_plan(&mut positions, &next, &plan);

    assert_eq!(
        upload_plan.uploads,
        vec![PositionUpload {
            vertex_range: 1..3,
            byte_offset: 8,
        }]
    );
    assert_eq!(positions, gpu_scene_positions(&next, &plan));
}

#[test]
fn position_upload_plan_falls_back_to_full_range_when_lengths_differ() {
    let base = snapshot(vec![mesh("a", 0, 2, 3)]);
    let next = snapshot(vec![mesh("a", 0, 3, 3)]);
    let base_plan = RenderPlanner::new().build(&base);
    let next_plan = RenderPlanner::new().build(&next);
    let mut positions = gpu_scene_positions(&base, &base_plan);
    let upload_plan = gpu_position_upload_plan(&mut positions, &next, &next_plan);

    assert_eq!(
        upload_plan.uploads,
        vec![PositionUpload {
            vertex_range: 0..3,
            byte_offset: 0,
        }]
    );
    assert_eq!(positions, gpu_scene_positions(&next, &next_plan));
}

#[test]
fn position_upload_plan_splits_separate_runs_and_keeps_equal_zeros() {
    let base = snapshot(vec![mesh("a", 0, 5, 3)]);
    let mut next = base.clone();
    next.drawables[0].vertices[0].position_bits = [bits(-0.0), bits(1.0)];
    next.drawables[0].vertices[1].position_bits = [bits(9.0), bits(9.0)];
    next.drawables[0].vertices[3].position_bits = [bits(8.0), bits(8.0)];
    next.drawables[0].vertices[4].position_bits = [bits(7.0), bits(7.0)];
    let plan = RenderPlanner::new().build(&base);
    let mut positions = gpu_scene_positions(&base, &plan);
    let upload_plan = gpu_position_upload_plan(&mut positions, &next, &plan);

    assert_eq!(
        upload_plan,
        GpuUploadPlan {
            uploads: vec![
                PositionUpload {
                    vertex_range: 1..2,
                    byte_offset: 8,
                },
                PositionUpload {
                    vertex_range: 3..5,
                    byte_offset: 24,
                },
            ]
        }
    );
    assert_eq!(positions[0].position_bits, [bits(0.0), bits(1.0)]);
    assert_eq!(upload_plan.upload_bytes(), 24);
}

#[test]
fn position_upload_plan_reuploads_everything_when_vertices_disappear() {
    let base = snapshot(vec![mesh("a", 0, 3, 3)]);
    let next = snapshot(vec![mesh("a", 0, 2, 3)]);
    let base_plan = RenderPlanner::new().build(&base);
    let mut positions = gpu_scene_positions(&base, &base_plan);
    let upload_plan = gpu_position_upload_plan(&mut positions, &next, &base_plan);

    assert_eq!(
        upload_plan.uploads,
        vec![PositionUpload {
            vertex_range: 0..2,
            byte_offset: 0,
        }]
    );
    assert_eq!(positions.len(), 2);
}

#[test]
fn float_equality_of_bit_patterns() {
    assert!(f32_bits_equal(bits(0.0), bits(-0.0)));
    assert!(!f32_bits_equal(bits(f32::NAN), bits(f32::NAN)));
    assert!(f32_bits_equal(bits(1.5), bits(1.5)));
    assert!(!f32_bits_equal(bits(1.5), bits(2.5)));
    assert!(
        GpuPosition {
            position_bits: [bits(0.0), bits(1.0)]
        } == GpuPosition {
            position_bits: [bits(-0.0), bits(1.0)]
        }
    );
}

#[test]
fn drawables_without_geometry_add_no_gpu_data() {
    let scene = snapshot(vec![mesh("a", 0, 2, 0), mesh("b", 1, 1, 2)]);
    let plan = RenderPlanner::new().build(&scene);
    assert_eq!(gpu_scene_positions(&scene, &plan).len(), 1);
    assert_eq!(gpu_scene_indices(&scene, &plan), vec![0, 1]);
}

#[test]
fn render_plan_reports_advanced_blend_draws() {
    let mut scene = masked_snapshot();
    scene.drawables[1].blend_mode = BlendMode::Advanced {
        color: ColorBlendMode::Multiply,
        alpha: AlphaBlendMode::Atop,
    };
    let render_plan = RenderPlanner::new().build(&scene);
    let advanced_draw = render_plan
        .draws
        .iter()
        .find(|draw| matches!(draw.blend_mode, BlendMode::Advanced { .. }))
        .expect("advanced drawable is present");

    assert!(render_plan_has_advanced_blend(&render_plan));
    assert_eq!(
        pipeline_blend_mode(advanced_draw.blend_mode),
        PipelineBlendMode::Advanced
    );
    assert_eq!(blend_uniform(advanced_draw.blend_mode), [6, 1, 0, 0]);
    assert!(!render_plan_has_advanced_blend(
        &RenderPlanner::new().build(&masked_snapshot())
    ));
}

#[test]
fn uniform_slots_include_mask_writer_and_main_draws() {
    let render_plan = RenderPlanner::new().build(&masked_snapshot());

    assert_eq!(mask_uniform_slots(&render_plan), 1);
    assert_eq!(uniform_slots(&render_plan), 3);
}

#[test]
fn mask_writer_uniform_slots_track_mask_draws() {
    let mut scene = masked_snapshot();
    let mut extra = mesh("mask_extra", 2, 1, 1);
    extra.vertices = vec![vertex([2.0, 2.0], [0.0, 0.0])];
    scene.drawables.push(extra);
    scene.drawables[1]
        .clipping
        .as_mut()
        .expect("masked drawable has clipping")
        .drawable_ids
        .push(DrawableId::from("mask_extra"));
    let render_plan = RenderPlanner::new().build(&scene);

    assert_eq!(mask_draw_call_count(&render_plan), 2);
    assert_eq!(mask_uniform_slots(&render_plan), 2);
    assert_eq!(uniform_slots(&render_plan), render_plan.draws.len() + 2);
}

#[test]
fn mask_atlas_dirty_ranges_track_only_mask_inputs() {
    let render_plan = RenderPlanner::new().build(&masked_snapshot());

    assert!(position_uploads_touch_masks(
        &[PositionUpload {
            vertex_range: 0..1,
            byte_offset: 0,
        }],
        &render_plan,
    ));
    assert!(!position_uploads_touch_masks(
        &[PositionUpload {
            vertex_range: 1..2,
            byte_offset: 8,
        }],
        &render_plan,
    ));
    assert!(!position_uploads_touch_masks(&[], &render_plan));
}

#[test]
fn mask_atlas_rebuilds_only_when_its_layout_changes() {
    let layout = MaskAtlasLayout {
        width: 200,
        height: 100,
        slot_width: 100,
        slot_height: 50,
        columns: 2,
        rows: 2,
        slots: 3,
    };
    assert!(mask_atlas_needs_rebuild(None, layout));
    assert!(!mask_atlas_needs_rebuild(Some(layout), layout));
    assert!(!mask_atlas_needs_rebuild(Some(MaskAtlasLayout { rows: 3, ..layout }), layout));
    assert!(mask_atlas_needs_rebuild(Some(MaskAtlasLayout { slots: 4, ..layout }), layout));
    assert_eq!(buffer_size(0, 8), 1);
    assert_eq!(buffer_size(3, 8), 24);
}

fn canvas_uniform_bits(canvas: &CanvasInfo) -> [u32; 4] {
    let size = [f32::from_bits(canvas.size_bits[0]), f32::from_bits(canvas.size_bits[1])];
    let origin = [f32::from_bits(canvas.origin_bits[0]), f32::from_bits(canvas.origin_bits[1])];
    let pixels_per_unit = f32::from_bits(canvas.pixels_per_unit_bits).max(0.0001);
    [
        (size[0] / pixels_per_unit).max(0.0001).to_bits(),
        (size[1] / pixels_per_unit).max(0.0001).to_bits(),
        (origin[0] / pixels_per_unit).to_bits(),
        (origin[1] / pixels_per_unit).to_bits(),
    ]
}

fn single_slot_layout() -> MaskAtlasLayout {
    MaskAtlasLayout {
        width: 160,
        height: 120,
        slot_width: 160,
        slot_height: 120,
        columns: 1,
        rows: 1,
        slots: 1,
    }
}

#[test]
fn mask_atlas_signature_ignores_mask_draw_opacity() {
    let base = masked_snapshot();
    let mut changed = base.clone();
    changed.drawables[0].opacity_bits = bits(0.0);
    let base_plan = RenderPlanner::new().build(&base);
    let changed_plan = RenderPlanner::new().build(&changed);
    let transform = [bits(0.0), bits(0.0), bits(1.0), bits(0.0)];
    let canvas = canvas_uniform_bits(&CanvasInfo::default());
    let layout = single_slot_layout();
    assert_eq!(base_plan.masks.len(), 1);

    assert_eq!(
        mask_atlas_static_signature(&base_plan, transform, canvas, layout),
        mask_atlas_static_signature(&changed_plan, transform, canvas, layout)
    );
}

#[test]
fn mask_atlas_signature_tracks_layout_view_and_mask_geometry() {
    let base = masked_snapshot();
    let plan = RenderPlanner::new().build(&base);
    let transform = [bits(0.0), bits(0.0), bits(1.0), bits(0.0)];
    let canvas = canvas_uniform_bits(&CanvasInfo::default());
    let layout = single_slot_layout();
    let signature = mask_atlas_static_signature(&plan, transform, canvas, layout);

    let mut wider = layout;
    wider.width = 320;
    wider.slot_width = 320;
    assert_ne!(signature, mask_atlas_static_signature(&plan, transform, canvas, wider));
    let moved = [bits(0.5), bits(0.0), bits(1.0), bits(0.0)];
    assert_ne!(signature, mask_atlas_static_signature(&plan, moved, canvas, layout));

    let mut grown = base.clone();
    grown.drawables[0].vertices.push(vertex([0.5, 0.5], [0.0, 0.0]));
    let grown_plan = RenderPlanner::new().build(&grown);
    assert_ne!(signature, mask_atlas_static_signature(&grown_plan, transform, canvas, layout));
}

#[test]
fn second_upload_of_the_same_snapshot_writes_nothing() {
    let base = snapshot(vec![mesh("a", 0, 2, 3), mesh("b", 1, 3, 3)]);
    let mut next = base.clone();
    next.drawables[0].vertices[0].position_bits = [bits(4.0), bits(5.0)];
    next.drawables[1].vertices[2].position_bits = [bits(-0.0), bits(6.0)];
    let plan = RenderPlanner::new().build(&base);
    let mut positions = gpu_scene_positions(&base, &plan);
    let first = gpu_position_upload_plan(&mut positions, &next, &plan);
    assert_eq!(first.uploads.len(), 2);
    let settled = positions.clone();
    let second = gpu_position_upload_plan(&mut positions, &next, &plan);
    assert!(second.uploads.is_empty());
    assert_eq!(positions, settled);
    assert_eq!(positions, gpu_scene_positions(&next, &plan));
}

#[test]
fn pads_odd_index_upload_bytes_without_changing_draw_count() {
    let indices = [0_u16, 1, 2];
    let bytes = padded_index_bytes(&indices);
    let raw_bytes: &[u8] = bytemuck::cast_slice(&indices);

    assert_eq!(bytes.len() % wgpu::COPY_BUFFER_ALIGNMENT as usize, 0);
    assert_eq!(
        &bytes[..indices.len() * std::mem::size_of::<u16>()],
        raw_bytes
    );
    assert_eq!(indices.len(), 3);
}
