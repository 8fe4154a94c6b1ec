use live2d::gpu::{
    live2d_blend_state, BlendComponent, BlendFactor, BlendOperation,
    align_to, alpha_blend_code, blend_uniform, color_blend_code, fragment_entry_point, mix_str,
    mix_u64, pipeline_blend_mode, post_process_steps, PipelineBlendMode, ShaderVariant, WgpuPostProcessDestination,
    WgpuPostProcessSource, WgpuPostProcessStep, WgpuTextureSampling,
};
use live2d::gpu_mask::{mask_layout_better, mask_layout_score};
use live2d::model::{AlphaBlendMode, BlendMode, ColorBlendMode};

#[test]
fn post_process_steps_skip_work_for_empty_chain() {
    assert!(post_process_steps(0).is_empty());
}

#[test]
fn post_process_steps_write_single_pass_to_final_target() {
    assert_eq!(
        post_process_steps(1),
        vec![WgpuPostProcessStep {
            source: WgpuPostProcessSource::Scene,
            target: WgpuPostProcessDestination::Final,
        }]
    );
}

#[test]
fn post_process_steps_use_ping_pong_for_multi_pass_chain() {
    assert_eq!(
        post_process_steps(4),
        vec![
            WgpuPostProcessStep {
                source: WgpuPostProcessSource::Scene,
                target: WgpuPostProcessDestination::PingPong(0),
            },
            WgpuPostProcessStep {
                source: WgpuPostProcessSource::PingPong(0),
                target: WgpuPostProcessDestination::PingPong(1),
            },
            WgpuPostProcessStep {
                source: WgpuPostProcessSource::PingPong(1),
                target: WgpuPostProcessDestination::PingPong(0),
            },
            WgpuPostProcessStep {
                source: WgpuPostProcessSource::PingPong(0),
                target: WgpuPostProcessDestination::Final,
            },
        ]
    );
}

#[test]
fn post_process_steps_chain_each_read_to_previous_write() {
    let steps = post_process_steps(5);
    for index in 1..steps.len() {
        match (steps[index - 1].target, steps[index].source) {
            (WgpuPostProcessDestination::PingPong(w), WgpuPostProcessSource::PingPong(r)) => {
                assert_eq!(w, r)
            }
            other => panic!("unexpected step pair {other:?}"),
        }
    }
    assert_eq!(steps[4].target, WgpuPostProcessDestination::Final);
}

#[test]
fn align_to_rounds_uniform_stride_to_required_boundary() {
    assert_eq!(align_to(80, 256), 256);
    assert_eq!(align_to(512, 256), 512);
}

#[test]
fn align_to_keeps_zero_and_handles_unit_alignment() {
    assert_eq!(align_to(0, 256), 0);
    assert_eq!(align_to(77, 1), 77);
    assert_eq!(align_to(257, 256), 512);
}

#[test]
fn texture_sampling_modes_number_and_bind_as_documented() {
    assert_eq!(WgpuTextureSampling::Nearest.shader_mode(), 0);
    assert_eq!(WgpuTextureSampling::Linear.shader_mode(), 1);
    assert_eq!(WgpuTextureSampling::Cubic.shader_mode(), 2);
    assert_eq!(
        WgpuTextureSampling::Cubic.bind_group_sampling(),
        WgpuTextureSampling::Linear
    );
    assert_eq!(
        WgpuTextureSampling::Nearest.bind_group_sampling(),
        WgpuTextureSampling::Nearest
    );
    assert_eq!(WgpuTextureSampling::default(), WgpuTextureSampling::Linear);
}

#[test]
fn blend_codes_round_trip_through_cubism_values() {
    for value in 3..=17 {
        let color = ColorBlendMode::from_cubism_color_blend_type(value);
        assert_eq!(color_blend_code(color) as i32, value);
    }
    for value in 0..=4 {
        let alpha = AlphaBlendMode::from_cubism_alpha_blend_type(value);
        assert_eq!(alpha_blend_code(alpha) as i32, value);
    }
}

#[test]
fn advanced_blend_uniform_carries_both_codes() {
    let uniform = blend_uniform(BlendMode::Advanced {
        color: ColorBlendMode::Multiply,
        alpha: AlphaBlendMode::ConjointOver,
    });
    assert_eq!(uniform[0], 6);
    assert_eq!(uniform[1], 3);
    assert_eq!(
        pipeline_blend_mode(BlendMode::Multiplicative),
        PipelineBlendMode::Multiplicative
    );
}

#[test]
fn mixing_values_changes_the_signature() {
    let mut a = 0u64;
    mix_u64(&mut a, 1);
    let mut b = 0u64;
    mix_u64(&mut b, 2);
    assert_ne!(a, b);
    let mut s = 0u64;
    mix_str(&mut s, "tone");
    let mut t = 0u64;
    mix_str(&mut t, "blur");
    assert_ne!(s, t);
}

#[test]
fn shader_variants_name_their_fragment_entry_points() {
    assert_eq!(fragment_entry_point(ShaderVariant::DefaultMesh), "fs_main");
    assert_eq!(fragment_entry_point(ShaderVariant::AdvancedBlend), "fs_blend");
    assert_eq!(fragment_entry_point(ShaderVariant::MaskWriter), "fs_mask");
}

fn assert_blend_component(component: BlendComponent, src_factor: BlendFactor, dst_factor: BlendFactor) {
    assert_eq!(component.src_factor, src_factor);
    assert_eq!(component.dst_factor, dst_factor);
    assert_eq!(component.operation, BlendOperation::Add);
}

#[test]
fn legacy_blend_states_use_premultiplied_cubism_factors() {
    let normal = live2d_blend_state(PipelineBlendMode::Normal);
    assert_blend_component(normal.color, BlendFactor::One, BlendFactor::OneMinusSrcAlpha);
    assert_blend_component(normal.alpha, BlendFactor::One, BlendFactor::OneMinusSrcAlpha);

    let additive = live2d_blend_state(PipelineBlendMode::Additive);
    assert_blend_component(additive.color, BlendFactor::One, BlendFactor::One);
    assert_blend_component(additive.alpha, BlendFactor::Zero, BlendFactor::One);

    let multiplicative = live2d_blend_state(PipelineBlendMode::Multiplicative);
    assert_blend_component(multiplicative.color, BlendFactor::Dst, BlendFactor::OneMinusSrcAlpha);
    assert_blend_component(multiplicative.alpha, BlendFactor::Zero, BlendFactor::One);
}

#[test]
fn advanced_blend_state_replaces_the_target() {
    let advanced = live2d_blend_state(PipelineBlendMode::Advanced);
    assert_blend_component(advanced.color, BlendFactor::One, BlendFactor::Zero);
    assert_blend_component(advanced.alpha, BlendFactor::One, BlendFactor::Zero);
}

fn atlas(slot_width: u32, slot_height: u32, rows: usize) -> live2d::gpu_mask::MaskAtlasLayout {
    live2d::gpu_mask::MaskAtlasLayout {
        width: slot_width,
        height: slot_height * rows as u32,
        slot_width,
        slot_height,
        columns: 1,
        rows,
        slots: rows,
    }
}

#[test]
fn mask_layouts_rank_by_area_then_shorter_side_then_rows() {
    let score = mask_layout_score(atlas(100, 50, 2));
    assert_eq!((score.slot_area, score.shorter_side, score.rows), (5000, 50, 2));
    assert!(mask_layout_better(atlas(100, 60, 4), atlas(100, 50, 1)));
    assert!(mask_layout_better(atlas(70, 70, 4), atlas(98, 50, 1)));
    assert!(mask_layout_better(atlas(50, 100, 1), atlas(100, 50, 2)));
    assert!(!mask_layout_better(atlas(100, 50, 2), atlas(100, 50, 2)));
}
