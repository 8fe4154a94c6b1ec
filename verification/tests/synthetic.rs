use live2d::gpu::{alpha_blend_code, color_blend_code};
use live2d::model::{AlphaBlendMode, BlendMode, ColorBlendMode, DrawableId};
use live2d::synthetic::{
    blend_coverage_for_drawables, drawable_name, missing_ids, synthetic_clipping, target_drawable_names, synthetic_blend_mode, synthetic_indices,
    synthetic_textures, target_drawable_count, uses_synthetic_config,
    value_arg, BlendCoverage, RealModelRenderConfig, SyntheticBlendProfile, ALPHA_BLEND_MODE_COUNT,
    COLOR_BLEND_MODE_COUNT,
};

#[test]
fn classic_mix_matches_pre_blend_support_distribution() {
    let coverage = blend_coverage_for_drawables(SyntheticBlendProfile::ClassicMix, 22);

    assert_eq!(coverage.additive, 2);
    assert_eq!(coverage.multiplicative, 2);
    assert_eq!(coverage.normal, 18);
    assert_eq!(coverage.advanced, 0);
}

#[test]
fn advanced_matrix_covers_every_advanced_combination() {
    let coverage = blend_coverage_for_drawables(
        SyntheticBlendProfile::AdvancedMatrix,
        SyntheticBlendProfile::AdvancedMatrix.minimum_coverage_drawables(),
    );

    assert_eq!(
        coverage.advanced,
        COLOR_BLEND_MODE_COUNT * ALPHA_BLEND_MODE_COUNT
    );
    assert_eq!(coverage.advanced_color_modes, COLOR_BLEND_MODE_COUNT);
    assert_eq!(coverage.advanced_alpha_modes, ALPHA_BLEND_MODE_COUNT);
    assert_eq!(
        coverage.normal + coverage.additive + coverage.multiplicative,
        0
    );
}

#[test]
fn all_modes_covers_classic_and_advanced_modes() {
    let coverage = blend_coverage_for_drawables(
        SyntheticBlendProfile::AllModes,
        SyntheticBlendProfile::AllModes.minimum_coverage_drawables(),
    );

    assert_eq!(coverage.normal, 1);
    assert_eq!(coverage.additive, 1);
    assert_eq!(coverage.multiplicative, 1);
    assert_eq!(
        coverage.advanced,
        COLOR_BLEND_MODE_COUNT * ALPHA_BLEND_MODE_COUNT
    );
    assert_eq!(coverage.advanced_color_modes, COLOR_BLEND_MODE_COUNT);
    assert_eq!(coverage.advanced_alpha_modes, ALPHA_BLEND_MODE_COUNT);
}

#[test]
fn profiles_parse_their_own_names() {
    for profile in [
        SyntheticBlendProfile::ClassicMix,
        SyntheticBlendProfile::AdvancedColors,
        SyntheticBlendProfile::AdvancedAlphas,
        SyntheticBlendProfile::AdvancedMatrix,
        SyntheticBlendProfile::AllModes,
    ] {
        assert_eq!(SyntheticBlendProfile::parse(profile.as_str()), Some(profile));
    }
    assert_eq!(SyntheticBlendProfile::parse("classic"), None);
    assert_eq!(SyntheticBlendProfile::default(), SyntheticBlendProfile::ClassicMix);
}

#[test]
fn minimum_coverage_drawables_per_profile() {
    assert_eq!(SyntheticBlendProfile::ClassicMix.minimum_coverage_drawables(), 0);
    assert_eq!(SyntheticBlendProfile::AdvancedColors.minimum_coverage_drawables(), 16);
    assert_eq!(SyntheticBlendProfile::AdvancedAlphas.minimum_coverage_drawables(), 5);
    assert_eq!(SyntheticBlendProfile::AdvancedMatrix.minimum_coverage_drawables(), 80);
    assert_eq!(SyntheticBlendProfile::AllModes.minimum_coverage_drawables(), 83);
}

#[test]
fn advanced_matrix_gives_drawable_color_major_pairs() {
    match synthetic_blend_mode(SyntheticBlendProfile::AdvancedMatrix, 6 * 5 + 3) {
        BlendMode::Advanced { color, alpha } => {
            assert_eq!(color_blend_code(color), 8);
            assert_eq!(alpha_blend_code(alpha), 3);
        }
        other => panic!("unexpected mode {other:?}"),
    }
    assert_eq!(
        synthetic_blend_mode(SyntheticBlendProfile::AdvancedMatrix, 80),
        synthetic_blend_mode(SyntheticBlendProfile::AdvancedMatrix, 0)
    );
    assert_eq!(
        synthetic_blend_mode(SyntheticBlendProfile::AllModes, 3),
        BlendMode::Advanced {
            color: ColorBlendMode::Normal,
            alpha: AlphaBlendMode::Over,
        }
    );
}

#[test]
fn coverage_counters_name_each_count() {
    let coverage = blend_coverage_for_drawables(SyntheticBlendProfile::AdvancedColors, 20);
    let counters = coverage.as_counter_values();
    assert_eq!(counters[3], ("blend_advanced_draws", 20));
    assert_eq!(counters[4], ("blend_advanced_color_modes", 16));
    assert_eq!(counters[5], ("blend_advanced_alpha_modes", 1));
    let empty = BlendCoverage::empty();
    assert_eq!(empty.as_counter_values()[0], ("blend_normal_draws", 0));
}

#[test]
fn real_model_render_config_keeps_at_least_one_frame_and_pixel() {
    let config = RealModelRenderConfig::new(0, 3, 0, 480, None);
    assert_eq!(config.frames, 1);
    assert_eq!(config.warmup_frames, 3);
    assert_eq!(config.width, 1);
    assert_eq!(config.height, 480);
    assert_eq!(config.motion_group, None);
}

#[test]
fn synthetic_indices_cycle_through_vertices() {
    assert_eq!(synthetic_indices(5, 2), vec![0, 1, 0, 1, 0]);
    assert_eq!(synthetic_indices(0, 0), vec![0]);
}

#[test]
fn value_arg_takes_the_value_after_the_first_flag() {
    let args: Vec<String> = ["--frames", "10", "--frames", "20", "--out"]
        .iter()
        .map(|s| s.to_string())
        .collect();
    assert_eq!(value_arg(&args, "--frames"), Some("10".to_string()));
    assert_eq!(value_arg(&args, "--out"), None);
    assert!(uses_synthetic_config("wgpu-mask"));
    assert!(!uses_synthetic_config("real-model-render"));
}

#[test]
fn synthetic_textures_follow_their_pattern() {
    let textures = synthetic_textures(2, 2);
    assert_eq!(textures.len(), 2);
    assert_eq!(textures[1].width, 2);
    assert_eq!(textures[1].rgba.len(), 16);
    assert_eq!(&textures[1].rgba[..8], &[1, 0, 31, 255, 2, 0, 31, 255]);
    assert_eq!(&textures[1].rgba[8..12], &[3, 1, 31, 255]);
    let single = synthetic_textures(0, 0);
    assert_eq!(single.len(), 1);
    assert_eq!(single[0].rgba, vec![0, 0, 0, 255]);
}

#[test]
fn target_drawables_include_coverage_modes() {
    let drawables = SyntheticBlendProfile::AllModes.minimum_coverage_drawables();
    assert_eq!(
        target_drawable_count(4, SyntheticBlendProfile::AllModes, drawables),
        SyntheticBlendProfile::AllModes.minimum_coverage_drawables()
    );
    assert_eq!(target_drawable_count(4, SyntheticBlendProfile::ClassicMix, 2), 2);
}

#[test]
fn missing_ids_keep_unknown_ones_in_order() {
    let ids: Vec<String> = ["ParamA", "ParamB", "ParamC"].iter().map(|s| s.to_string()).collect();
    assert_eq!(missing_ids(&ids, &["ParamB"]), vec!["ParamA".to_string(), "ParamC".to_string()]);
    assert!(missing_ids(&ids, &["ParamA", "ParamB", "ParamC"]).is_empty());
}

#[test]
fn advanced_matrix_run_holds_each_pair_once() {
    let run = COLOR_BLEND_MODE_COUNT * ALPHA_BLEND_MODE_COUNT;
    let modes: Vec<BlendMode> = (0..run)
        .map(|i| synthetic_blend_mode(SyntheticBlendProfile::AdvancedMatrix, i))
        .collect();
    for i in 0..run {
        for j in (i + 1)..run {
            assert_ne!(modes[i], modes[j]);
        }
        assert_eq!(
            synthetic_blend_mode(SyntheticBlendProfile::AdvancedMatrix, i + run),
            modes[i]
        );
    }
}

#[test]
fn synthetic_names_pad_to_four_digits() {
    assert_eq!(drawable_name(0), "drawable_0000");
    assert_eq!(drawable_name(42), "drawable_0042");
    assert_eq!(drawable_name(12345), "drawable_12345");
    assert_eq!(
        target_drawable_names(2, SyntheticBlendProfile::ClassicMix, 32),
        vec!["drawable_0000", "drawable_0001"]
    );
}

#[test]
fn synthetic_clips_rotate_through_mask_groups() {
    assert!(synthetic_clipping(1, 2, 2).is_none());
    assert!(synthetic_clipping(5, 0, 2).is_none());
    let clip = synthetic_clipping(5, 2, 2).unwrap();
    assert_eq!(
        clip.drawable_ids,
        vec![DrawableId::from("drawable_0001"), DrawableId::from("drawable_0000")]
    );
    assert!(!clip.inverted);
    let clip = synthetic_clipping(6, 3, 0).unwrap();
    assert_eq!(clip.drawable_ids, vec![DrawableId::from("drawable_0000")]);
    assert!(clip.inverted);
}
