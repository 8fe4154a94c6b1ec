use live2d::model::{AlphaBlendMode, BlendMode, ColorBlendMode};

#[test]
fn cubism_compatible_blend_modes_map_to_legacy_modes() {
    assert_eq!(BlendMode::from_cubism_blend_mode(0), BlendMode::Normal);
    assert_eq!(BlendMode::from_cubism_blend_mode(1), BlendMode::Additive);
    assert_eq!(
        BlendMode::from_cubism_blend_mode(2),
        BlendMode::Multiplicative
    );
}

#[test]
fn cubism_advanced_blend_mode_splits_color_and_alpha() {
    assert_eq!(
        BlendMode::from_cubism_blend_mode(6 | (3 << 8)),
        BlendMode::Advanced {
            color: ColorBlendMode::Multiply,
            alpha: AlphaBlendMode::ConjointOver,
        }
    );
}

#[test]
fn unknown_color_and_alpha_codes_fall_back_to_normal_over() {
    assert_eq!(
        ColorBlendMode::from_cubism_color_blend_type(99),
        ColorBlendMode::Normal
    );
    assert_eq!(
        AlphaBlendMode::from_cubism_alpha_blend_type(-1),
        AlphaBlendMode::Over
    );
}

#[test]
fn advanced_code_with_over_alpha_keeps_color() {
    assert_eq!(
        BlendMode::from_cubism_blend_mode(15),
        BlendMode::Advanced {
            color: ColorBlendMode::LinearLight,
            alpha: AlphaBlendMode::Over,
        }
    );
}

#[test]
fn normal_color_with_non_over_alpha_is_advanced() {
    assert_eq!(
        BlendMode::from_cubism_blend_mode(1 << 8),
        BlendMode::Advanced {
            color: ColorBlendMode::Normal,
            alpha: AlphaBlendMode::Atop,
        }
    );
}
