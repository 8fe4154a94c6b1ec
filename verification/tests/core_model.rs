use live2d::core_model::{
    art_mesh_metadata, static_art_meshes, blend_mode_from_constant_flags, checked_parameter_write_indices, checked_part_write_indices,
    drawable_blend_mode, resolve_masks, retained_drawables, DrawableFrameState,
};
use live2d::model::{AlphaBlendMode, BlendMode, ColorBlendMode, DrawableId};
use live2d::runtime::{ParameterId, PartId};

fn id(text: &str) -> DrawableId {
    DrawableId(text.to_owned())
}

fn state(source_index: usize, visible: bool, opacity: f32, mask_indices: Vec<usize>) -> DrawableFrameState {
    DrawableFrameState {
        source_index,
        visible,
        opacity_bits: opacity.to_bits(),
        mask_indices,
    }
}

#[test]
fn constant_flags_choose_additive_before_multiplicative() {
    assert_eq!(blend_mode_from_constant_flags(0), BlendMode::Normal);
    assert_eq!(blend_mode_from_constant_flags(1), BlendMode::Additive);
    assert_eq!(blend_mode_from_constant_flags(2), BlendMode::Multiplicative);
    assert_eq!(blend_mode_from_constant_flags(3), BlendMode::Additive);
    assert_eq!(blend_mode_from_constant_flags(4), BlendMode::Normal);
}

#[test]
fn blend_values_win_over_constant_flags() {
    assert_eq!(drawable_blend_mode(Some(0), 1), BlendMode::Normal);
    assert_eq!(drawable_blend_mode(Some(2), 1), BlendMode::Multiplicative);
    assert_eq!(
        drawable_blend_mode(Some(0x0103), 0),
        BlendMode::Advanced {
            color: ColorBlendMode::Add,
            alpha: AlphaBlendMode::Atop,
        }
    );
    assert_eq!(drawable_blend_mode(None, 2), BlendMode::Multiplicative);
}

#[test]
fn resolve_masks_drops_negative_missing_and_unnamed_indices() {
    let ids = vec![Some(id("a")), None, Some(id("c"))];
    let (kept, clipping) = resolve_masks(&[2, -1, 1, 7, 0], &ids);
    assert_eq!(kept, vec![2, 0]);
    let clipping = clipping.expect("two masks remain");
    assert_eq!(clipping.drawable_ids, vec![id("c"), id("a")]);
    assert!(!clipping.inverted);
}

#[test]
fn resolve_masks_without_valid_masks_has_no_clip() {
    let ids = vec![Some(id("a")), None];
    let (kept, clipping) = resolve_masks(&[1, -3, 5], &ids);
    assert!(kept.is_empty());
    assert!(clipping.is_none());
}

#[test]
fn retained_drawables_keep_shown_drawables_and_their_masks() {
    let states = vec![
        state(0, true, 1.0, vec![2]),
        state(1, false, 1.0, vec![3]),
        state(2, true, 0.0, vec![]),
        state(3, true, 0.5, vec![9]),
    ];
    let retained = retained_drawables(5, &states).unwrap();
    assert_eq!(retained, vec![true, false, true, true, false]);
}

#[test]
fn retained_drawables_treat_tiny_opacity_as_hidden() {
    let states = vec![state(0, true, 1e-6, vec![1]), state(1, true, 2e-6, vec![])];
    assert_eq!(retained_drawables(2, &states).unwrap(), vec![false, true]);
}

#[test]
fn retained_drawables_report_changed_topology() {
    let states = vec![state(0, true, 1.0, vec![]), state(3, true, 1.0, vec![])];
    assert_eq!(
        retained_drawables(3, &states),
        Err("live2d_model_topology_changed".to_owned())
    );
}

#[test]
fn parameter_writes_find_the_last_parameter_with_each_id() {
    let parameters = vec![
        ParameterId::from("ParamAngleX"),
        ParameterId::from("ParamAngleY"),
        ParameterId::from("ParamAngleX"),
    ];
    let writes = vec!["ParamAngleY".to_owned(), "ParamAngleX".to_owned()];
    assert_eq!(checked_parameter_write_indices(&parameters, &writes), Ok(vec![1, 2]));
    let missing = vec!["ParamAngleY".to_owned(), "ParamBreath".to_owned()];
    assert_eq!(
        checked_parameter_write_indices(&parameters, &missing),
        Err("live2d_parameter_not_found".to_owned())
    );
}

#[test]
fn part_writes_report_unknown_parts() {
    let parts = vec![PartId::from("PartBody"), PartId::from("PartHead")];
    assert_eq!(
        checked_part_write_indices(&parts, &["PartHead".to_owned()]),
        Ok(vec![1])
    );
    assert_eq!(
        checked_part_write_indices(&parts, &["PartTail".to_owned()]),
        Err("live2d_part_not_found".to_owned())
    );
    assert_eq!(checked_part_write_indices(&parts, &[]), Ok(vec![]));
}

#[test]
fn art_mesh_metadata_names_masked_and_plain_meshes() {
    let ids = vec![Some(id("face")), None, Some(id("hair"))];
    let meshes = art_mesh_metadata(&ids, &[0, 4, 2]);
    assert_eq!(meshes.len(), 2);
    assert_eq!(meshes[0].id, id("face"));
    assert_eq!(meshes[0].label, "face");
    assert_eq!(meshes[0].original_name, "face");
    assert_eq!(meshes[0].index, 0);
    assert_eq!(meshes[0].mask_type, "plain");
    assert_eq!(meshes[1].id, id("hair"));
    assert_eq!(meshes[1].index, 2);
    assert_eq!(meshes[1].mask_type, "masked");
}

#[test]
fn static_art_meshes_leave_the_mask_type_unknown() {
    let ids = vec![None, Some(id("body"))];
    let meshes = static_art_meshes(&ids);
    assert_eq!(meshes.len(), 1);
    assert_eq!(meshes[0].index, 1);
    assert_eq!(meshes[0].mask_type, "unknown");
    assert!(static_art_meshes(&[]).is_empty());
}
