use live2d::runtime::{
    inspect_art_mesh_metadata, inspect_art_meshes, load_snapshot, parse_source_type,
    physics_stats, select_motion_group, MotionGroupEntry, MotionSelectionError, ParameterId,
    PartId, PhysicsSettingShape, PhysicsSource, PhysicsStats,
};

#[test]
fn reports_unavailable_runtime_without_fake_art_meshes() {
    let error = inspect_art_meshes(Ok(Vec::new())).unwrap_err();
    assert_eq!(error, "live2d_runtime_unavailable");
}

#[test]
fn reports_unavailable_metadata_without_fake_art_meshes() {
    let error = inspect_art_mesh_metadata(Ok(Vec::new())).unwrap_err();
    assert_eq!(error, "live2d_runtime_unavailable");
}

#[test]
fn missing_assets_are_reported_before_runtime_availability() {
    let missing = vec!["sample.moc3".to_string()];
    assert_eq!(
        load_snapshot(Ok(missing.clone())).unwrap_err(),
        "live2d_model_assets_missing"
    );
    assert_eq!(
        inspect_art_meshes(Ok(missing)).unwrap_err(),
        "live2d_model_assets_missing"
    );
    assert_eq!(
        inspect_art_meshes(Err("live2d_model_not_found".to_string())).unwrap_err(),
        "live2d_model_not_found"
    );
}

#[test]
fn physics_source_types_parse() {
    assert_eq!(parse_source_type(Some("X")), Ok(PhysicsSource::X));
    assert_eq!(parse_source_type(Some("Y")), Ok(PhysicsSource::Y));
    assert_eq!(parse_source_type(Some("Angle")), Ok(PhysicsSource::Angle));
    assert_eq!(
        parse_source_type(Some("angle")),
        Err("unsupported_physics_source_type".to_string())
    );
    assert_eq!(
        parse_source_type(None),
        Err("unsupported_physics_source_type".to_string())
    );
}

#[test]
fn parses_physics_stats() {
    let stats = physics_stats(&[
        PhysicsSettingShape {
            inputs: 2,
            outputs: 1,
            particles: 3,
        },
        PhysicsSettingShape {
            inputs: 1,
            outputs: 2,
            particles: 2,
        },
    ]);
    assert_eq!(
        stats,
        PhysicsStats {
            settings: 2,
            inputs: 3,
            outputs: 3,
            particles: 5,
        }
    );
}

#[test]
fn ids_compare_by_name() {
    assert_eq!(ParameterId::from("ParamAngleX"), ParameterId::from("ParamAngleX".to_string()));
    assert_ne!(PartId::from("PartArmL"), PartId::from("PartArmR"));
    assert_eq!(ParameterId::from("ParamEyeLOpen").as_ref(), "ParamEyeLOpen");
}

fn group(name: &str, motions: usize) -> MotionGroupEntry {
    MotionGroupEntry {
        name: name.to_owned(),
        motions,
    }
}

#[test]
fn motion_selection_takes_the_named_group() {
    let groups = vec![group("Idle", 2), group("TapBody", 1), group("Idle", 0)];
    assert_eq!(select_motion_group(&groups, Some("TapBody")), Ok(1));
    assert_eq!(select_motion_group(&groups, Some("Idle")), Ok(0));
    assert_eq!(
        select_motion_group(&groups, Some("Shake")),
        Err(MotionSelectionError::GroupNotFound)
    );
}

#[test]
fn motion_selection_reports_an_empty_named_group() {
    let groups = vec![group("Empty", 0), group("Idle", 3)];
    assert_eq!(
        select_motion_group(&groups, Some("Empty")),
        Err(MotionSelectionError::GroupEmpty)
    );
}

#[test]
fn motion_selection_without_a_name_takes_the_first_group_with_motions() {
    let groups = vec![group("Empty", 0), group("Idle", 3), group("Tap", 1)];
    assert_eq!(select_motion_group(&groups, None), Ok(1));
    assert_eq!(
        select_motion_group(&[group("Empty", 0)], None),
        Err(MotionSelectionError::NoMotionFiles)
    );
    assert_eq!(
        select_motion_group(&[], None),
        Err(MotionSelectionError::NoMotionFiles)
    );
}
