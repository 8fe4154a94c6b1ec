use live2d::assets::{
    missing_model_files, parse_model3, referenced_files, FsAssetResolver,
};

const SAMPLE_MODEL3: &str = r#"{
    "FileReferences": {
        "Moc": "sample.moc3",
        "Textures": ["texture_ok.png", "textures/missing.png"],
        "Motions": {
            "TapBody": [
                { "File": "motions/tap.motion3.json", "FadeInTime": 0.25, "FadeOutTime": 0.5 }
            ],
            "Idle": [
                { "File": "motions/idle.motion3.json", "FadeInTime": 0.75 }
            ]
        }
    }
}"#;

#[test]
fn model3_references_and_missing_files() {
    let refs = parse_model3(SAMPLE_MODEL3).unwrap();
    assert_eq!(refs.moc, "sample.moc3");
    assert_eq!(refs.textures, vec!["texture_ok.png", "textures/missing.png"]);
    let names: Vec<&str> = refs.motion_groups.iter().map(|g| g.name.as_str()).collect();
    assert_eq!(names, ["Idle", "TapBody"]);
    let idle = &refs.motion_groups[0].motions[0];
    assert_eq!(idle.file, "motions/idle.motion3.json");
    assert_eq!(idle.relative_path, "motions/idle.motion3.json");
    assert_eq!(idle.fade_in.as_deref(), Some("0.75"));
    assert_eq!(idle.fade_out, None);
    let tap = &refs.motion_groups[1].motions[0];
    assert_eq!(tap.fade_in.as_deref(), Some("0.25"));
    assert_eq!(tap.fade_out.as_deref(), Some("0.5"));

    let files = referenced_files(&refs);
    assert_eq!(
        files,
        vec![
            "sample.moc3",
            "texture_ok.png",
            "textures/missing.png",
            "motions/idle.motion3.json",
            "motions/tap.motion3.json",
        ]
    );
    let present = [false, true, false, true, false];
    assert_eq!(
        missing_model_files(&refs, &present),
        vec!["motions/tap.motion3.json", "sample.moc3", "textures/missing.png"]
    );
}

#[test]
fn model3_that_is_not_json_is_refused() {
    assert_eq!(parse_model3("{ not json").err().unwrap(), "invalid_model3_json");
}

#[test]
fn model3_without_moc_is_refused() {
    assert_eq!(
        parse_model3(r#"{ "FileReferences": { "Textures": [] } }"#).err().unwrap(),
        "live2d_moc_not_declared"
    );
    assert_eq!(
        parse_model3(r#"{ "FileReferences": { "Moc": "   " } }"#).err().unwrap(),
        "live2d_moc_not_declared"
    );
    assert_eq!(parse_model3("[]").err().unwrap(), "live2d_moc_not_declared");
}

#[test]
fn model3_skips_entries_that_name_no_file() {
    let refs = parse_model3(
        r#"{
            "FileReferences": {
                "Moc": "m.moc3",
                "Textures": ["a.png", 3, null, "b.png"],
                "Motions": {
                    "Skip": { "File": "x.motion3.json" },
                    "Walk": [
                        { "File": "  motions\\walk.motion3.json  ", "FadeInTime": "slow" },
                        { "File": "   " },
                        { "FadeInTime": 1 },
                        "loose"
                    ]
                }
            }
        }"#,
    )
    .unwrap();
    assert_eq!(refs.textures, vec!["a.png", "b.png"]);
    assert_eq!(refs.motion_groups.len(), 1);
    let walk = &refs.motion_groups[0];
    assert_eq!(walk.name, "Walk");
    assert_eq!(walk.motions.len(), 1);
    assert_eq!(walk.motions[0].file, "motions\\walk.motion3.json");
    assert_eq!(walk.motions[0].relative_path, "motions/walk.motion3.json");
    assert_eq!(walk.motions[0].fade_in, None);
    assert_eq!(
        missing_model_files(&refs, &[true, true, true, false]),
        vec!["motions/walk.motion3.json"]
    );
    assert_eq!(missing_model_files(&refs, &[]), Vec::<String>::new());
}

#[test]
fn missing_files_are_listed_once() {
    let refs = parse_model3(
        r#"{ "FileReferences": { "Moc": "dup.png", "Textures": ["dup.png", "dup.png"] } }"#,
    )
    .unwrap();
    assert_eq!(missing_model_files(&refs, &[false, false, false]), vec!["dup.png"]);
}

#[test]
fn fs_asset_resolver_joins_paths_to_its_root() {
    let resolver = FsAssetResolver::new("models/sample");
    assert_eq!(resolver.root(), "models/sample");
    assert_eq!(resolver.resolve("textures/a.png"), "models/sample/textures/a.png");
    assert_eq!(resolver.resolve("/abs/a.png"), "/abs/a.png");
}
