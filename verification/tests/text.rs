use live2d::gpu::{mesh_key, PipelineBlendMode, ShaderVariant};
use live2d::gpu_scene::padded_index_bytes;
use live2d::model::{AlphaBlendMode, BlendMode, ColorBlendMode};
use live2d::runtime::{declared_moc, motion_file_reference};
use live2d::synthetic::{u32_arg, usize_arg};
use live2d::text::{
    normalize_relative_path, sanitize_filename, sorted_name_order, sorted_unique_texts,
    text_before,
};

fn strings(values: &[&str]) -> Vec<String> {
    values.iter().map(|value| value.to_string()).collect()
}

#[test]
fn sanitize_filename_keeps_safe_characters() {
    assert_eq!(
        sanitize_filename("wgpu-warm/medium:all modes_1.0é"),
        "wgpu-warm-medium-all-modes_1.0-"
    );
}

#[test]
fn relative_paths_use_forward_slashes() {
    assert_eq!(
        normalize_relative_path("motions\\idle\\a.motion3.json"),
        "motions/idle/a.motion3.json"
    );
    assert_eq!(normalize_relative_path("plain.png"), "plain.png");
}

#[test]
fn texts_order_like_strings() {
    assert!(text_before("a", "b"));
    assert!(text_before("ab", "abc"));
    assert!(!text_before("abc", "ab"));
    assert!(!text_before("same", "same"));
    assert!(text_before("Z", "a"));
}

#[test]
fn missing_files_are_sorted_and_deduplicated() {
    let sorted = sorted_unique_texts(strings(&[
        "textures/missing.png",
        "sample.moc3",
        "motions/tap.motion3.json",
        "sample.moc3",
    ]));
    assert_eq!(
        sorted,
        strings(&[
            "motions/tap.motion3.json",
            "sample.moc3",
            "textures/missing.png"
        ])
    );
}

#[test]
fn motion_groups_sort_by_name_stably() {
    let names = strings(&["TapBody", "Idle", "Shake", "Idle"]);
    assert_eq!(sorted_name_order(&names), vec![1, 3, 2, 0]);
}

#[test]
fn moc_declaration_must_not_be_blank() {
    assert_eq!(declared_moc(Some("sample.moc3")), Ok("sample.moc3"));
    assert_eq!(
        declared_moc(Some("  ")),
        Err("live2d_moc_not_declared".to_string())
    );
    assert_eq!(
        declared_moc(None),
        Err("live2d_moc_not_declared".to_string())
    );
}

#[test]
fn motion_file_references_are_trimmed_and_normalized() {
    assert_eq!(
        motion_file_reference(Some("  motions\\tap.motion3.json ")),
        Some(("motions\\tap.motion3.json", "motions/tap.motion3.json".to_string()))
    );
    assert_eq!(motion_file_reference(Some(" \t")), None);
    assert_eq!(motion_file_reference(None), None);
}

#[test]
fn numeric_flags_parse_or_report() {
    let args = strings(&["--frames", "+12", "--width", "0", "--height", "x1", "--big", "4294967296"]);
    assert_eq!(usize_arg(&args, "--frames", 5), Ok(12));
    assert_eq!(usize_arg(&args, "--warmup-frames", 5), Ok(5));
    assert_eq!(u32_arg(&args, "--width", 1024), Ok(1));
    assert_eq!(u32_arg(&args, "--depth", 0), Ok(1));
    assert_eq!(
        u32_arg(&args, "--height", 1024),
        Err("--height must be a positive integer".to_string())
    );
    assert_eq!(
        u32_arg(&args, "--big", 1),
        Err("--big must be a positive integer".to_string())
    );
}

#[test]
fn index_bytes_are_padded_to_copy_alignment() {
    let bytes = padded_index_bytes(&[1, 2, 3]);
    assert_eq!(bytes.len(), 8);
    assert_eq!(&bytes[6..], &[0, 0]);
    let expected: Vec<u8> = [1u16, 2, 3].iter().flat_map(|i| i.to_ne_bytes()).collect();
    assert_eq!(&bytes[..6], expected.as_slice());
    assert_eq!(padded_index_bytes(&[7, 8]).len(), 4);
    assert!(padded_index_bytes(&[]).is_empty());
}

#[test]
fn mesh_pipelines_pick_programs_by_blend_mode() {
    let format = wgpu::TextureFormat::Rgba8Unorm;
    let advanced = mesh_key(
        format,
        BlendMode::Advanced {
            color: ColorBlendMode::Screen,
            alpha: AlphaBlendMode::Over,
        },
        true,
    );
    assert_eq!(advanced.shader_variant, ShaderVariant::AdvancedBlend);
    assert_eq!(advanced.blend_mode, PipelineBlendMode::Advanced);
    assert!(advanced.masked);
    assert_eq!(advanced.target_format, format);
    let normal = mesh_key(format, BlendMode::Additive, false);
    assert_eq!(normal.shader_variant, ShaderVariant::DefaultMesh);
    assert_eq!(normal.blend_mode, PipelineBlendMode::Additive);
}
