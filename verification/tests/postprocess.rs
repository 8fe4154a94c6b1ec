use live2d::gpu_post::{WgpuPostProcessError, WgpuPostProcessPlan, WgpuPostProcessShaderSource};
use live2d::postprocess::{
    PostProcessInput, PostProcessOutput, PostProcessParams, PostProcessPass, PostProcessPlan,
    PostProcessPlanError, PostProcessShaderId,
};

#[test]
fn post_process_plan_accepts_empty_chain() {
    let plan = PostProcessPlan::new(Vec::new()).unwrap();

    assert!(plan.is_empty());
    assert!(PostProcessPlan::empty().is_empty());
}

#[test]
fn post_process_plan_builds_linear_chain() {
    let plan = PostProcessPlan::linear(&["tone", "blur", "composite"]);

    assert_eq!(plan.passes().len(), 3);
    assert_eq!(plan.passes()[0].input, PostProcessInput::Scene);
    assert_eq!(plan.passes()[0].output, PostProcessOutput::Temporary);
    assert_eq!(plan.passes()[1].input, PostProcessInput::Pass(0));
    assert_eq!(plan.passes()[1].output, PostProcessOutput::Temporary);
    assert_eq!(plan.passes()[2].input, PostProcessInput::Pass(1));
    assert_eq!(plan.passes()[2].output, PostProcessOutput::Final);
}

#[test]
fn post_process_plan_rejects_non_linear_input() {
    let result = PostProcessPlan::new(vec![
        PostProcessPass::new("a", PostProcessInput::Scene, PostProcessOutput::Temporary),
        PostProcessPass::new("b", PostProcessInput::Scene, PostProcessOutput::Final),
    ]);

    assert_eq!(
        result,
        Err(PostProcessPlanError::UnsupportedInput {
            pass: 1,
            input: PostProcessInput::Scene,
        })
    );
}

#[test]
fn post_process_plan_rejects_missing_final_output() {
    let result = PostProcessPlan::new(vec![PostProcessPass::new(
        "tone",
        PostProcessInput::Scene,
        PostProcessOutput::Temporary,
    )]);

    assert_eq!(result, Err(PostProcessPlanError::MissingFinalOutput));
}

#[test]
fn post_process_plan_preserves_pass_params() {
    let mut params = PostProcessParams::default();
    params.values[2] = [
        1.0f32.to_bits(),
        2.0f32.to_bits(),
        3.0f32.to_bits(),
        4.0f32.to_bits(),
    ];
    let plan = PostProcessPlan::new(vec![PostProcessPass::new(
        "tone",
        PostProcessInput::Scene,
        PostProcessOutput::Final,
    )
    .with_params(params)])
    .unwrap();

    let values = plan.passes()[0].params.values[2].map(f32::from_bits);
    assert_eq!(values, [1.0, 2.0, 3.0, 4.0]);
}

#[test]
fn post_process_plan_rejects_empty_shader_id() {
    let result = PostProcessPlan::new(vec![PostProcessPass::new(
        "",
        PostProcessInput::Scene,
        PostProcessOutput::Final,
    )]);

    assert_eq!(result, Err(PostProcessPlanError::EmptyShaderId { pass: 0 }));
}

#[test]
fn post_process_plan_rejects_final_output_before_last_pass() {
    let result = PostProcessPlan::new(vec![
        PostProcessPass::new("a", PostProcessInput::Scene, PostProcessOutput::Final),
        PostProcessPass::new("b", PostProcessInput::Pass(0), PostProcessOutput::Final),
    ]);

    assert_eq!(
        result,
        Err(PostProcessPlanError::FinalOutputBeforeLast { pass: 0 })
    );
}

const PASS_SHADER: &str = "fn pp_apply(f: PpFragment) -> vec4<f32> { return pp_sample(f.uv); }";

#[test]
fn wgpu_post_process_plan_lowers_shader_ids_to_sources() {
    let plan = PostProcessPlan::linear(&["tone", "composite"]);
    let wgpu_plan = WgpuPostProcessPlan::from_render_plan(
        &plan,
        &[
            (
                PostProcessShaderId::from("tone"),
                WgpuPostProcessShaderSource::Wgsl(PASS_SHADER),
            ),
            (
                PostProcessShaderId::from("composite"),
                WgpuPostProcessShaderSource::Wgsl(PASS_SHADER),
            ),
        ],
    )
    .unwrap();

    assert_eq!(wgpu_plan.passes().len(), 2);
    assert_eq!(
        wgpu_plan.passes()[0].shader_id,
        PostProcessShaderId::from("tone")
    );
    assert!(wgpu_plan.passes()[1].wgsl().contains("pp_apply"));
}

#[test]
fn wgpu_post_process_plan_rejects_missing_shader() {
    let plan = PostProcessPlan::linear(&["tone"]);

    assert_eq!(
        WgpuPostProcessPlan::from_render_plan(&plan, &[]).unwrap_err(),
        WgpuPostProcessError::MissingShader {
            shader_id: PostProcessShaderId::from("tone"),
        }
    );
}

#[test]
fn wgpu_post_process_plan_rejects_blank_shader_source() {
    let plan = PostProcessPlan::linear(&["tone"]);
    let result = WgpuPostProcessPlan::from_render_plan(
        &plan,
        &[(
            PostProcessShaderId::from("tone"),
            WgpuPostProcessShaderSource::Wgsl(" \n\t\u{a0}"),
        )],
    );

    assert_eq!(
        result.unwrap_err(),
        WgpuPostProcessError::EmptyShaderSource {
            shader_id: PostProcessShaderId::from("tone"),
        }
    );
}

#[test]
fn wgpu_post_process_plan_uses_last_registered_source() {
    let plan = PostProcessPlan::linear(&["tone"]);
    let wgpu_plan = WgpuPostProcessPlan::from_render_plan(
        &plan,
        &[
            (
                PostProcessShaderId::from("tone"),
                WgpuPostProcessShaderSource::Wgsl("first"),
            ),
            (
                PostProcessShaderId::from("tone"),
                WgpuPostProcessShaderSource::Wgsl("  second  "),
            ),
        ],
    )
    .unwrap();

    assert_eq!(wgpu_plan.passes()[0].wgsl(), "  second  ");
    assert!(!wgpu_plan.is_empty());
}

#[test]
fn linear_chain_passes_validate_as_a_plan() {
    let linear = PostProcessPlan::linear(&["tone", "blur", "composite"]);
    assert_eq!(PostProcessPlan::new(linear.passes().to_vec()), Ok(linear.clone()));
    let empty = PostProcessPlan::linear(&[]);
    assert_eq!(PostProcessPlan::new(empty.passes().to_vec()), Ok(PostProcessPlan::empty()));
}
