use live2d::compare::{
    advanced_warnings, is_gpu_scenario, report_score, AdvancedCoverage, AdvancedWarning,
    StageTotals, MISSING_STAGE_SCORE,
};

fn full_coverage() -> AdvancedCoverage {
    AdvancedCoverage {
        color_modes: 16,
        alpha_modes: 5,
        advanced_draws: 40,
        wgpu_advanced_draw_calls: 12,
        wgpu_advanced_copy_operations: 3,
        wgpu_pipeline_count: 9,
    }
}

#[test]
fn full_coverage_passes_on_cpu_and_gpu_runs() {
    assert!(advanced_warnings(false, full_coverage()).is_empty());
    assert!(advanced_warnings(true, full_coverage()).is_empty());
}

#[test]
fn missing_modes_and_draws_are_reported_in_order() {
    let coverage = AdvancedCoverage {
        color_modes: 15,
        alpha_modes: 4,
        advanced_draws: 0,
        ..full_coverage()
    };
    assert_eq!(
        advanced_warnings(false, coverage),
        vec![
            AdvancedWarning::MissingColorModes,
            AdvancedWarning::MissingAlphaModes,
            AdvancedWarning::NoAdvancedDrawables,
        ]
    );
}

#[test]
fn gpu_counters_matter_only_for_gpu_runs() {
    let coverage = AdvancedCoverage {
        wgpu_advanced_draw_calls: 0,
        wgpu_advanced_copy_operations: 0,
        wgpu_pipeline_count: 0,
        ..full_coverage()
    };
    assert!(advanced_warnings(false, coverage).is_empty());
    assert_eq!(
        advanced_warnings(true, coverage),
        vec![
            AdvancedWarning::NoAdvancedDrawCalls,
            AdvancedWarning::NoAdvancedCopies,
            AdvancedWarning::NoPipelineCount,
        ]
    );
    let crowded = AdvancedCoverage {
        wgpu_pipeline_count: 10,
        ..full_coverage()
    };
    assert_eq!(
        advanced_warnings(true, crowded),
        vec![AdvancedWarning::TooManyPipelines]
    );
}

#[test]
fn gpu_scenarios_are_named_with_the_wgpu_prefix() {
    assert!(is_gpu_scenario("wgpu-warm"));
    assert!(is_gpu_scenario("wgpu-"));
    assert!(!is_gpu_scenario("wgpu"));
    assert!(!is_gpu_scenario("synthetic-render-plan"));
    assert!(!is_gpu_scenario("xwgpu-warm"));
}

#[test]
fn report_score_sums_entered_stages_and_penalizes_missing_ones() {
    let entered = Some(StageTotals {
        calls: 3,
        total_nanos: 1_500,
    });
    let never_entered = Some(StageTotals {
        calls: 0,
        total_nanos: 0,
    });
    assert_eq!(report_score(&[]), 0);
    assert_eq!(report_score(&[entered, entered]), 3_000);
    assert_eq!(report_score(&[entered, None]), 1_500 + MISSING_STAGE_SCORE);
    assert_eq!(report_score(&[never_entered]), MISSING_STAGE_SCORE);
    assert_eq!(MISSING_STAGE_SCORE, u128::MAX / 4);
}
