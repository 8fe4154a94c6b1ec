use live2d::probe::{
    finish_stage_stats, percentile, sorted_values, stage_at_rank, stage_stats_from_samples,
    CounterSample, CounterTable, SpanSample, Stage, STAGE_COUNT,
};

#[test]
fn analysis_aggregates_spans_and_counters_by_stage() {
    let spans = vec![
        SpanSample {
            stage: Stage::RenderPlanTotal,
            elapsed_nanos: 100,
            parent_stage: None,
        },
        SpanSample {
            stage: Stage::RenderPlanTotal,
            elapsed_nanos: 300,
            parent_stage: None,
        },
        SpanSample {
            stage: Stage::RenderModelCtxBuild,
            elapsed_nanos: 80,
            parent_stage: Some(Stage::RenderPlanTotal),
        },
    ];
    let counters = vec![
        CounterSample {
            stage: Stage::RenderPlanTotal,
            name: "draw_calls".to_string(),
            value: 7,
        },
        CounterSample {
            stage: Stage::RenderPlanTotal,
            name: "bytes".to_string(),
            value: 64,
        },
    ];

    let stages = stage_stats_from_samples(&spans, &counters);
    let plan = &stages
        .iter()
        .find(|(stage, _)| *stage == Stage::RenderPlanTotal)
        .unwrap()
        .1;

    assert_eq!(plan.calls, 2);
    assert_eq!(plan.total_nanos, 400);
    assert_eq!(plan.children_nanos, 80);
    assert_eq!(plan.self_nanos, 320);
    assert_eq!(plan.min_nanos, 100);
    assert_eq!(plan.p50_nanos, 300);
    assert_eq!(plan.p90_nanos, 300);
    assert_eq!(plan.draw_calls, 7);
    assert_eq!(plan.bytes, 64);
}

#[test]
fn stages_come_out_in_declaration_order() {
    let spans = vec![
        SpanSample {
            stage: Stage::WgpuQueueSubmit,
            elapsed_nanos: 5,
            parent_stage: Some(Stage::WgpuPrepareRender),
        },
        SpanSample {
            stage: Stage::RuntimeModel3Read,
            elapsed_nanos: 9,
            parent_stage: None,
        },
    ];
    let stages = stage_stats_from_samples(&spans, &[]);
    let order: Vec<Stage> = stages.iter().map(|(stage, _)| *stage).collect();
    assert_eq!(
        order,
        vec![
            Stage::RuntimeModel3Read,
            Stage::WgpuPrepareRender,
            Stage::WgpuQueueSubmit
        ]
    );
    let parent = &stages[1].1;
    assert_eq!(parent.calls, 0);
    assert_eq!(parent.children_nanos, 5);
    assert_eq!(parent.self_nanos, 0);
    assert_eq!(parent.max_nanos, 0);
}

#[test]
fn counters_only_stage_is_reported_and_sums_per_name() {
    let counters = vec![
        CounterSample {
            stage: Stage::WgpuTextureUpload,
            name: "bytes".to_string(),
            value: 10,
        },
        CounterSample {
            stage: Stage::WgpuTextureUpload,
            name: "bytes".to_string(),
            value: 32,
        },
        CounterSample {
            stage: Stage::WgpuTextureUpload,
            name: "textures".to_string(),
            value: 2,
        },
    ];
    let stages = stage_stats_from_samples(&[], &counters);
    assert_eq!(stages.len(), 1);
    let stats = &stages[0].1;
    assert_eq!(stats.bytes, 42);
    assert_eq!(stats.counters.get("textures"), 2);
    assert_eq!(stats.counters.get("missing"), 0);
    assert_eq!(stats.calls, 0);
}

#[test]
fn children_time_saturates() {
    let spans = vec![
        SpanSample {
            stage: Stage::RenderOrderSort,
            elapsed_nanos: u64::MAX,
            parent_stage: Some(Stage::RenderPlanTotal),
        },
        SpanSample {
            stage: Stage::RenderMaskDedup,
            elapsed_nanos: 1,
            parent_stage: Some(Stage::RenderPlanTotal),
        },
    ];
    let stages = stage_stats_from_samples(&spans, &[]);
    let plan = &stages
        .iter()
        .find(|(stage, _)| *stage == Stage::RenderPlanTotal)
        .unwrap()
        .1;
    assert_eq!(plan.children_nanos, u64::MAX);
}

#[test]
fn percentile_rounds_position_up() {
    assert_eq!(percentile(&[], 50), 0);
    assert_eq!(percentile(&[10, 20, 30, 40], 50), 30);
    assert_eq!(percentile(&[10, 20, 30, 40], 0), 10);
    assert_eq!(percentile(&[10, 20, 30, 40], 100), 40);
    assert_eq!(percentile(&[10, 20, 30, 40, 50], 50), 30);
}

#[test]
fn finished_stats_sort_call_times() {
    let mut counters = CounterTable::new();
    counters.add("cache_hits", 3);
    counters.add("cache_hits", 4);
    let stats = finish_stage_stats(vec![50, 10, 40, 10, 30], 25, counters);
    assert_eq!(stats.calls, 5);
    assert_eq!(stats.total_nanos, 140);
    assert_eq!(stats.self_nanos, 115);
    assert_eq!(stats.min_nanos, 10);
    assert_eq!(stats.max_nanos, 50);
    assert_eq!(stats.p50_nanos, 30);
    assert_eq!(stats.p99_nanos, 50);
    assert_eq!(stats.cache_hits, 7);
    assert_eq!(sorted_values(&vec![3, 1, 2, 1]), vec![1, 1, 2, 3]);
}

#[test]
fn every_rank_names_a_distinct_stage() {
    let mut seen = Vec::new();
    for rank in 0..STAGE_COUNT {
        let stage = stage_at_rank(rank);
        assert!(!seen.contains(&stage));
        seen.push(stage);
    }
    assert_eq!(seen[0], Stage::RuntimeModel3Read);
    assert_eq!(seen[STAGE_COUNT - 1], Stage::WgpuGpuTimestampSupport);
}

#[test]
fn percentile_above_hundred_stays_on_single_value() {
    assert_eq!(percentile(&[5], 150), 5);
}

#[test]
fn percentile_grows_with_percent() {
    let values = [10, 20, 30, 40, 50];
    assert!(percentile(&values, 20) <= percentile(&values, 60));
    assert_eq!(percentile(&values, 20), 20);
    assert_eq!(percentile(&values, 60), 40);
}

#[test]
fn counter_table_lists_entries_by_name() {
    let mut counters = CounterTable::new();
    counters.add("draw_calls", 2);
    counters.add("bytes", 10);
    counters.add("cache_hits", 1);
    counters.add("bytes", 5);
    assert_eq!(
        counters.entries(),
        &[
            ("bytes".to_string(), 15),
            ("cache_hits".to_string(), 1),
            ("draw_calls".to_string(), 2),
        ]
    );
    assert_eq!(counters.clone(), counters);
}
