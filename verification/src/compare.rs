use crate::text::chars_of;
use vstd::prelude::*;

verus! {

/// Number of advanced colour blend modes an all-modes run must cover.
pub const ADVANCED_COLOR_MODES: u64 = 16;

/// Number of advanced alpha blend modes an all-modes run must cover.
pub const ADVANCED_ALPHA_MODES: u64 = 5;

/// Most render pipelines a GPU run may build when advanced blends share one pipeline.
pub const MAX_SHARED_PIPELINES: u64 = 9;

/// Score of a stage that a report lacks, or that it never entered.
pub const MISSING_STAGE_SCORE: u128 = 0x3fff_ffff_ffff_ffff_ffff_ffff_ffff_ffff;

/// What an all-modes run reports of its blend coverage and GPU work.
#[derive(Debug, Clone, Copy, PartialEq, Eq, Structural, Default)]
pub struct AdvancedCoverage {
    pub color_modes: u64,
    pub alpha_modes: u64,
    pub advanced_draws: u64,
    pub wgpu_advanced_draw_calls: u64,
    pub wgpu_advanced_copy_operations: u64,
    pub wgpu_pipeline_count: u64,
}

/// A shortfall of an all-modes run.
#[derive(Debug, Clone, Copy, PartialEq, Eq, Structural)]
pub enum AdvancedWarning {
    /// Fewer colour blend modes than there are.
    MissingColorModes,
    /// Fewer alpha blend modes than there are.
    MissingAlphaModes,
    /// No advanced drawables at all.
    NoAdvancedDrawables,
    /// A GPU run drew nothing with an advanced blend.
    NoAdvancedDrawCalls,
    /// A GPU run copied nothing for advanced blends.
    NoAdvancedCopies,
    /// A GPU run did not count its pipelines.
    NoPipelineCount,
    /// A GPU run built more pipelines than the shared ones.
    TooManyPipelines,
}

/// The warnings of an all-modes run, in the order they are reported; the run passes
/// when there is none.
pub open spec fn advanced_warnings_of(gpu_run: bool, c: AdvancedCoverage) -> Seq<AdvancedWarning> {
    (if c.color_modes < ADVANCED_COLOR_MODES {
        seq![AdvancedWarning::MissingColorModes]
    } else {
        Seq::empty()
    }) + (if c.alpha_modes < ADVANCED_ALPHA_MODES {
        seq![AdvancedWarning::MissingAlphaModes]
    } else {
        Seq::empty()
    }) + (if c.advanced_draws == 0 {
        seq![AdvancedWarning::NoAdvancedDrawables]
    } else {
        Seq::empty()
    }) + (if gpu_run && c.wgpu_advanced_draw_calls == 0 {
        seq![AdvancedWarning::NoAdvancedDrawCalls]
    } else {
        Seq::empty()
    }) + (if gpu_run && c.wgpu_advanced_copy_operations == 0 {
        seq![AdvancedWarning::NoAdvancedCopies]
    } else {
        Seq::empty()
    }) + (if gpu_run && c.wgpu_pipeline_count == 0 {
        seq![AdvancedWarning::NoPipelineCount]
    } else {
        Seq::empty()
    }) + (if gpu_run && c.wgpu_pipeline_count > MAX_SHARED_PIPELINES {
        seq![AdvancedWarning::TooManyPipelines]
    } else {
        Seq::empty()
    })
}

fn push_if(warnings: &mut Vec<AdvancedWarning>, condition: bool, warning: AdvancedWarning)
    ensures
        final(warnings)@ == old(warnings)@ + if condition {
            seq![warning]
        } else {
            Seq::empty()
        },
{
    if condition {
        warnings.push(warning);
    } else {
        assert(old(warnings)@ + Seq::<AdvancedWarning>::empty() =~= old(warnings)@);
    }
}

/// The shortfalls of an all-modes run: too few colour or alpha blend modes, no
/// advanced drawables, and for a GPU run no advanced draws, no copies, no pipeline
/// count, or more pipelines than the shared ones.
pub fn advanced_warnings(gpu_run: bool, coverage: AdvancedCoverage) -> (r: Vec<AdvancedWarning>)
    ensures
        r@ == advanced_warnings_of(gpu_run, coverage),
{
    let mut warnings: Vec<AdvancedWarning> = Vec::new();
    push_if(&mut warnings, coverage.color_modes < ADVANCED_COLOR_MODES, AdvancedWarning::MissingColorModes);
    push_if(&mut warnings, coverage.alpha_modes < ADVANCED_ALPHA_MODES, AdvancedWarning::MissingAlphaModes);
    push_if(&mut warnings, coverage.advanced_draws == 0, AdvancedWarning::NoAdvancedDrawables);
    push_if(
        &mut warnings,
        gpu_run && coverage.wgpu_advanced_draw_calls == 0,
        AdvancedWarning::NoAdvancedDrawCalls,
    );
    push_if(
        &mut warnings,
        gpu_run && coverage.wgpu_advanced_copy_operations == 0,
        AdvancedWarning::NoAdvancedCopies,
    );
    push_if(&mut warnings, gpu_run && coverage.wgpu_pipeline_count == 0, AdvancedWarning::NoPipelineCount);
    push_if(
        &mut warnings,
        gpu_run && coverage.wgpu_pipeline_count > MAX_SHARED_PIPELINES,
        AdvancedWarning::TooManyPipelines,
    );
    assert(warnings@ =~= advanced_warnings_of(gpu_run, coverage));
    warnings
}

/// Whether a scenario runs on the GPU: its name starts with `wgpu-`.
pub fn is_gpu_scenario(name: &str) -> (r: bool)
    ensures
        r == (name@.len() >= 5 && name@.subrange(0, 5) == seq!['w', 'g', 'p', 'u', '-']),
{
    let chars = chars_of(name);
    if chars.len() < 5 {
        return false;
    }
    let r = chars[0] == 'w' && chars[1] == 'g' && chars[2] == 'p' && chars[3] == 'u' && chars[4] == '-';
    proof {
        if r {
            assert(name@.subrange(0, 5) =~= seq!['w', 'g', 'p', 'u', '-']);
        } else {
            assert(name@.subrange(0, 5)[0] == chars@[0]);
            assert(name@.subrange(0, 5)[1] == chars@[1]);
            assert(name@.subrange(0, 5)[2] == chars@[2]);
            assert(name@.subrange(0, 5)[3] == chars@[3]);
            assert(name@.subrange(0, 5)[4] == chars@[4]);
        }
    }
    r
}

/// Calls and total time of one stage in a report.
#[derive(Debug, Clone, Copy, PartialEq, Eq, Structural)]
pub struct StageTotals {
    pub calls: u64,
    pub total_nanos: u64,
}

/// The score of one stage: its total time when it was entered, else the missing-stage
/// score.
pub open spec fn stage_score(stage: Option<StageTotals>) -> int {
    match stage {
        Some(s) => if s.calls > 0 {
            s.total_nanos as int
        } else {
            MISSING_STAGE_SCORE as int
        },
        None => MISSING_STAGE_SCORE as int,
    }
}

/// Sum of the scores of the first `n` stages.
pub open spec fn score_total(stages: Seq<Option<StageTotals>>, n: nat) -> int
    decreases n,
{
    if n == 0 {
        0
    } else {
        score_total(stages, (n - 1) as nat) + stage_score(stages[n - 1])
    }
}

proof fn lemma_score_total_monotone(stages: Seq<Option<StageTotals>>, a: nat, b: nat)
    requires
        a <= b,
    ensures
        score_total(stages, a) <= score_total(stages, b),
    decreases b,
{
    if a < b {
        lemma_score_total_monotone(stages, a, (b - 1) as nat);
    }
}

/// How long a report's run took over the stages a comparison watches: the sum of each
/// stage's total time, a stage that is missing or was never entered counting as the
/// missing-stage score. Lower is better.
pub fn report_score(stages: &[Option<StageTotals>]) -> (r: u128)
    requires
        score_total(stages@, stages@.len()) <= u128::MAX,
    ensures
        r == score_total(stages@, stages@.len()),
{
    let mut total: u128 = 0;
    let mut i: usize = 0;
    while i < stages.len()
        invariant
            i <= stages@.len(),
            score_total(stages@, stages@.len()) <= u128::MAX,
            total == score_total(stages@, i as nat),
        decreases stages@.len() - i,
    {
        proof {
            lemma_score_total_monotone(stages@, (i + 1) as nat, stages@.len());
        }
        let score: u128 = match stages[i] {
            Some(s) => if s.calls > 0 {
                s.total_nanos as u128
            } else {
                MISSING_STAGE_SCORE
            },
            None => MISSING_STAGE_SCORE,
        };
        total = total + score;
        i = i + 1;
    }
    total
}

} // verus!
