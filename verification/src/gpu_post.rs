use crate::postprocess::{PostProcessParams, PostProcessPass, PostProcessPlan, PostProcessShaderId};
use crate::text::{is_blank, source_is_blank};
use vstd::prelude::*;

verus! {

/// The source of a post-process shader.
#[derive(Debug, Clone, Copy)]
pub enum WgpuPostProcessShaderSource<'a> {
    Wgsl(&'a str),
}

/// The text of a shader source.
pub open spec fn source_text(source: WgpuPostProcessShaderSource) -> Seq<char> {
    match source {
        WgpuPostProcessShaderSource::Wgsl(text) => text@,
    }
}

/// Why a post-process plan cannot be lowered to shaders.
#[derive(Debug, Clone, PartialEq, Eq)]
pub enum WgpuPostProcessError {
    MissingShader { shader_id: PostProcessShaderId },
    EmptyShaderSource { shader_id: PostProcessShaderId },
    UnsupportedResolveTarget,
}

/// The source registered last under a shader id, if any.
pub open spec fn registered_source(
    registry: Seq<(PostProcessShaderId, WgpuPostProcessShaderSource)>,
    id: Seq<char>,
) -> Option<Seq<char>>
    decreases registry.len(),
{
    if registry.len() == 0 {
        None
    } else if registry.last().0@ == id {
        Some(source_text(registry.last().1))
    } else {
        registered_source(registry.drop_last(), id)
    }
}

/// A pass lowered to shader code, as mathematical values.
pub struct WgpuPassView {
    pub shader_id: Seq<char>,
    pub params: PostProcessParams,
    pub wgsl: Seq<char>,
}

/// What lowering a plan gives: the passes, or the first pass whose shader is
/// missing or blank.
pub enum WgpuPlanOutcome {
    Planned(Seq<WgpuPassView>),
    MissingShader(Seq<char>),
    EmptyShaderSource(Seq<char>),
}

/// Lowering the first `n` passes against a registry.
pub open spec fn lowered_prefix(
    passes: Seq<PostProcessPass>,
    registry: Seq<(PostProcessShaderId, WgpuPostProcessShaderSource)>,
    n: nat,
) -> WgpuPlanOutcome
    decreases n,
{
    if n == 0 {
        WgpuPlanOutcome::Planned(Seq::empty())
    } else {
        match lowered_prefix(passes, registry, (n - 1) as nat) {
            WgpuPlanOutcome::Planned(done) => {
                let pass = passes[n - 1];
                match registered_source(registry, pass.shader_id@) {
                    None => WgpuPlanOutcome::MissingShader(pass.shader_id@),
                    Some(text) => if is_blank(text) {
                        WgpuPlanOutcome::EmptyShaderSource(pass.shader_id@)
                    } else {
                        WgpuPlanOutcome::Planned(
                            done.push(WgpuPassView { shader_id: pass.shader_id@, params: pass.params, wgsl: text }),
                        )
                    },
                }
            },
            failed => failed,
        }
    }
}

/// Lowering a whole chain of passes against a registry.
pub open spec fn lowered(
    passes: Seq<PostProcessPass>,
    registry: Seq<(PostProcessShaderId, WgpuPostProcessShaderSource)>,
) -> WgpuPlanOutcome {
    lowered_prefix(passes, registry, passes.len())
}

pub proof fn lemma_failure_stays(
    passes: Seq<PostProcessPass>,
    registry: Seq<(PostProcessShaderId, WgpuPostProcessShaderSource)>,
    a: nat,
    b: nat,
)
    requires
        a <= b,
        !(lowered_prefix(passes, registry, a) is Planned),
    ensures
        lowered_prefix(passes, registry, b) == lowered_prefix(passes, registry, a),
    decreases b,
{
    if a < b {
        lemma_failure_stays(passes, registry, a, (b - 1) as nat);
    }
}

/// A post-process pass with its shader code.
#[derive(Debug, Clone)]
pub struct WgpuPostProcessPassPlan {
    pub shader_id: PostProcessShaderId,
    pub params: PostProcessParams,
    wgsl: String,
}

impl View for WgpuPostProcessPassPlan {
    type V = WgpuPassView;

    closed spec fn view(&self) -> WgpuPassView {
        WgpuPassView { shader_id: self.shader_id@, params: self.params, wgsl: self.wgsl@ }
    }
}

impl WgpuPostProcessPassPlan {
    pub fn wgsl(&self) -> (r: &str)
        ensures
            r@ == self@.wgsl,
    {
        self.wgsl.as_str()
    }
}

/// A post-process chain whose passes carry their shader code.
#[derive(Debug, Clone)]
pub struct WgpuPostProcessPlan {
    passes: Vec<WgpuPostProcessPassPlan>,
}

impl View for WgpuPostProcessPlan {
    type V = Seq<WgpuPassView>;

    closed spec fn view(&self) -> Seq<WgpuPassView> {
        self.passes@.map_values(|p: WgpuPostProcessPassPlan| p@)
    }
}

/// The source registered last under `id`, by its position in the registry.
fn find_registered(
    registry: &[(PostProcessShaderId, WgpuPostProcessShaderSource)],
    id: &PostProcessShaderId,
) -> (r: Option<usize>)
    ensures
        match r {
            Some(k) => k < registry@.len() && registered_source(registry@, id@) == Some(
                source_text(registry@[k as int].1),
            ),
            None => registered_source(registry@, id@) is None,
        },
{
    let mut k: usize = registry.len();
    assert(registry@.take(k as int) =~= registry@);
    while k > 0
        invariant
            k <= registry@.len(),
            registered_source(registry@, id@) == registered_source(registry@.take(k as int), id@),
        decreases k,
    {
        let entry = &registry[k - 1];
        proof {
            assert(registry@.take(k as int).drop_last() =~= registry@.take(k - 1));
        }
        if entry.0 == *id {
            return Some(k - 1);
        }
        k = k - 1;
    }
    None
}

impl WgpuPostProcessPlan {
    /// Gives each pass of `plan` the source registered (last) under its shader id;
    /// the first pass whose shader is not registered, or is blank, is refused.
    pub fn from_render_plan(
        plan: &PostProcessPlan,
        shader_registry: &[(PostProcessShaderId, WgpuPostProcessShaderSource)],
    ) -> (r: Result<Self, WgpuPostProcessError>)
        ensures
            match r {
                Ok(p) => lowered(plan@, shader_registry@) == WgpuPlanOutcome::Planned(p@),
                Err(WgpuPostProcessError::MissingShader { shader_id }) => lowered(plan@, shader_registry@)
                    == WgpuPlanOutcome::MissingShader(shader_id@),
                Err(WgpuPostProcessError::EmptyShaderSource { shader_id }) => lowered(plan@, shader_registry@)
                    == WgpuPlanOutcome::EmptyShaderSource(shader_id@),
                Err(WgpuPostProcessError::UnsupportedResolveTarget) => false,
            },
    {
        let passes = plan.passes();
        let mut lowered_passes: Vec<WgpuPostProcessPassPlan> = Vec::new();
        let mut index: usize = 0;
        assert(lowered_passes@.map_values(|p: WgpuPostProcessPassPlan| p@) =~= Seq::<WgpuPassView>::empty());
        while index < passes.len()
            invariant
                index <= passes@.len(),
                passes@ == plan@,
                lowered_prefix(plan@, shader_registry@, index as nat) == WgpuPlanOutcome::Planned(
                    lowered_passes@.map_values(|p: WgpuPostProcessPassPlan| p@),
                ),
            decreases passes@.len() - index,
        {
            let pass = &passes[index];
            match find_registered(shader_registry, &pass.shader_id) {
                None => {
                    proof {
                        lemma_failure_stays(plan@, shader_registry@, (index + 1) as nat, plan@.len());
                    }
                    return Err(WgpuPostProcessError::MissingShader { shader_id: pass.shader_id.clone() });
                },
                Some(k) => {
                    let text = match shader_registry[k].1 {
                        WgpuPostProcessShaderSource::Wgsl(text) => text,
                    };
                    if source_is_blank(text) {
                        proof {
                            lemma_failure_stays(plan@, shader_registry@, (index + 1) as nat, plan@.len());
                        }
                        return Err(WgpuPostProcessError::EmptyShaderSource { shader_id: pass.shader_id.clone() });
                    }
                    let lowered_pass = WgpuPostProcessPassPlan {
                        shader_id: pass.shader_id.clone(),
                        params: pass.params,
                        wgsl: text.to_owned(),
                    };
                    let ghost old_view = lowered_passes@.map_values(|p: WgpuPostProcessPassPlan| p@);
                    let ghost pass_view = lowered_pass@;
                    lowered_passes.push(lowered_pass);
                    proof {
                        assert(lowered_passes@.map_values(|p: WgpuPostProcessPassPlan| p@) =~= old_view.push(
                            pass_view,
                        ));
                    }
                },
            }
            index = index + 1;
        }
        Ok(WgpuPostProcessPlan { passes: lowered_passes })
    }

    pub fn passes(&self) -> (r: &[WgpuPostProcessPassPlan])
        ensures
            r@.map_values(|p: WgpuPostProcessPassPlan| p@) == self@,
    {
        self.passes.as_slice()
    }

    pub fn is_empty(&self) -> (r: bool)
        ensures
            r == (self@.len() == 0),
    {
        self.passes.len() == 0
    }
}

} // verus!
