use vstd::prelude::*;

verus! {

/// Number of four-component parameter vectors of a post-process pass.
pub const POST_PROCESS_PARAM_VEC4S: usize = 8;

/// Names a post-process shader.
#[derive(Debug, Hash)]
pub struct PostProcessShaderId(pub String);

impl View for PostProcessShaderId {
    type V = Seq<char>;

    open spec fn view(&self) -> Seq<char> {
        self.0@
    }
}

impl Clone for PostProcessShaderId {
    fn clone(&self) -> (r: Self)
        ensures
            r@ == self@,
    {
        PostProcessShaderId(self.0.clone())
    }
}

impl PartialEq for PostProcessShaderId {
    fn eq(&self, other: &Self) -> (r: bool) {
        self.0 == other.0
    }
}

impl vstd::std_specs::cmp::PartialEqSpecImpl for PostProcessShaderId {
    open spec fn obeys_eq_spec() -> bool {
        true
    }

    open spec fn eq_spec(&self, other: &Self) -> bool {
        self@ == other@
    }
}

impl Eq for PostProcessShaderId {}

impl From<&str> for PostProcessShaderId {
    fn from(value: &str) -> (r: Self)
        ensures
            r@ == value@,
    {
        PostProcessShaderId(value.to_owned())
    }
}

impl vstd::std_specs::convert::FromSpecImpl<&str> for PostProcessShaderId {
    open spec fn obeys_from_spec() -> bool {
        false
    }

    open spec fn from_spec(v: &str) -> Self {
        arbitrary()
    }
}

impl From<String> for PostProcessShaderId {
    fn from(value: String) -> (r: Self)
        ensures
            r@ == value@,
    {
        PostProcessShaderId(value)
    }
}

impl vstd::std_specs::convert::FromSpecImpl<String> for PostProcessShaderId {
    open spec fn obeys_from_spec() -> bool {
        true
    }

    open spec fn from_spec(v: String) -> Self {
        PostProcessShaderId(v)
    }
}

impl PostProcessShaderId {
    pub fn as_str(&self) -> (r: &str)
        ensures
            r@ == self@,
    {
        self.0.as_str()
    }
}

/// The image a post-process pass reads.
#[derive(Debug, Clone, Copy, PartialEq, Eq, Structural)]
pub enum PostProcessInput {
    Scene,
    Pass(usize),
}

/// Where a post-process pass writes.
#[derive(Debug, Clone, Copy, PartialEq, Eq, Structural)]
pub enum PostProcessOutput {
    Temporary,
    Final,
}

/// Shader parameters of a pass, as IEEE-754 single-precision bit patterns.
#[derive(Debug, Clone, Copy, PartialEq, Eq)]
pub struct PostProcessParams {
    pub values: [[u32; 4]; POST_PROCESS_PARAM_VEC4S],
}

impl PostProcessParams {
    /// All parameters zero.
    pub fn zeroed() -> (r: Self)
        ensures
            forall|i: int, j: int| 0 <= i < 8 && 0 <= j < 4 ==> r.values@[i]@[j] == 0,
    {
        let row: [u32; 4] = [0, 0, 0, 0];
        let r = PostProcessParams { values: [row, row, row, row, row, row, row, row] };
        assert(row@ =~= seq![0u32, 0u32, 0u32, 0u32]);
        r
    }
}

impl Default for PostProcessParams {
    fn default() -> (r: Self)
        ensures
            forall|i: int, j: int| 0 <= i < 8 && 0 <= j < 4 ==> r.values@[i]@[j] == 0,
    {
        PostProcessParams::zeroed()
    }
}

/// One post-process pass.
#[derive(Debug, Clone, PartialEq)]
pub struct PostProcessPass {
    pub shader_id: PostProcessShaderId,
    pub input: PostProcessInput,
    pub output: PostProcessOutput,
    pub params: PostProcessParams,
}

impl PostProcessPass {
    pub fn new(shader_id: &str, input: PostProcessInput, output: PostProcessOutput) -> (r: Self)
        ensures
            r.shader_id@ == shader_id@,
            r.input == input,
            r.output == output,
            forall|i: int, j: int| 0 <= i < 8 && 0 <= j < 4 ==> r.params.values@[i]@[j] == 0,
    {
        PostProcessPass {
            shader_id: PostProcessShaderId::from(shader_id),
            input,
            output,
            params: PostProcessParams::zeroed(),
        }
    }

    pub fn with_params(self, params: PostProcessParams) -> (r: Self)
        ensures
            r.shader_id == self.shader_id,
            r.input == self.input,
            r.output == self.output,
            r.params == params,
    {
        let mut pass = self;
        pass.params = params;
        pass
    }
}

/// Why a list of passes is not a post-process chain.
#[derive(Debug, Clone, Copy, PartialEq, Eq, Structural)]
pub enum PostProcessPlanError {
    EmptyShaderId { pass: usize },
    UnsupportedInput { pass: usize, input: PostProcessInput },
    FinalOutputBeforeLast { pass: usize },
    MissingFinalOutput,
}

/// The input pass `index` of a linear chain reads.
pub open spec fn chain_input(index: int) -> PostProcessInput {
    if index == 0 {
        PostProcessInput::Scene
    } else {
        PostProcessInput::Pass((index - 1) as usize)
    }
}

/// What is wrong with pass `index` of a chain of `len` passes, if anything.
pub open spec fn pass_error(p: PostProcessPass, index: int, len: int) -> Option<PostProcessPlanError> {
    if p.shader_id@.len() == 0 {
        Some(PostProcessPlanError::EmptyShaderId { pass: index as usize })
    } else if p.input != chain_input(index) {
        Some(PostProcessPlanError::UnsupportedInput { pass: index as usize, input: p.input })
    } else if p.output == PostProcessOutput::Final && index + 1 != len {
        Some(PostProcessPlanError::FinalOutputBeforeLast { pass: index as usize })
    } else {
        None
    }
}

/// The first error among the first `n` passes.
pub open spec fn first_pass_error(passes: Seq<PostProcessPass>, n: nat) -> Option<PostProcessPlanError>
    decreases n,
{
    if n == 0 {
        None
    } else {
        match first_pass_error(passes, (n - 1) as nat) {
            Some(e) => Some(e),
            None => pass_error(passes[n - 1], n - 1, passes.len() as int),
        }
    }
}

/// The verdict on a list of passes: an empty list is a valid chain; otherwise the first
/// pass with an empty shader id, an input other than its predecessor's output, or a
/// final output before the end is refused, and so is a chain whose last pass does not
/// write the final output.
pub open spec fn chain_verdict(passes: Seq<PostProcessPass>) -> Result<(), PostProcessPlanError> {
    if passes.len() == 0 {
        Ok(())
    } else {
        match first_pass_error(passes, passes.len()) {
            Some(e) => Err(e),
            None => if passes.last().output != PostProcessOutput::Final {
                Err(PostProcessPlanError::MissingFinalOutput)
            } else {
                Ok(())
            },
        }
    }
}

/// The passes of a linear chain over these shader ids: the first reads the scene, each
/// next one the previous pass, and only the last writes the final output.
pub open spec fn is_linear_chain(passes: Seq<PostProcessPass>, ids: Seq<Seq<char>>) -> bool {
    &&& passes.len() == ids.len()
    &&& forall|i: int| #![trigger passes[i]]
        0 <= i < ids.len() ==> {
            &&& passes[i].shader_id@ == ids[i]
            &&& passes[i].input == chain_input(i)
            &&& passes[i].output == if i + 1 == ids.len() {
                PostProcessOutput::Final
            } else {
                PostProcessOutput::Temporary
            }
        }
}

/// A linear chain over non-empty shader ids is a valid chain: `new` accepts its passes.
pub proof fn law_linear_chain_is_valid(passes: Seq<PostProcessPass>, ids: Seq<Seq<char>>)
    requires
        is_linear_chain(passes, ids),
        forall|i: int| 0 <= i < ids.len() ==> (#[trigger] ids[i]).len() > 0,
    ensures
        chain_verdict(passes) is Ok,
{
    lemma_linear_no_error(passes, ids, passes.len());
}

proof fn lemma_linear_no_error(passes: Seq<PostProcessPass>, ids: Seq<Seq<char>>, n: nat)
    requires
        is_linear_chain(passes, ids),
        forall|i: int| 0 <= i < ids.len() ==> (#[trigger] ids[i]).len() > 0,
        n <= passes.len(),
    ensures
        first_pass_error(passes, n) is None,
    decreases n,
{
    if n > 0 {
        lemma_linear_no_error(passes, ids, (n - 1) as nat);
        assert(passes[n - 1].shader_id@ == ids[n - 1]);
        assert(ids[n - 1].len() > 0);
    }
}

/// A list that `new` accepts is a linear chain: the first pass reads the scene and
/// each later pass `i` reads exactly the output of pass `i - 1`.
pub proof fn law_accepted_chain_is_linear(passes: Seq<PostProcessPass>)
    requires
        chain_verdict(passes) is Ok,
    ensures
        forall|i: int|
            0 <= i < passes.len() ==> (#[trigger] passes[i]).input == if i == 0 {
                PostProcessInput::Scene
            } else {
                PostProcessInput::Pass((i - 1) as usize)
            },
{
    assert forall|i: int| 0 <= i < passes.len() implies (#[trigger] passes[i]).input == if i == 0 {
        PostProcessInput::Scene
    } else {
        PostProcessInput::Pass((i - 1) as usize)
    } by {
        lemma_no_error_prefix(passes, (i + 1) as nat, passes.len());
    }
}

/// Where the first `b` passes have no error, neither have the first `a`.
proof fn lemma_no_error_prefix(passes: Seq<PostProcessPass>, a: nat, b: nat)
    requires
        a <= b,
        first_pass_error(passes, b) is None,
    ensures
        first_pass_error(passes, a) is None,
    decreases b,
{
    if a < b {
        lemma_no_error_prefix(passes, a, (b - 1) as nat);
    }
}

/// The first pass whose input is not the previous pass's output (or the scene, for the
/// first pass), if its shader id is not empty and every pass before it is in order, is
/// refused with `UnsupportedInput` naming that pass and its input.
pub proof fn law_first_wrong_input_is_reported(passes: Seq<PostProcessPass>, i: int)
    requires
        0 <= i < passes.len(),
        forall|j: int| 0 <= j < i ==> #[trigger] pass_error(passes[j], j, passes.len() as int) is None,
        passes[i].shader_id@.len() > 0,
        passes[i].input != if i == 0 {
            PostProcessInput::Scene
        } else {
            PostProcessInput::Pass((i - 1) as usize)
        },
    ensures
        chain_verdict(passes) == Err::<(), PostProcessPlanError>(
            PostProcessPlanError::UnsupportedInput { pass: i as usize, input: passes[i].input },
        ),
{
    lemma_prefix_in_order(passes, i as nat);
    assert(first_pass_error(passes, (i + 1) as nat) == Some(
        PostProcessPlanError::UnsupportedInput { pass: i as usize, input: passes[i].input },
    ));
    lemma_first_error_stays(passes, (i + 1) as nat, passes.len());
}

proof fn lemma_prefix_in_order(passes: Seq<PostProcessPass>, n: nat)
    requires
        n <= passes.len(),
        forall|j: int| 0 <= j < n ==> #[trigger] pass_error(passes[j], j, passes.len() as int) is None,
    ensures
        first_pass_error(passes, n) is None,
    decreases n,
{
    if n > 0 {
        lemma_prefix_in_order(passes, (n - 1) as nat);
        assert(pass_error(passes[n - 1], n - 1, passes.len() as int) is None);
    }
}

pub proof fn lemma_first_error_stays(passes: Seq<PostProcessPass>, a: nat, b: nat)
    requires
        a <= b,
        first_pass_error(passes, a) is Some,
    ensures
        first_pass_error(passes, b) == first_pass_error(passes, a),
    decreases b,
{
    if a < b {
        lemma_first_error_stays(passes, a, (b - 1) as nat);
    }
}

pub fn validate_post_process_passes(passes: &Vec<PostProcessPass>) -> (r: Result<(), PostProcessPlanError>)
    ensures
        r == chain_verdict(passes@),
{
    if passes.len() == 0 {
        return Ok(());
    }
    let mut index: usize = 0;
    while index < passes.len()
        invariant
            index <= passes@.len(),
            first_pass_error(passes@, index as nat) is None,
        decreases passes@.len() - index,
    {
        let pass = &passes[index];
        if pass.shader_id.as_str().is_empty() {
            proof {
                lemma_first_error_stays(passes@, (index + 1) as nat, passes@.len());
            }
            return Err(PostProcessPlanError::EmptyShaderId { pass: index });
        }
        let expected_input = if index == 0 {
            PostProcessInput::Scene
        } else {
            PostProcessInput::Pass(index - 1)
        };
        if pass.input != expected_input {
            proof {
                lemma_first_error_stays(passes@, (index + 1) as nat, passes@.len());
            }
            return Err(PostProcessPlanError::UnsupportedInput { pass: index, input: pass.input });
        }
        if pass.output == PostProcessOutput::Final && index + 1 != passes.len() {
            proof {
                lemma_first_error_stays(passes@, (index + 1) as nat, passes@.len());
            }
            return Err(PostProcessPlanError::FinalOutputBeforeLast { pass: index });
        }
        index = index + 1;
    }
    if passes[passes.len() - 1].output != PostProcessOutput::Final {
        return Err(PostProcessPlanError::MissingFinalOutput);
    }
    Ok(())
}

/// A validated chain of post-process passes.
#[derive(Debug, Clone, PartialEq)]
pub struct PostProcessPlan {
    passes: Vec<PostProcessPass>,
}

impl View for PostProcessPlan {
    type V = Seq<PostProcessPass>;

    closed spec fn view(&self) -> Seq<PostProcessPass> {
        self.passes@
    }
}

impl PostProcessPlan {
    pub fn empty() -> (r: Self)
        ensures
            r@ == Seq::<PostProcessPass>::empty(),
    {
        PostProcessPlan { passes: Vec::new() }
    }

    /// A chain that runs the shaders in order: the first reads the scene, each next one
    /// the previous pass, and the last writes the final output.
    pub fn linear(shader_ids: &[&str]) -> (r: Self)
        ensures
            is_linear_chain(r@, shader_ids@.map_values(|id: &str| id@)),
            r@.len() == shader_ids@.len(),
            forall|i: int| #![trigger r@[i]]
                0 <= i < shader_ids@.len() ==> {
                    &&& r@[i].shader_id@ == shader_ids@[i]@
                    &&& r@[i].input == chain_input(i)
                    &&& r@[i].output == if i + 1 == shader_ids@.len() {
                        PostProcessOutput::Final
                    } else {
                        PostProcessOutput::Temporary
                    }
                    &&& forall|a: int, b: int| 0 <= a < 8 && 0 <= b < 4 ==> r@[i].params.values@[a]@[b] == 0
                },
    {
        let pass_count = shader_ids.len();
        let mut passes: Vec<PostProcessPass> = Vec::new();
        let mut index: usize = 0;
        while index < pass_count
            invariant
                index <= pass_count,
                pass_count == shader_ids@.len(),
                passes@.len() == index,
                forall|i: int| #![trigger passes@[i]]
                    0 <= i < index ==> {
                        &&& passes@[i].shader_id@ == shader_ids@[i]@
                        &&& passes@[i].input == chain_input(i)
                        &&& passes@[i].output == if i + 1 == pass_count {
                            PostProcessOutput::Final
                        } else {
                            PostProcessOutput::Temporary
                        }
                        &&& forall|a: int, b: int| 0 <= a < 8 && 0 <= b < 4 ==> passes@[i].params.values@[a]@[b] == 0
                    },
            decreases pass_count - index,
        {
            let input = if index == 0 {
                PostProcessInput::Scene
            } else {
                PostProcessInput::Pass(index - 1)
            };
            let output = if index + 1 == pass_count {
                PostProcessOutput::Final
            } else {
                PostProcessOutput::Temporary
            };
            passes.push(PostProcessPass::new(shader_ids[index], input, output));
            index = index + 1;
        }
        PostProcessPlan { passes }
    }

    /// The chain of these passes, or why they do not form one.
    pub fn new(passes: Vec<PostProcessPass>) -> (r: Result<Self, PostProcessPlanError>)
        ensures
            match r {
                Ok(plan) => chain_verdict(passes@) is Ok && plan@ == passes@,
                Err(e) => chain_verdict(passes@) == Err::<(), PostProcessPlanError>(e),
            },
    {
        match validate_post_process_passes(&passes) {
            Ok(()) => Ok(PostProcessPlan { passes }),
            Err(e) => Err(e),
        }
    }

    pub fn passes(&self) -> (r: &[PostProcessPass])
        ensures
            r@ == self@,
    {
        self.passes.as_slice()
    }

    pub fn is_empty(&self) -> (r: bool)
        ensures
            r == (self@.len() == 0),
    {
        self.passes.len() == 0
    }
}

impl Default for PostProcessPlan {
    fn default() -> (r: Self)
        ensures
            r@ == Seq::<PostProcessPass>::empty(),
    {
        PostProcessPlan::empty()
    }
}

} // verus!
