use crate::dispatch::{BackendEvent, Live2DRenderBackend};
use crate::model::{
    clipping_view, ids_view, AlphaBlendMode, BlendMode, ClippingInfo, ClippingView, ColorBlendMode, DrawableId,
    ModelSnapshot, SnapshotView, TextureAsset,
};
use crate::plan::{DrawCommand, MaskPass, ModelRenderCtx};
use crate::text::{chars_of, concat, decimal_value, parse_u32, parse_usize, str_equal, string_of};
use vstd::prelude::*;

verus! {

/// Frame counts and view size of a real-model render run.
#[derive(Debug, Clone, PartialEq, Eq)]
pub struct RealModelRenderConfig {
    pub frames: usize,
    pub warmup_frames: usize,
    pub width: u32,
    pub height: u32,
    pub motion_group: Option<String>,
}

impl RealModelRenderConfig {
    /// A configuration with at least one frame and a view of at least one pixel.
    pub fn new(
        frames: usize,
        warmup_frames: usize,
        width: u32,
        height: u32,
        motion_group: Option<String>,
    ) -> (r: Self)
        ensures
            r.frames == if frames == 0 { 1 } else { frames },
            r.warmup_frames == warmup_frames,
            r.width == if width == 0 { 1 } else { width },
            r.height == if height == 0 { 1 } else { height },
            r.motion_group == motion_group,
    {
        RealModelRenderConfig {
            frames: if frames == 0 { 1 } else { frames },
            warmup_frames,
            width: if width == 0 { 1 } else { width },
            height: if height == 0 { 1 } else { height },
            motion_group,
        }
    }
}

/// Which blend modes synthetic drawables cycle through.
#[derive(Debug, Clone, Copy, PartialEq, Eq, Structural)]
pub enum SyntheticBlendProfile {
    ClassicMix,
    AdvancedColors,
    AdvancedAlphas,
    AdvancedMatrix,
    AllModes,
}

impl Default for SyntheticBlendProfile {
    fn default() -> (r: Self)
        ensures
            r == SyntheticBlendProfile::ClassicMix,
    {
        SyntheticBlendProfile::ClassicMix
    }
}

/// The name of a profile on the command line.
pub open spec fn profile_name(p: SyntheticBlendProfile) -> Seq<char> {
    match p {
        SyntheticBlendProfile::ClassicMix => "classic-mix"@,
        SyntheticBlendProfile::AdvancedColors => "advanced-colors"@,
        SyntheticBlendProfile::AdvancedAlphas => "advanced-alphas"@,
        SyntheticBlendProfile::AdvancedMatrix => "advanced-matrix"@,
        SyntheticBlendProfile::AllModes => "all-modes"@,
    }
}

/// Number of colour blend types.
pub const COLOR_BLEND_MODE_COUNT: usize = 16;

/// Number of alpha blend types.
pub const ALPHA_BLEND_MODE_COUNT: usize = 5;

impl SyntheticBlendProfile {
    /// The profile with this name, if any.
    pub fn parse(value: &str) -> (r: Option<Self>)
        ensures
            match r {
                Some(p) => profile_name(p) == value@,
                None => forall|p: SyntheticBlendProfile| profile_name(p) != value@,
            },
    {
        if str_equal(value, "classic-mix") {
            Some(SyntheticBlendProfile::ClassicMix)
        } else if str_equal(value, "advanced-colors") {
            Some(SyntheticBlendProfile::AdvancedColors)
        } else if str_equal(value, "advanced-alphas") {
            Some(SyntheticBlendProfile::AdvancedAlphas)
        } else if str_equal(value, "advanced-matrix") {
            Some(SyntheticBlendProfile::AdvancedMatrix)
        } else if str_equal(value, "all-modes") {
            Some(SyntheticBlendProfile::AllModes)
        } else {
            None
        }
    }

    pub fn as_str(self) -> (r: &'static str)
        ensures
            r@ == profile_name(self),
    {
        match self {
            SyntheticBlendProfile::ClassicMix => "classic-mix",
            SyntheticBlendProfile::AdvancedColors => "advanced-colors",
            SyntheticBlendProfile::AdvancedAlphas => "advanced-alphas",
            SyntheticBlendProfile::AdvancedMatrix => "advanced-matrix",
            SyntheticBlendProfile::AllModes => "all-modes",
        }
    }

    /// How many drawables the profile needs to use each of its blend modes once.
    pub open spec fn minimum_coverage_drawables_spec(self) -> int {
        match self {
            SyntheticBlendProfile::ClassicMix => 0int,
            SyntheticBlendProfile::AdvancedColors => COLOR_BLEND_MODE_COUNT as int,
            SyntheticBlendProfile::AdvancedAlphas => ALPHA_BLEND_MODE_COUNT as int,
            SyntheticBlendProfile::AdvancedMatrix => COLOR_BLEND_MODE_COUNT * ALPHA_BLEND_MODE_COUNT,
            SyntheticBlendProfile::AllModes => 3 + COLOR_BLEND_MODE_COUNT * ALPHA_BLEND_MODE_COUNT,
        }
    }

    /// How many drawables the profile needs to use each of its blend modes once.
    pub fn minimum_coverage_drawables(self) -> (r: usize)
        ensures
            r == self.minimum_coverage_drawables_spec(),
            r as int == match self {
                SyntheticBlendProfile::ClassicMix => 0int,
                SyntheticBlendProfile::AdvancedColors => COLOR_BLEND_MODE_COUNT as int,
                SyntheticBlendProfile::AdvancedAlphas => ALPHA_BLEND_MODE_COUNT as int,
                SyntheticBlendProfile::AdvancedMatrix => COLOR_BLEND_MODE_COUNT * ALPHA_BLEND_MODE_COUNT,
                SyntheticBlendProfile::AllModes => 3 + COLOR_BLEND_MODE_COUNT * ALPHA_BLEND_MODE_COUNT,
            },
    {
        match self {
            SyntheticBlendProfile::ClassicMix => 0,
            SyntheticBlendProfile::AdvancedColors => COLOR_BLEND_MODE_COUNT,
            SyntheticBlendProfile::AdvancedAlphas => ALPHA_BLEND_MODE_COUNT,
            SyntheticBlendProfile::AdvancedMatrix => COLOR_BLEND_MODE_COUNT * ALPHA_BLEND_MODE_COUNT,
            SyntheticBlendProfile::AllModes => 3 + COLOR_BLEND_MODE_COUNT * ALPHA_BLEND_MODE_COUNT,
        }
    }
}

/// The colour blend types in Cubism's order.
pub open spec fn color_mode_at(i: int) -> ColorBlendMode {
    if i == 0 {
        ColorBlendMode::Normal
    } else if i == 1 {
        ColorBlendMode::Add
    } else if i == 2 {
        ColorBlendMode::AddGlow
    } else if i == 3 {
        ColorBlendMode::Darken
    } else if i == 4 {
        ColorBlendMode::Multiply
    } else if i == 5 {
        ColorBlendMode::ColorBurn
    } else if i == 6 {
        ColorBlendMode::LinearBurn
    } else if i == 7 {
        ColorBlendMode::Lighten
    } else if i == 8 {
        ColorBlendMode::Screen
    } else if i == 9 {
        ColorBlendMode::ColorDodge
    } else if i == 10 {
        ColorBlendMode::Overlay
    } else if i == 11 {
        ColorBlendMode::SoftLight
    } else if i == 12 {
        ColorBlendMode::HardLight
    } else if i == 13 {
        ColorBlendMode::LinearLight
    } else if i == 14 {
        ColorBlendMode::Hue
    } else {
        ColorBlendMode::Color
    }
}

/// The alpha blend types in Cubism's order.
pub open spec fn alpha_mode_at(i: int) -> AlphaBlendMode {
    if i == 0 {
        AlphaBlendMode::Over
    } else if i == 1 {
        AlphaBlendMode::Atop
    } else if i == 2 {
        AlphaBlendMode::Out
    } else if i == 3 {
        AlphaBlendMode::ConjointOver
    } else {
        AlphaBlendMode::DisjointOver
    }
}

fn color_blend_mode_at(i: usize) -> (r: ColorBlendMode)
    requires
        i < COLOR_BLEND_MODE_COUNT,
    ensures
        r == color_mode_at(i as int),
{
    match i {
        0 => ColorBlendMode::Normal,
        1 => ColorBlendMode::Add,
        2 => ColorBlendMode::AddGlow,
        3 => ColorBlendMode::Darken,
        4 => ColorBlendMode::Multiply,
        5 => ColorBlendMode::ColorBurn,
        6 => ColorBlendMode::LinearBurn,
        7 => ColorBlendMode::Lighten,
        8 => ColorBlendMode::Screen,
        9 => ColorBlendMode::ColorDodge,
        10 => ColorBlendMode::Overlay,
        11 => ColorBlendMode::SoftLight,
        12 => ColorBlendMode::HardLight,
        13 => ColorBlendMode::LinearLight,
        14 => ColorBlendMode::Hue,
        _ => ColorBlendMode::Color,
    }
}

fn alpha_blend_mode_at(i: usize) -> (r: AlphaBlendMode)
    requires
        i < ALPHA_BLEND_MODE_COUNT,
    ensures
        r == alpha_mode_at(i as int),
{
    match i {
        0 => AlphaBlendMode::Over,
        1 => AlphaBlendMode::Atop,
        2 => AlphaBlendMode::Out,
        3 => AlphaBlendMode::ConjointOver,
        _ => AlphaBlendMode::DisjointOver,
    }
}

/// The advanced mode with combination number `index`, colours major.
pub open spec fn advanced_matrix_mode(index: int) -> BlendMode {
    let combo = index % (COLOR_BLEND_MODE_COUNT * ALPHA_BLEND_MODE_COUNT) as int;
    BlendMode::Advanced {
        color: color_mode_at(combo / ALPHA_BLEND_MODE_COUNT as int),
        alpha: alpha_mode_at(combo % ALPHA_BLEND_MODE_COUNT as int),
    }
}

/// The blend mode of synthetic drawable `index` under a profile.
pub open spec fn synthetic_mode(profile: SyntheticBlendProfile, index: int) -> BlendMode {
    match profile {
        SyntheticBlendProfile::ClassicMix => if index % 11 == 0 {
            BlendMode::Additive
        } else if index % 11 == 1 {
            BlendMode::Multiplicative
        } else {
            BlendMode::Normal
        },
        SyntheticBlendProfile::AdvancedColors => BlendMode::Advanced {
            color: color_mode_at(index % COLOR_BLEND_MODE_COUNT as int),
            alpha: AlphaBlendMode::Over,
        },
        SyntheticBlendProfile::AdvancedAlphas => BlendMode::Advanced {
            color: ColorBlendMode::Multiply,
            alpha: alpha_mode_at(index % ALPHA_BLEND_MODE_COUNT as int),
        },
        SyntheticBlendProfile::AdvancedMatrix => advanced_matrix_mode(index),
        SyntheticBlendProfile::AllModes => if index == 0 {
            BlendMode::Normal
        } else if index == 1 {
            BlendMode::Additive
        } else if index == 2 {
            BlendMode::Multiplicative
        } else {
            advanced_matrix_mode(index - 3)
        },
    }
}

pub fn advanced_matrix_blend_mode(index: usize) -> (r: BlendMode)
    ensures
        r == advanced_matrix_mode(index as int),
{
    let alpha_len = ALPHA_BLEND_MODE_COUNT;
    let combo = index % (COLOR_BLEND_MODE_COUNT * alpha_len);
    BlendMode::Advanced {
        color: color_blend_mode_at(combo / alpha_len),
        alpha: alpha_blend_mode_at(combo % alpha_len),
    }
}

pub fn synthetic_blend_mode(profile: SyntheticBlendProfile, index: usize) -> (r: BlendMode)
    ensures
        r == synthetic_mode(profile, index as int),
{
    match profile {
        SyntheticBlendProfile::ClassicMix => match index % 11 {
            0 => BlendMode::Additive,
            1 => BlendMode::Multiplicative,
            _ => BlendMode::Normal,
        },
        SyntheticBlendProfile::AdvancedColors => BlendMode::Advanced {
            color: color_blend_mode_at(index % COLOR_BLEND_MODE_COUNT),
            alpha: AlphaBlendMode::Over,
        },
        SyntheticBlendProfile::AdvancedAlphas => BlendMode::Advanced {
            color: ColorBlendMode::Multiply,
            alpha: alpha_blend_mode_at(index % ALPHA_BLEND_MODE_COUNT),
        },
        SyntheticBlendProfile::AdvancedMatrix => advanced_matrix_blend_mode(index),
        SyntheticBlendProfile::AllModes => match index {
            0 => BlendMode::Normal,
            1 => BlendMode::Additive,
            2 => BlendMode::Multiplicative,
            _ => advanced_matrix_blend_mode(index - 3),
        },
    }
}

/// The advanced matrix profile gives every colour-alpha pair to exactly one of any
/// `COLOR_BLEND_MODE_COUNT * ALPHA_BLEND_MODE_COUNT` consecutive drawables: drawable
/// `c * 5 + a` gets colour `c` and alpha `a`.
pub proof fn law_advanced_matrix_covers_every_pair(c: int, a: int)
    requires
        0 <= c < COLOR_BLEND_MODE_COUNT,
        0 <= a < ALPHA_BLEND_MODE_COUNT,
    ensures
        synthetic_mode(SyntheticBlendProfile::AdvancedMatrix, c * 5 + a) == (BlendMode::Advanced {
            color: color_mode_at(c),
            alpha: alpha_mode_at(a),
        }),
{
    assert((c * 5 + a) % 80 == c * 5 + a);
    assert((c * 5 + a) / 5 == c);
    assert((c * 5 + a) % 5 == a);
}

/// The position of a colour blend type in Cubism's order.
pub open spec fn color_mode_index(m: ColorBlendMode) -> int {
    match m {
        ColorBlendMode::Normal => 0,
        ColorBlendMode::Add => 1,
        ColorBlendMode::AddGlow => 2,
        ColorBlendMode::Darken => 3,
        ColorBlendMode::Multiply => 4,
        ColorBlendMode::ColorBurn => 5,
        ColorBlendMode::LinearBurn => 6,
        ColorBlendMode::Lighten => 7,
        ColorBlendMode::Screen => 8,
        ColorBlendMode::ColorDodge => 9,
        ColorBlendMode::Overlay => 10,
        ColorBlendMode::SoftLight => 11,
        ColorBlendMode::HardLight => 12,
        ColorBlendMode::LinearLight => 13,
        ColorBlendMode::Hue => 14,
        ColorBlendMode::Color => 15,
    }
}

/// The position of an alpha blend type in Cubism's order.
pub open spec fn alpha_mode_index(m: AlphaBlendMode) -> int {
    match m {
        AlphaBlendMode::Over => 0,
        AlphaBlendMode::Atop => 1,
        AlphaBlendMode::Out => 2,
        AlphaBlendMode::ConjointOver => 3,
        AlphaBlendMode::DisjointOver => 4,
    }
}

/// Every colour-alpha pair sits at drawable `5 * colour + alpha` of the advanced matrix
/// profile; the profile repeats every `COLOR_BLEND_MODE_COUNT * ALPHA_BLEND_MODE_COUNT`
/// drawables; and within one such run no two drawables share a pair, so the run is a
/// one-to-one map onto all pairs.
pub proof fn law_advanced_matrix_is_periodic_bijection(i: int, j: int)
    requires
        0 <= i,
        0 <= j < COLOR_BLEND_MODE_COUNT * ALPHA_BLEND_MODE_COUNT,
    ensures
        synthetic_mode(SyntheticBlendProfile::AdvancedMatrix, i + 80) == synthetic_mode(
            SyntheticBlendProfile::AdvancedMatrix,
            i,
        ),
        synthetic_mode(SyntheticBlendProfile::AdvancedMatrix, j) matches BlendMode::Advanced {
            color,
            alpha,
        } && j == 5 * color_mode_index(color) + alpha_mode_index(alpha),
{
    assert((i + 80) % 80 == i % 80) by (nonlinear_arith)
        requires
            i >= 0,
    ;
    let c = j / 5;
    let a = j % 5;
    assert(0 <= c < 16 && 0 <= a < 5 && j == 5 * c + a && j % 80 == j && j / 5 == c && j % 5 == a)
        by (nonlinear_arith)
        requires
            0 <= j < 80,
            c == j / 5,
            a == j % 5,
    ;
    lemma_color_mode_index(c);
    lemma_alpha_mode_index(a);
}

proof fn lemma_color_mode_index(c: int)
    requires
        0 <= c < 16,
    ensures
        color_mode_index(color_mode_at(c)) == c,
{
}

proof fn lemma_alpha_mode_index(a: int)
    requires
        0 <= a < 5,
    ensures
        alpha_mode_index(alpha_mode_at(a)) == a,
{
}

/// Under the advanced-alphas profile every drawable blends with colour Multiply, every
/// alpha blend type occurs among the first `ALPHA_BLEND_MODE_COUNT` drawables, and the
/// profile repeats every `ALPHA_BLEND_MODE_COUNT` drawables.
pub proof fn law_advanced_alphas_cover_every_alpha(alpha: AlphaBlendMode, i: int)
    requires
        0 <= i,
    ensures
        synthetic_mode(SyntheticBlendProfile::AdvancedAlphas, i) matches BlendMode::Advanced { color, .. }
            && color == ColorBlendMode::Multiply,
        synthetic_mode(SyntheticBlendProfile::AdvancedAlphas, i + ALPHA_BLEND_MODE_COUNT) == synthetic_mode(
            SyntheticBlendProfile::AdvancedAlphas,
            i,
        ),
        exists|k: int|
            0 <= k < ALPHA_BLEND_MODE_COUNT && #[trigger] synthetic_mode(SyntheticBlendProfile::AdvancedAlphas, k)
                == (BlendMode::Advanced { color: ColorBlendMode::Multiply, alpha }),
{
    assert((i + 5) % 5 == i % 5) by (nonlinear_arith)
        requires
            i >= 0,
    ;
    let k = alpha_mode_index(alpha);
    assert(0 <= k < 5);
    assert(k % 5 == k);
    assert(alpha_mode_at(k) == alpha);
    assert(synthetic_mode(SyntheticBlendProfile::AdvancedAlphas, k) == (BlendMode::Advanced {
        color: ColorBlendMode::Multiply,
        alpha,
    }));
}

/// Under the advanced-colours profile every drawable blends with alpha Over, every
/// colour blend type occurs among the first `COLOR_BLEND_MODE_COUNT` drawables, and the
/// profile repeats every `COLOR_BLEND_MODE_COUNT` drawables.
pub proof fn law_advanced_colors_cover_every_color(color: ColorBlendMode, i: int)
    requires
        0 <= i,
    ensures
        synthetic_mode(SyntheticBlendProfile::AdvancedColors, i) matches BlendMode::Advanced { alpha, .. }
            && alpha == AlphaBlendMode::Over,
        synthetic_mode(SyntheticBlendProfile::AdvancedColors, i + COLOR_BLEND_MODE_COUNT) == synthetic_mode(
            SyntheticBlendProfile::AdvancedColors,
            i,
        ),
        exists|k: int|
            0 <= k < COLOR_BLEND_MODE_COUNT && #[trigger] synthetic_mode(SyntheticBlendProfile::AdvancedColors, k)
                == (BlendMode::Advanced { color, alpha: AlphaBlendMode::Over }),
{
    assert((i + 16) % 16 == i % 16) by (nonlinear_arith)
        requires
            i >= 0,
    ;
    let k = color_mode_index(color);
    assert(0 <= k < 16);
    assert(k % 16 == k);
    lemma_color_mode_at_index(color);
    assert(synthetic_mode(SyntheticBlendProfile::AdvancedColors, k) == (BlendMode::Advanced {
        color,
        alpha: AlphaBlendMode::Over,
    }));
}

proof fn lemma_color_mode_at_index(c: ColorBlendMode)
    ensures
        color_mode_at(color_mode_index(c)) == c,
{
}

/// Counts of drawables per blend mode, and the distinct advanced colour and alpha
/// types seen, in order of first appearance.
#[derive(Debug, Default, Clone, PartialEq, Eq)]
pub struct BlendCoverage {
    pub normal: usize,
    pub additive: usize,
    pub multiplicative: usize,
    pub advanced: usize,
    pub advanced_color_modes: usize,
    pub advanced_alpha_modes: usize,
    colors: Vec<ColorBlendMode>,
    alphas: Vec<AlphaBlendMode>,
}

/// What a coverage holds, as mathematical values.
pub struct CoverageView {
    pub normal: nat,
    pub additive: nat,
    pub multiplicative: nat,
    pub advanced: nat,
    pub advanced_color_modes: nat,
    pub advanced_alpha_modes: nat,
    pub colors: Seq<ColorBlendMode>,
    pub alphas: Seq<AlphaBlendMode>,
}

impl View for BlendCoverage {
    type V = CoverageView;

    closed spec fn view(&self) -> CoverageView {
        CoverageView {
            normal: self.normal as nat,
            additive: self.additive as nat,
            multiplicative: self.multiplicative as nat,
            advanced: self.advanced as nat,
            advanced_color_modes: self.advanced_color_modes as nat,
            advanced_alpha_modes: self.advanced_alpha_modes as nat,
            colors: self.colors@,
            alphas: self.alphas@,
        }
    }
}

/// The empty coverage.
pub open spec fn empty_coverage() -> CoverageView {
    CoverageView {
        normal: 0,
        additive: 0,
        multiplicative: 0,
        advanced: 0,
        advanced_color_modes: 0,
        advanced_alpha_modes: 0,
        colors: Seq::empty(),
        alphas: Seq::empty(),
    }
}

/// The coverage `c` after one more drawable with blend mode `m`.
pub open spec fn recorded(c: CoverageView, m: BlendMode) -> CoverageView {
    match m {
        BlendMode::Normal => CoverageView { normal: c.normal + 1, ..c },
        BlendMode::Additive => CoverageView { additive: c.additive + 1, ..c },
        BlendMode::Multiplicative => CoverageView { multiplicative: c.multiplicative + 1, ..c },
        BlendMode::Advanced { color, alpha } => {
            let with_color = if c.colors.contains(color) {
                CoverageView { advanced: c.advanced + 1, ..c }
            } else {
                CoverageView {
                    advanced: c.advanced + 1,
                    colors: c.colors.push(color),
                    advanced_color_modes: c.colors.len() + 1,
                    ..c
                }
            };
            if c.alphas.contains(alpha) {
                with_color
            } else {
                CoverageView {
                    alphas: c.alphas.push(alpha),
                    advanced_alpha_modes: c.alphas.len() + 1,
                    ..with_color
                }
            }
        },
    }
}

/// The coverage of drawables with these blend modes, in order.
pub open spec fn coverage_of(modes: Seq<BlendMode>) -> CoverageView
    decreases modes.len(),
{
    if modes.len() == 0 {
        empty_coverage()
    } else {
        recorded(coverage_of(modes.drop_last()), modes.last())
    }
}

/// No count of a coverage exceeds the number of drawables counted.
pub proof fn lemma_coverage_bounded(modes: Seq<BlendMode>)
    ensures
        coverage_of(modes).normal <= modes.len(),
        coverage_of(modes).additive <= modes.len(),
        coverage_of(modes).multiplicative <= modes.len(),
        coverage_of(modes).advanced <= modes.len(),
        coverage_of(modes).colors.len() <= modes.len(),
        coverage_of(modes).alphas.len() <= modes.len(),
    decreases modes.len(),
{
    if modes.len() > 0 {
        lemma_coverage_bounded(modes.drop_last());
    }
}

impl BlendCoverage {
    /// No drawable counted.
    pub fn empty() -> (r: Self)
        ensures
            r@ == empty_coverage(),
    {
        BlendCoverage {
            normal: 0,
            additive: 0,
            multiplicative: 0,
            advanced: 0,
            advanced_color_modes: 0,
            advanced_alpha_modes: 0,
            colors: Vec::new(),
            alphas: Vec::new(),
        }
    }

    /// Counts one drawable with this blend mode.
    pub fn record(&mut self, blend_mode: BlendMode)
        requires
            old(self)@.normal < usize::MAX,
            old(self)@.additive < usize::MAX,
            old(self)@.multiplicative < usize::MAX,
            old(self)@.advanced < usize::MAX,
            old(self)@.colors.len() < usize::MAX,
            old(self)@.alphas.len() < usize::MAX,
        ensures
            final(self)@ == recorded(old(self)@, blend_mode),
    {
        match blend_mode {
            BlendMode::Normal => self.normal = self.normal + 1,
            BlendMode::Additive => self.additive = self.additive + 1,
            BlendMode::Multiplicative => self.multiplicative = self.multiplicative + 1,
            BlendMode::Advanced { color, alpha } => {
                self.advanced = self.advanced + 1;
                if !contains_color(&self.colors, color) {
                    self.colors.push(color);
                    self.advanced_color_modes = self.colors.len();
                }
                if !contains_alpha(&self.alphas, alpha) {
                    self.alphas.push(alpha);
                    self.advanced_alpha_modes = self.alphas.len();
                }
            },
        }
    }

    /// The coverage as named counter values.
    pub fn as_counter_values(&self) -> (r: [(&'static str, u64); 6])
        ensures
            r@[0].0@ == "blend_normal_draws"@ && r@[0].1 == self@.normal,
            r@[1].0@ == "blend_additive_draws"@ && r@[1].1 == self@.additive,
            r@[2].0@ == "blend_multiplicative_draws"@ && r@[2].1 == self@.multiplicative,
            r@[3].0@ == "blend_advanced_draws"@ && r@[3].1 == self@.advanced,
            r@[4].0@ == "blend_advanced_color_modes"@ && r@[4].1 == self@.advanced_color_modes,
            r@[5].0@ == "blend_advanced_alpha_modes"@ && r@[5].1 == self@.advanced_alpha_modes,
    {
        [
            ("blend_normal_draws", self.normal as u64),
            ("blend_additive_draws", self.additive as u64),
            ("blend_multiplicative_draws", self.multiplicative as u64),
            ("blend_advanced_draws", self.advanced as u64),
            ("blend_advanced_color_modes", self.advanced_color_modes as u64),
            ("blend_advanced_alpha_modes", self.advanced_alpha_modes as u64),
        ]
    }
}

fn contains_color(v: &Vec<ColorBlendMode>, x: ColorBlendMode) -> (r: bool)
    ensures
        r == v@.contains(x),
{
    let mut i: usize = 0;
    while i < v.len()
        invariant
            i <= v@.len(),
            forall|k: int| 0 <= k < i ==> v@[k] != x,
        decreases v@.len() - i,
    {
        if v[i] == x {
            return true;
        }
        i = i + 1;
    }
    false
}

fn contains_alpha(v: &Vec<AlphaBlendMode>, x: AlphaBlendMode) -> (r: bool)
    ensures
        r == v@.contains(x),
{
    let mut i: usize = 0;
    while i < v.len()
        invariant
            i <= v@.len(),
            forall|k: int| 0 <= k < i ==> v@[k] != x,
        decreases v@.len() - i,
    {
        if v[i] == x {
            return true;
        }
        i = i + 1;
    }
    false
}

/// The blend modes of the first `n` synthetic drawables of a profile.
pub open spec fn synthetic_modes(profile: SyntheticBlendProfile, n: nat) -> Seq<BlendMode> {
    Seq::new(n, |i: int| synthetic_mode(profile, i))
}

/// The blend coverage of the first `drawables` synthetic drawables of a profile.
pub fn blend_coverage_for_drawables(profile: SyntheticBlendProfile, drawables: usize) -> (r: BlendCoverage)
    ensures
        r@ == coverage_of(synthetic_modes(profile, drawables as nat)),
{
    let mut coverage = BlendCoverage::empty();
    let mut index: usize = 0;
    while index < drawables
        invariant
            index <= drawables,
            coverage@ == coverage_of(synthetic_modes(profile, index as nat)),
        decreases drawables - index,
    {
        proof {
            lemma_coverage_bounded(synthetic_modes(profile, index as nat));
            assert(synthetic_modes(profile, (index + 1) as nat).drop_last()
                =~= synthetic_modes(profile, index as nat));
        }
        coverage.record(synthetic_blend_mode(profile, index));
        index = index + 1;
    }
    coverage
}

/// The blend modes of a snapshot's drawables, in order.
pub open spec fn snapshot_modes(s: SnapshotView) -> Seq<BlendMode> {
    Seq::new(s.drawables.len(), |i: int| s.drawables[i].blend_mode)
}

/// The blend coverage of a snapshot's drawables.
pub fn blend_coverage_for_snapshot(snapshot: &ModelSnapshot) -> (r: BlendCoverage)
    ensures
        r@ == coverage_of(snapshot_modes(snapshot@)),
{
    let mut coverage = BlendCoverage::empty();
    let mut index: usize = 0;
    while index < snapshot.drawables.len()
        invariant
            index <= snapshot.drawables@.len(),
            snapshot.drawables@.len() == snapshot@.drawables.len(),
            coverage@ == coverage_of(snapshot_modes(snapshot@).take(index as int)),
        decreases snapshot.drawables@.len() - index,
    {
        proof {
            lemma_coverage_bounded(snapshot_modes(snapshot@).take(index as int));
            assert(snapshot_modes(snapshot@).take(index + 1).drop_last()
                =~= snapshot_modes(snapshot@).take(index as int));
        }
        coverage.record(snapshot.drawables[index].blend_mode);
        index = index + 1;
    }
    proof {
        assert(snapshot_modes(snapshot@).take(index as int) =~= snapshot_modes(snapshot@));
    }
    coverage
}

/// Synthetic triangle indices: `count` (at least one) indices cycling through the
/// first `vertex_count` vertices (at least one, at most 65535).
pub fn synthetic_indices(count: usize, vertex_count: usize) -> (r: Vec<u16>)
    ensures
        r@.len() == if count == 0 { 1 } else { count },
        forall|i: int| 0 <= i < r@.len() ==> r@[i] == i % (if vertex_count == 0 {
            1
        } else if vertex_count > 65535 {
            65535
        } else {
            vertex_count as int
        }),
{
    let modulus: usize = if vertex_count == 0 {
        1
    } else if vertex_count > 65535 {
        65535
    } else {
        vertex_count
    };
    let n: usize = if count == 0 { 1 } else { count };
    let mut indices: Vec<u16> = Vec::new();
    let mut i: usize = 0;
    while i < n
        invariant
            i <= n,
            1 <= modulus <= 65535,
            indices@.len() == i,
            forall|k: int| 0 <= k < i ==> indices@[k] == k % (modulus as int),
        decreases n - i,
    {
        indices.push((i % modulus) as u16);
        i = i + 1;
    }
    indices
}

/// Scenarios that build a synthetic snapshot.
pub fn uses_synthetic_config(scenario: &str) -> (r: bool)
    ensures
        r == (scenario@ == "synthetic-render-plan"@ || scenario@ == "render-world-switch"@
            || scenario@ == "dispatch-null-backend"@ || scenario@ == "motion-update"@
            || scenario@ == "layered-motion"@ || scenario@ == "physics-update"@
            || scenario@ == "wgpu-cold"@ || scenario@ == "wgpu-warm"@ || scenario@ == "wgpu-mask"@
            || scenario@ == "wgpu-resize"@ || scenario@ == "wgpu-model-switch"@
            || scenario@ == "wgpu-postprocess"@),
{
    str_equal(scenario, "synthetic-render-plan") || str_equal(scenario, "render-world-switch")
        || str_equal(scenario, "dispatch-null-backend") || str_equal(scenario, "motion-update")
        || str_equal(scenario, "layered-motion") || str_equal(scenario, "physics-update")
        || str_equal(scenario, "wgpu-cold") || str_equal(scenario, "wgpu-warm") || str_equal(
        scenario,
        "wgpu-mask",
    ) || str_equal(scenario, "wgpu-resize") || str_equal(scenario, "wgpu-model-switch")
        || str_equal(scenario, "wgpu-postprocess")
}

/// Whether `i` is the first position of `name` among the arguments that has a
/// value after it.
pub open spec fn first_flag_at(args: Seq<String>, name: Seq<char>, i: int) -> bool {
    &&& 0 <= i < args.len() - 1
    &&& args[i]@ == name
    &&& forall|j: int| 0 <= j < i ==> #[trigger] args[j]@ != name
}

/// The text after the first occurrence of flag `name` that has a value after it.
pub open spec fn value_arg_of(args: Seq<String>, name: Seq<char>) -> Option<Seq<char>> {
    if exists|i: int| #[trigger] first_flag_at(args, name, i) {
        Some(args[(choose|i: int| #[trigger] first_flag_at(args, name, i)) + 1]@)
    } else {
        None
    }
}

/// The value following the first occurrence of `name` among the arguments.
pub fn value_arg(args: &[String], name: &str) -> (r: Option<String>)
    ensures
        match r {
            Some(v) => exists|i: int| #[trigger] first_flag_at(args@, name@, i) && v@ == args@[i + 1]@,
            None => forall|i: int| 0 <= i < args@.len() - 1 ==> #[trigger] args@[i]@ != name@,
        },
        match r {
            Some(v) => value_arg_of(args@, name@) == Some(v@),
            None => value_arg_of(args@, name@) is None,
        },
{
    let mut i: usize = 0;
    while i < args.len() && i + 1 < args.len()
        invariant
            i <= args@.len(),
            forall|j: int| 0 <= j < i ==> #[trigger] args@[j]@ != name@,
        decreases args@.len() - i,
    {
        if str_equal(args[i].as_str(), name) {
            let v = args[i + 1].clone();
            assert(first_flag_at(args@, name@, i as int));
            return Some(v);
        }
        i = i + 1;
    }
    None
}


/// The unsigned integer after flag `name`, or `default` when the flag is absent.
pub fn usize_arg(args: &[String], name: &str, default: usize) -> (r: Result<usize, String>)
    ensures
        match value_arg_of(args@, name@) {
            None => r == Ok::<usize, String>(default),
            Some(v) => if decimal_value(v) is Some && decimal_value(v)->0 <= usize::MAX {
                r == Ok::<usize, String>(decimal_value(v)->0 as usize)
            } else {
                r matches Err(e) && e@ == name@ + " must be a positive integer"@
            },
        },
{
    match value_arg(args, name) {
        None => Ok(default),
        Some(value) => match parse_usize(value.as_str()) {
            Some(n) => Ok(n),
            None => Err(concat(name, " must be a positive integer")),
        },
    }
}

/// The unsigned integer after flag `name`, at least one, or `default` (at least one)
/// when the flag is absent.
pub fn u32_arg(args: &[String], name: &str, default: u32) -> (r: Result<u32, String>)
    ensures
        match value_arg_of(args@, name@) {
            None => r == Ok::<u32, String>(if default == 0 { 1 } else { default }),
            Some(v) => if decimal_value(v) is Some && decimal_value(v)->0 <= u32::MAX {
                r == Ok::<u32, String>(if decimal_value(v)->0 as u32 == 0 { 1 } else { decimal_value(v)->0 as u32 })
            } else {
                r matches Err(e) && e@ == name@ + " must be a positive integer"@
            },
        },
{
    match value_arg(args, name) {
        None => Ok(if default == 0 { 1 } else { default }),
        Some(value) => match parse_u32(value.as_str()) {
            Some(n) => Ok(if n == 0 { 1 } else { n }),
            None => Err(concat(name, " must be a positive integer")),
        },
    }
}


/// Byte `c` of pixel `p` of synthetic texture `t` of side `size`.
pub open spec fn synthetic_texel(t: int, p: int, size: int, c: int) -> u8 {
    if c == 0 {
        ((p + t) % 255) as u8
    } else if c == 1 {
        ((p / size) % 255) as u8
    } else if c == 2 {
        ((t % 256) * 31 % 256) as u8
    } else {
        255u8
    }
}

/// Synthetic textures: at least one, square with a side of at least one, with a pattern
/// that differs per texture.
pub fn synthetic_textures(count: usize, size: u32) -> (r: Vec<TextureAsset>)
    requires
        ({
            let side = if size == 0 { 1int } else { size as int };
            let n = if count == 0 { 1int } else { count as int };
            side * side * 4 <= u32::MAX && side * side + n <= u32::MAX
        }),
    ensures
        ({
            let side = if size == 0 { 1int } else { size as int };
            let n = if count == 0 { 1int } else { count as int };
            &&& r@.len() == n
            &&& forall|t: int| #![trigger r@[t]]
                0 <= t < n ==> r@[t].width == side && r@[t].height == side && r@[t].rgba@.len() == side
                    * side * 4 && forall|k: int|
                    0 <= k < side * side * 4 ==> #[trigger] r@[t].rgba@[k] == synthetic_texel(t, k / 4, side, k % 4)
        }),
{
    let side: u32 = if size == 0 { 1 } else { size };
    let n: usize = if count == 0 { 1 } else { count };
    let pixels: u32 = side * side;
    let mut textures: Vec<TextureAsset> = Vec::new();
    let mut t: usize = 0;
    while t < n
        invariant
            t <= n,
            n == if count == 0 { 1int } else { count as int },
            side == if size == 0 { 1int } else { size as int },
            pixels == side * side,
            side * side * 4 <= u32::MAX,
            side * side + n <= u32::MAX,
            textures@.len() == t,
            forall|u: int| #![trigger textures@[u]]
                0 <= u < t ==> textures@[u].width == side && textures@[u].height == side
                    && textures@[u].rgba@.len() == side * side * 4 && forall|k: int|
                    0 <= k < side * side * 4 ==> #[trigger] textures@[u].rgba@[k] == synthetic_texel(u, k / 4, side as int, k % 4),
        decreases n - t,
    {
        let tag = t as u32;
        let mut rgba: Vec<u8> = Vec::new();
        let mut p: u32 = 0;
        while p < pixels
            invariant
                p <= pixels,
                pixels == side * side,
                side >= 1,
                tag == t,
                t < n,
                side * side + n <= u32::MAX,
                rgba@.len() == 4 * p,
                forall|k: int| 0 <= k < 4 * p ==> #[trigger] rgba@[k] == synthetic_texel(t as int, k / 4, side as int, k % 4),
            decreases pixels - p,
        {
            let ghost before = rgba@;
            rgba.push(((p + tag) % 255) as u8);
            rgba.push(((p / side) % 255) as u8);
            rgba.push((t as u8).wrapping_mul(31));
            rgba.push(255);
            proof {
                assert forall|k: int| 0 <= k < 4 * (p + 1) implies #[trigger] rgba@[k] == synthetic_texel(
                    t as int,
                    k / 4,
                    side as int,
                    k % 4,
                ) by {
                    if k < 4 * p {
                        assert(rgba@[k] == before[k]);
                    } else {
                        assert(k / 4 == p) by (nonlinear_arith)
                            requires 4 * p <= k < 4 * (p + 1);
                        assert(k % 4 == k - 4 * p) by (nonlinear_arith)
                            requires 4 * p <= k < 4 * (p + 1);
                        assert((t as u8) as int == t % 256) by (bit_vector);
                    }
                }
            }
            p = p + 1;
        }
        textures.push(TextureAsset { width: side, height: side, rgba });
        t = t + 1;
    }
    textures
}

/// How many drawables a run targets: at least the profile's coverage, at most all.
pub fn target_drawable_count(target_drawables: usize, profile: SyntheticBlendProfile, drawables: usize) -> (r: usize)
    ensures
        ({
            let m = profile.minimum_coverage_drawables_spec();
            let wanted = if target_drawables >= m { target_drawables as int } else { m };
            r == if wanted <= drawables { wanted } else { drawables as int }
        }),
{
    let minimum = profile.minimum_coverage_drawables();
    let wanted = if target_drawables >= minimum { target_drawables } else { minimum };
    if wanted <= drawables {
        wanted
    } else {
        drawables
    }
}

/// The ids that the known ids do not include, in order.
pub fn missing_ids(ids: &[String], known_ids: &[&str]) -> (r: Vec<String>)
    ensures
        r@.map_values(|s: String| s@) == ids@.map_values(|s: String| s@).filter(
            |x: Seq<char>| !(exists|k: int| 0 <= k < known_ids@.len() && #[trigger] known_ids@[k]@ == x),
        ),
{
    let ghost known = |x: Seq<char>| !(exists|k: int| 0 <= k < known_ids@.len() && #[trigger] known_ids@[k]@ == x);
    let mut missing: Vec<String> = Vec::new();
    let mut i: usize = 0;
    while i < ids.len()
        invariant
            i <= ids@.len(),
            known == (|x: Seq<char>| !(exists|k: int| 0 <= k < known_ids@.len() && #[trigger] known_ids@[k]@ == x)),
            missing@.map_values(|s: String| s@) == ids@.map_values(|s: String| s@).take(i as int).filter(known),
        decreases ids@.len() - i,
    {
        let id = ids[i].as_str();
        let mut k: usize = 0;
        let mut found = false;
        while k < known_ids.len()
            invariant
                k <= known_ids@.len(),
                found == (exists|j: int| 0 <= j < k && #[trigger] known_ids@[j]@ == id@),
            decreases known_ids@.len() - k,
        {
            if str_equal(known_ids[k], id) {
                found = true;
            }
            k = k + 1;
        }
        let ghost before = missing@.map_values(|s: String| s@);
        let ghost all = ids@.map_values(|s: String| s@);
        proof {
            assert(all.take(i + 1) =~= all.take(i as int).push(id@));
            all.take(i as int).lemma_filter_push(id@, known);
        }
        if !found {
            missing.push(ids[i].clone());
            assert(missing@.map_values(|s: String| s@) =~= before.push(id@));
        }
        i = i + 1;
    }
    proof {
        assert(ids@.map_values(|s: String| s@).take(i as int) =~= ids@.map_values(|s: String| s@));
    }
    missing
}

/// A backend that only counts what it is asked to draw.
#[derive(Debug, Default, Clone, PartialEq, Eq)]
pub struct CountingBackend {
    pub begin_models: u64,
    pub mask_passes: u64,
    pub mask_draws: u64,
    pub main_draws: u64,
}

impl Live2DRenderBackend for CountingBackend {
    /// Counts models begun, mask passes begun, mask draws and main draws, each with
    /// wrap-around; other events leave the counts as they are.
    open spec fn handled(self, event: BackendEvent) -> Self {
        match event {
            BackendEvent::BeginModel(_) => CountingBackend {
                begin_models: self.begin_models.wrapping_add(1),
                ..self
            },
            BackendEvent::BeginClipMask(_) => CountingBackend {
                mask_passes: self.mask_passes.wrapping_add(1),
                ..self
            },
            BackendEvent::DrawMaskDrawable(_, _) => CountingBackend {
                mask_draws: self.mask_draws.wrapping_add(1),
                ..self
            },
            BackendEvent::DrawDrawable(_) => CountingBackend {
                main_draws: self.main_draws.wrapping_add(1),
                ..self
            },
            _ => self,
        }
    }

    fn begin_model(&mut self, ctx: &ModelRenderCtx) {
        self.begin_models = self.begin_models.wrapping_add(1);
    }

    fn begin_clip_masks(&mut self, masks: &[MaskPass]) {
    }

    fn begin_clip_mask(&mut self, mask: &MaskPass) {
        self.mask_passes = self.mask_passes.wrapping_add(1);
    }

    fn draw_mask_drawable(&mut self, mask: &MaskPass, call: &DrawCommand) {
        self.mask_draws = self.mask_draws.wrapping_add(1);
    }

    fn end_clip_mask(&mut self, mask: &MaskPass) {
    }

    fn end_clip_masks(&mut self) {
    }

    fn begin_main_pass(&mut self) {
    }

    fn draw_drawable(&mut self, call: &DrawCommand) {
        self.main_draws = self.main_draws.wrapping_add(1);
    }

    fn end_model(&mut self) {
    }
}

/// The character of a decimal digit.
pub open spec fn digit_char(d: int) -> char {
    if d == 0 {
        '0'
    } else if d == 1 {
        '1'
    } else if d == 2 {
        '2'
    } else if d == 3 {
        '3'
    } else if d == 4 {
        '4'
    } else if d == 5 {
        '5'
    } else if d == 6 {
        '6'
    } else if d == 7 {
        '7'
    } else if d == 8 {
        '8'
    } else {
        '9'
    }
}

/// The decimal digits of a number, most significant first.
pub open spec fn decimal_of(n: nat) -> Seq<char>
    decreases n,
{
    if n < 10 {
        seq![digit_char(n as int)]
    } else {
        decimal_of(n / 10).push(digit_char((n % 10) as int))
    }
}

/// Digits padded with zeros in front to at least four.
pub open spec fn padded4(digits: Seq<char>) -> Seq<char> {
    if digits.len() < 4 {
        Seq::new((4 - digits.len()) as nat, |i: int| '0') + digits
    } else {
        digits
    }
}

/// The id of synthetic drawable `index`: `drawable_` and its number in at least four
/// digits.
pub open spec fn drawable_name_of(index: nat) -> Seq<char> {
    "drawable_"@ + padded4(decimal_of(index))
}

fn digit(d: usize) -> (r: char)
    requires
        d < 10,
    ensures
        r == digit_char(d as int),
{
    match d {
        0 => '0',
        1 => '1',
        2 => '2',
        3 => '3',
        4 => '4',
        5 => '5',
        6 => '6',
        7 => '7',
        8 => '8',
        _ => '9',
    }
}

/// The id of synthetic drawable `index`.
pub fn drawable_name(index: usize) -> (r: String)
    ensures
        r@ == drawable_name_of(index as nat),
{
    let mut digits: Vec<char> = Vec::new();
    let mut rest: usize = index;
    assert(decimal_of(index as nat) =~= decimal_of(rest as nat) + digits@);
    while rest >= 10
        invariant
            decimal_of(index as nat) == decimal_of(rest as nat) + digits@,
        decreases rest,
    {
        let ghost before = digits@;
        digits.insert(0, digit(rest % 10));
        assert(digits@ =~= seq![digit_char((rest % 10) as int)] + before);
        assert(decimal_of(rest as nat) == decimal_of((rest / 10) as nat).push(digit_char((rest % 10) as int)));
        assert(decimal_of((rest / 10) as nat).push(digit_char((rest % 10) as int)) + before =~= decimal_of(
            (rest / 10) as nat,
        ) + digits@);
        rest = rest / 10;
    }
    let ghost before = digits@;
    digits.insert(0, digit(rest));
    assert(digits@ =~= seq![digit_char(rest as int)] + before);
    assert(digits@ =~= decimal_of(index as nat));
    let mut name = chars_of("drawable_");
    let mut pad: usize = digits.len();
    while pad < 4
        invariant
            digits@ == decimal_of(index as nat),
            digits@.len() <= pad <= 4 || (pad == digits@.len() && pad > 4),
            name@ == "drawable_"@ + Seq::new((pad - digits@.len()) as nat, |i: int| '0'),
        decreases 4 - pad,
    {
        name.push('0');
        assert(name@ =~= "drawable_"@ + Seq::new((pad + 1 - digits@.len()) as nat, |i: int| '0'));
        pad = pad + 1;
    }
    let ghost head = name@;
    let mut k: usize = 0;
    while k < digits.len()
        invariant
            k <= digits@.len(),
            name@ == head + digits@.take(k as int),
        decreases digits@.len() - k,
    {
        name.push(digits[k]);
        assert(digits@.take(k + 1) =~= digits@.take(k as int).push(digits@[k as int]));
        k = k + 1;
    }
    assert(digits@.take(k as int) =~= digits@);
    assert(name@ =~= drawable_name_of(index as nat));
    string_of(&name)
}

/// The mask group a synthetic drawable is clipped by: drawables past the first
/// `mask_count` are, in turn.
pub open spec fn mask_group_of(index: nat, mask_count: nat) -> Option<nat> {
    if index >= mask_count && mask_count > 0 {
        Some(index % mask_count)
    } else {
        None
    }
}

/// The clip of a synthetic drawable: for its mask group `g`, the drawables
/// `(g + m) % mask_count` for each of at least one member `m`, inverted for every third
/// group.
pub open spec fn synthetic_clipping_of(index: nat, mask_count: nat, mask_members: nat) -> Option<ClippingView> {
    match mask_group_of(index, mask_count) {
        Some(g) => Some(
            ClippingView {
                drawable_ids: Seq::new(
                    if mask_members > 0 { mask_members } else { 1 },
                    |m: int| drawable_name_of(((g + m) % (mask_count as int)) as nat),
                ),
                inverted: g % 3 == 0,
            },
        ),
        None => None,
    }
}

/// The clip of synthetic drawable `index`.
pub fn synthetic_clipping(index: usize, mask_count: usize, mask_members: usize) -> (r: Option<ClippingInfo>)
    ensures
        clipping_view(r) == synthetic_clipping_of(index as nat, mask_count as nat, mask_members as nat),
{
    if index < mask_count || mask_count == 0 {
        return None;
    }
    let group = index % mask_count;
    let members = if mask_members > 0 {
        mask_members
    } else {
        1
    };
    let mut ids: Vec<DrawableId> = Vec::new();
    let mut m: usize = 0;
    while m < members
        invariant
            m <= members,
            group < mask_count,
            mask_count > 0,
            ids@.len() == m,
            forall|j: int| 0 <= j < m ==> (#[trigger] ids@[j])@ == drawable_name_of(((group + j) % (mask_count as int)) as nat),
        decreases members - m,
    {
        let offset = m % mask_count;
        let member = if offset >= mask_count - group {
            offset - (mask_count - group)
        } else {
            group + offset
        };
        assert(member == (group + m) % (mask_count as int)) by (nonlinear_arith)
            requires
                group < mask_count,
                offset == m % mask_count,
                member == if offset >= mask_count - group { offset - (mask_count - group) } else { group + offset },
                mask_count > 0,
        ;
        ids.push(DrawableId(drawable_name(member)));
        m = m + 1;
    }
    let r = Some(ClippingInfo { drawable_ids: ids, inverted: group % 3 == 0 });
    proof {
        let want = synthetic_clipping_of(index as nat, mask_count as nat, mask_members as nat);
        assert(ids_view(ids@) =~= want.unwrap().drawable_ids);
    }
    r
}

/// The ids of the drawables a run targets: those of the first `target_drawable_count`
/// drawables.
pub fn target_drawable_names(target_drawables: usize, profile: SyntheticBlendProfile, drawables: usize) -> (r: Vec<
    String,
>)
    ensures
        r@.len() == ({
            let m = profile.minimum_coverage_drawables_spec();
            let wanted = if target_drawables >= m { target_drawables as int } else { m };
            if wanted <= drawables { wanted } else { drawables as int }
        }),
        forall|i: int| 0 <= i < r@.len() ==> #[trigger] r@[i]@ == drawable_name_of(i as nat),
{
    let count = target_drawable_count(target_drawables, profile, drawables);
    let mut names: Vec<String> = Vec::new();
    let mut i: usize = 0;
    while i < count
        invariant
            i <= count,
            names@.len() == i,
            forall|j: int| 0 <= j < i ==> #[trigger] names@[j]@ == drawable_name_of(j as nat),
        decreases count - i,
    {
        names.push(drawable_name(i));
        i = i + 1;
    }
    names
}

} // verus!
