use crate::model::{
    alpha_blend_for_code, blend_mode_for_value, color_blend_for_code, AlphaBlendMode, BlendMode,
    ColorBlendMode,
};
use std::ops::Range;
use vstd::string::StringSliceAdditionalSpecFns;
use vstd::wrapping::u64_specs::wrapping_add;
use vstd::prelude::*;

verus! {

/// How the renderer samples model textures.
#[derive(Debug, Clone, Copy, Default, PartialEq, Eq, Structural)]
pub enum WgpuTextureSampling {
    Nearest,
    #[default]
    Linear,
    Cubic,
}

impl WgpuTextureSampling {
    /// The sampling mode as the shader numbers it.
    pub fn shader_mode(self) -> (r: u32)
        ensures
            r == match self {
                WgpuTextureSampling::Nearest => 0u32,
                WgpuTextureSampling::Linear => 1u32,
                WgpuTextureSampling::Cubic => 2u32,
            },
    {
        match self {
            WgpuTextureSampling::Nearest => 0,
            WgpuTextureSampling::Linear => 1,
            WgpuTextureSampling::Cubic => 2,
        }
    }

    /// The sampler the bind group uses: cubic sampling filters in the shader over
    /// linearly sampled texels.
    pub fn bind_group_sampling(self) -> (r: Self)
        ensures
            r == match self {
                WgpuTextureSampling::Nearest => WgpuTextureSampling::Nearest,
                _ => WgpuTextureSampling::Linear,
            },
    {
        match self {
            WgpuTextureSampling::Nearest => WgpuTextureSampling::Nearest,
            WgpuTextureSampling::Linear | WgpuTextureSampling::Cubic => WgpuTextureSampling::Linear,
        }
    }
}

/// Fixed-function blending a pipeline is built for.
#[derive(Debug, Clone, Copy, PartialEq, Eq, Structural, Hash)]
pub enum PipelineBlendMode {
    Normal,
    Additive,
    Multiplicative,
    Advanced,
}

/// A factor of fixed-function blending: what the source or the destination is
/// multiplied by.
#[derive(Debug, Clone, Copy, PartialEq, Eq, Structural)]
pub enum BlendFactor {
    Zero,
    One,
    Dst,
    OneMinusSrcAlpha,
}

/// How the weighted source and destination are combined.
#[derive(Debug, Clone, Copy, PartialEq, Eq, Structural)]
pub enum BlendOperation {
    Add,
}

/// One blend equation: `source * src_factor (operation) destination * dst_factor`.
#[derive(Debug, Clone, Copy, PartialEq, Eq, Structural)]
pub struct BlendComponent {
    pub src_factor: BlendFactor,
    pub dst_factor: BlendFactor,
    pub operation: BlendOperation,
}

/// The blend equations for color and for alpha.
#[derive(Debug, Clone, Copy, PartialEq, Eq, Structural)]
pub struct BlendState {
    pub color: BlendComponent,
    pub alpha: BlendComponent,
}

/// The equation that adds the weighted source and destination.
pub open spec fn added(src_factor: BlendFactor, dst_factor: BlendFactor) -> BlendComponent {
    BlendComponent { src_factor, dst_factor, operation: BlendOperation::Add }
}

/// The fixed-function blending of each pipeline mode, for premultiplied colors as Cubism
/// blends them; advanced modes blend in the shader and replace the target.
pub open spec fn blend_state_of(mode: PipelineBlendMode) -> BlendState {
    match mode {
        PipelineBlendMode::Normal => BlendState {
            color: added(BlendFactor::One, BlendFactor::OneMinusSrcAlpha),
            alpha: added(BlendFactor::One, BlendFactor::OneMinusSrcAlpha),
        },
        PipelineBlendMode::Additive => BlendState {
            color: added(BlendFactor::One, BlendFactor::One),
            alpha: added(BlendFactor::Zero, BlendFactor::One),
        },
        PipelineBlendMode::Multiplicative => BlendState {
            color: added(BlendFactor::Dst, BlendFactor::OneMinusSrcAlpha),
            alpha: added(BlendFactor::Zero, BlendFactor::One),
        },
        PipelineBlendMode::Advanced => BlendState {
            color: added(BlendFactor::One, BlendFactor::Zero),
            alpha: added(BlendFactor::One, BlendFactor::Zero),
        },
    }
}

fn add_component(src_factor: BlendFactor, dst_factor: BlendFactor) -> (r: BlendComponent)
    ensures
        r == added(src_factor, dst_factor),
{
    BlendComponent { src_factor, dst_factor, operation: BlendOperation::Add }
}

/// The fixed-function blending a pipeline of this mode is built with.
pub fn live2d_blend_state(blend_mode: PipelineBlendMode) -> (r: BlendState)
    ensures
        r == blend_state_of(blend_mode),
{
    match blend_mode {
        PipelineBlendMode::Normal => BlendState {
            color: add_component(BlendFactor::One, BlendFactor::OneMinusSrcAlpha),
            alpha: add_component(BlendFactor::One, BlendFactor::OneMinusSrcAlpha),
        },
        PipelineBlendMode::Additive => BlendState {
            color: add_component(BlendFactor::One, BlendFactor::One),
            alpha: add_component(BlendFactor::Zero, BlendFactor::One),
        },
        PipelineBlendMode::Multiplicative => BlendState {
            color: add_component(BlendFactor::Dst, BlendFactor::OneMinusSrcAlpha),
            alpha: add_component(BlendFactor::Zero, BlendFactor::One),
        },
        PipelineBlendMode::Advanced => BlendState {
            color: add_component(BlendFactor::One, BlendFactor::Zero),
            alpha: add_component(BlendFactor::One, BlendFactor::Zero),
        },
    }
}

/// Fragment program of a pipeline.
#[derive(Debug, Clone, Copy, PartialEq, Eq, Structural, Hash)]
pub enum ShaderVariant {
    DefaultMesh,
    AdvancedBlend,
    MaskWriter,
}

/// The Cubism code of a colour blend type.
pub open spec fn color_code_of(mode: ColorBlendMode) -> u32 {
    match mode {
        ColorBlendMode::Normal => 0,
        ColorBlendMode::Add => 3,
        ColorBlendMode::AddGlow => 4,
        ColorBlendMode::Darken => 5,
        ColorBlendMode::Multiply => 6,
        ColorBlendMode::ColorBurn => 7,
        ColorBlendMode::LinearBurn => 8,
        ColorBlendMode::Lighten => 9,
        ColorBlendMode::Screen => 10,
        ColorBlendMode::ColorDodge => 11,
        ColorBlendMode::Overlay => 12,
        ColorBlendMode::SoftLight => 13,
        ColorBlendMode::HardLight => 14,
        ColorBlendMode::LinearLight => 15,
        ColorBlendMode::Hue => 16,
        ColorBlendMode::Color => 17,
    }
}

/// The Cubism code of an alpha blend type.
pub open spec fn alpha_code_of(mode: AlphaBlendMode) -> u32 {
    match mode {
        AlphaBlendMode::Over => 0,
        AlphaBlendMode::Atop => 1,
        AlphaBlendMode::Out => 2,
        AlphaBlendMode::ConjointOver => 3,
        AlphaBlendMode::DisjointOver => 4,
    }
}

pub fn color_blend_code(mode: ColorBlendMode) -> (r: u32)
    ensures
        r == color_code_of(mode),
{
    match mode {
        ColorBlendMode::Normal => 0,
        ColorBlendMode::Add => 3,
        ColorBlendMode::AddGlow => 4,
        ColorBlendMode::Darken => 5,
        ColorBlendMode::Multiply => 6,
        ColorBlendMode::ColorBurn => 7,
        ColorBlendMode::LinearBurn => 8,
        ColorBlendMode::Lighten => 9,
        ColorBlendMode::Screen => 10,
        ColorBlendMode::ColorDodge => 11,
        ColorBlendMode::Overlay => 12,
        ColorBlendMode::SoftLight => 13,
        ColorBlendMode::HardLight => 14,
        ColorBlendMode::LinearLight => 15,
        ColorBlendMode::Hue => 16,
        ColorBlendMode::Color => 17,
    }
}

pub fn alpha_blend_code(mode: AlphaBlendMode) -> (r: u32)
    ensures
        r == alpha_code_of(mode),
{
    match mode {
        AlphaBlendMode::Over => 0,
        AlphaBlendMode::Atop => 1,
        AlphaBlendMode::Out => 2,
        AlphaBlendMode::ConjointOver => 3,
        AlphaBlendMode::DisjointOver => 4,
    }
}

/// The blend uniform of a draw: colour and alpha codes for advanced modes, zeros
/// otherwise.
pub fn blend_uniform(blend_mode: BlendMode) -> (r: [u32; 4])
    ensures
        r@ == match blend_mode {
            BlendMode::Advanced { color, alpha } => seq![color_code_of(color), alpha_code_of(alpha), 0u32, 0u32],
            _ => seq![0u32, 0u32, 0u32, 0u32],
        },
{
    let r = match blend_mode {
        BlendMode::Advanced { color, alpha } => [color_blend_code(color), alpha_blend_code(alpha), 0, 0],
        BlendMode::Normal | BlendMode::Additive | BlendMode::Multiplicative => [0, 0, 0, 0],
    };
    assert(r@ =~= match blend_mode {
        BlendMode::Advanced { color, alpha } => seq![color_code_of(color), alpha_code_of(alpha), 0u32, 0u32],
        _ => seq![0u32, 0u32, 0u32, 0u32],
    });
    r
}

/// Reading a colour code back gives the colour blend type it was made from.
pub proof fn law_color_code_round_trip(mode: ColorBlendMode)
    ensures
        color_blend_for_code(color_code_of(mode) as int) == mode,
{
}

/// Reading an alpha code back gives the alpha blend type it was made from.
pub proof fn law_alpha_code_round_trip(mode: AlphaBlendMode)
    ensures
        alpha_blend_for_code(alpha_code_of(mode) as int) == mode,
{
}

/// Packing an advanced mode's two codes as Cubism does (colour in the low byte, alpha
/// in the next) and reading the value back gives the mode, except for the pair that
/// Cubism reads as its normal mode.
pub proof fn law_advanced_blend_round_trip(color: ColorBlendMode, alpha: AlphaBlendMode)
    requires
        !(color == ColorBlendMode::Normal && alpha == AlphaBlendMode::Over),
    ensures
        blend_mode_for_value((color_code_of(color) | (alpha_code_of(alpha) << 8u32)) as i32)
            == (BlendMode::Advanced { color, alpha }),
{
    let c = color_code_of(color);
    let a = alpha_code_of(alpha);
    let v = (c | (a << 8u32)) as i32;
    assert(c < 256 && a < 256);
    assert((v & 0xff) == c && ((v >> 8u32) & 0xff) == a) by (bit_vector)
        requires
            c < 256u32,
            a < 256u32,
            v == (c | (a << 8u32)) as i32,
    ;
}

/// The fragment entry point of a shader variant.
pub fn fragment_entry_point(shader_variant: ShaderVariant) -> (r: &'static str)
    ensures
        r@ == match shader_variant {
            ShaderVariant::DefaultMesh => "fs_main"@,
            ShaderVariant::AdvancedBlend => "fs_blend"@,
            ShaderVariant::MaskWriter => "fs_mask"@,
        },
{
    match shader_variant {
        ShaderVariant::DefaultMesh => "fs_main",
        ShaderVariant::AdvancedBlend => "fs_blend",
        ShaderVariant::MaskWriter => "fs_mask",
    }
}

pub fn pipeline_blend_mode(blend_mode: BlendMode) -> (r: PipelineBlendMode)
    ensures
        r == match blend_mode {
            BlendMode::Normal => PipelineBlendMode::Normal,
            BlendMode::Additive => PipelineBlendMode::Additive,
            BlendMode::Multiplicative => PipelineBlendMode::Multiplicative,
            BlendMode::Advanced { .. } => PipelineBlendMode::Advanced,
        },
{
    match blend_mode {
        BlendMode::Normal => PipelineBlendMode::Normal,
        BlendMode::Additive => PipelineBlendMode::Additive,
        BlendMode::Multiplicative => PipelineBlendMode::Multiplicative,
        BlendMode::Advanced { .. } => PipelineBlendMode::Advanced,
    }
}

/// The image a post-process step reads.
#[derive(Debug, Clone, Copy, PartialEq, Eq, Structural)]
pub enum WgpuPostProcessSource {
    Scene,
    PingPong(usize),
}

/// The image a post-process step writes.
#[derive(Debug, Clone, Copy, PartialEq, Eq, Structural)]
pub enum WgpuPostProcessDestination {
    PingPong(usize),
    Final,
}

/// One post-process step of a chain.
#[derive(Debug, Clone, Copy, PartialEq, Eq, Structural)]
pub struct WgpuPostProcessStep {
    pub source: WgpuPostProcessSource,
    pub target: WgpuPostProcessDestination,
}

/// Step `index` of a chain of `count` passes: the first reads the scene, the others the
/// ping-pong texture the previous one wrote; the last writes the final target, the
/// others alternate between two ping-pong textures.
pub open spec fn post_process_step(index: int, count: int) -> WgpuPostProcessStep {
    WgpuPostProcessStep {
        source: if index == 0 {
            WgpuPostProcessSource::Scene
        } else {
            WgpuPostProcessSource::PingPong(((index - 1) % 2) as usize)
        },
        target: if index + 1 == count {
            WgpuPostProcessDestination::Final
        } else {
            WgpuPostProcessDestination::PingPong((index % 2) as usize)
        },
    }
}

pub fn post_process_steps(pass_count: usize) -> (r: Vec<WgpuPostProcessStep>)
    ensures
        r@ == Seq::new(pass_count as nat, |i: int| post_process_step(i, pass_count as int)),
{
    let mut steps: Vec<WgpuPostProcessStep> = Vec::new();
    let mut index: usize = 0;
    while index < pass_count
        invariant
            index <= pass_count,
            steps@ == Seq::new(index as nat, |i: int| post_process_step(i, pass_count as int)),
        decreases pass_count - index,
    {
        let source = if index == 0 {
            WgpuPostProcessSource::Scene
        } else {
            WgpuPostProcessSource::PingPong((index - 1) % 2)
        };
        let target = if index + 1 == pass_count {
            WgpuPostProcessDestination::Final
        } else {
            WgpuPostProcessDestination::PingPong(index % 2)
        };
        steps.push(WgpuPostProcessStep { source, target });
        index = index + 1;
        assert(steps@ =~= Seq::new(index as nat, |i: int| post_process_step(i, pass_count as int)));
    }
    steps
}

/// Every step of a chain reads what the step before it wrote, and only the last step
/// writes the final target.
pub proof fn law_post_process_steps_chain(count: int, index: int)
    requires
        0 < index < count,
    ensures
        match (post_process_step(index - 1, count).target, post_process_step(index, count).source) {
            (WgpuPostProcessDestination::PingPong(w), WgpuPostProcessSource::PingPong(r)) => w == r,
            _ => false,
        },
        (post_process_step(index, count).target == WgpuPostProcessDestination::Final) == (index + 1 == count),
{
}

/// `value` rounded up to a multiple of `alignment`.
pub fn align_to(value: u64, alignment: u64) -> (r: u64)
    requires
        alignment > 0,
        (value + alignment - 1) / (alignment as int) * alignment <= u64::MAX,
    ensures
        r == (value + alignment - 1) / (alignment as int) * alignment,
{
    let quotient = value / alignment;
    assert(alignment > 1 ==> quotient < u64::MAX) by (nonlinear_arith)
        requires
            alignment > 0,
            quotient == value / alignment,
    ;
    assert(alignment == 1 ==> value % alignment == 0) by (nonlinear_arith)
        requires
            alignment > 0,
    ;
    let rounded = if value % alignment == 0 {
        quotient
    } else {
        quotient + 1
    };
    assert(rounded == (value + alignment - 1) / (alignment as int)) by (nonlinear_arith)
        requires
            alignment > 0,
            quotient == value / alignment,
            rounded == if value % alignment == 0 { quotient } else { (quotient + 1) as u64 },
    ;
    assert(rounded * alignment <= u64::MAX);
    rounded * alignment
}

/// Folds `value` into a running signature.
pub open spec fn mixed(signature: u64, value: u64) -> u64 {
    signature ^ wrapping_add(
        wrapping_add(wrapping_add(value, 0x9e37_79b9_7f4a_7c15u64), signature << 6u64),
        signature >> 2u64,
    )
}

pub fn mix_u64(signature: &mut u64, value: u64)
    ensures
        *final(signature) == mixed(*old(signature), value),
{
    let s = *signature;
    let mixed_value = value.wrapping_add(0x9e37_79b9_7f4a_7c15).wrapping_add(s << 6u64).wrapping_add(
        s >> 2u64,
    );
    *signature = s ^ mixed_value;
}

/// Folds every value of `values`, in order, into a signature.
pub open spec fn mixed_all(signature: u64, values: Seq<u64>) -> u64
    decreases values.len(),
{
    if values.len() == 0 {
        signature
    } else {
        mixed(mixed_all(signature, values.drop_last()), values.last())
    }
}

/// Folds a string into a signature: its byte length, then each UTF-8 byte.
pub fn mix_str(signature: &mut u64, value: &str)
    ensures
        *final(signature) == mixed_all(
            mixed(*old(signature), value.spec_bytes().len() as u64),
            value.spec_bytes().map_values(|b: u8| b as u64),
        ),
{
    let bytes = value.as_bytes();
    mix_u64(signature, bytes.len() as u64);
    let ghost start = *signature;
    let ghost all = bytes@.map_values(|b: u8| b as u64);
    let mut i: usize = 0;
    while i < bytes.len()
        invariant
            i <= bytes@.len(),
            all == bytes@.map_values(|b: u8| b as u64),
            *signature == mixed_all(start, all.subrange(0, i as int)),
        decreases bytes@.len() - i,
    {
        assert(all.subrange(0, i + 1).drop_last() =~= all.subrange(0, i as int));
        mix_u64(signature, bytes[i] as u64);
        i = i + 1;
    }
    assert(all.subrange(0, bytes@.len() as int) =~= all);
}

/// Bytes of one packed vertex position: two single-precision numbers.
pub const GPU_POSITION_BYTES: u64 = 8;

/// Byte offset of a vertex's position in the packed position buffer.
pub fn position_byte_offset(vertex_index: usize) -> (r: u64)
    requires
        vertex_index * GPU_POSITION_BYTES <= u64::MAX,
    ensures
        r == vertex_index * GPU_POSITION_BYTES,
{
    vertex_index as u64 * GPU_POSITION_BYTES
}

/// A dirty range of vertex positions and where it starts in the position buffer.
#[derive(Debug, PartialEq, Eq)]
pub struct PositionUpload {
    pub vertex_range: Range<u32>,
    pub byte_offset: u64,
}

/// Bytes written by the first `n` uploads.
pub open spec fn upload_total(uploads: Seq<PositionUpload>, n: nat) -> int
    decreases n,
{
    if n == 0 {
        0
    } else {
        upload_total(uploads, (n - 1) as nat) + (uploads[n - 1].vertex_range.end
            - uploads[n - 1].vertex_range.start) * GPU_POSITION_BYTES
    }
}

/// The position uploads of one frame.
#[derive(Debug, PartialEq, Eq)]
pub struct GpuUploadPlan {
    pub uploads: Vec<PositionUpload>,
}

impl GpuUploadPlan {
    /// Bytes that the plan's uploads write.
    pub fn upload_bytes(&self) -> (r: u64)
        requires
            forall|i: int| 0 <= i < self.uploads@.len() ==> (#[trigger] self.uploads@[i]).vertex_range.start <= self.uploads@[i].vertex_range.end,
            forall|n: nat| n <= self.uploads@.len() ==> #[trigger] upload_total(self.uploads@, n) <= u64::MAX,
        ensures
            r == upload_total(self.uploads@, self.uploads@.len()),
    {
        let mut total: u64 = 0;
        let mut i: usize = 0;
        while i < self.uploads.len()
            invariant
                i <= self.uploads@.len(),
                forall|i: int| 0 <= i < self.uploads@.len() ==> (#[trigger] self.uploads@[i]).vertex_range.start <= self.uploads@[i].vertex_range.end,
                forall|n: nat| n <= self.uploads@.len() ==> #[trigger] upload_total(self.uploads@, n) <= u64::MAX,
                total == upload_total(self.uploads@, i as nat),
            decreases self.uploads@.len() - i,
        {
            let upload = &self.uploads[i];
            assert(upload_total(self.uploads@, (i + 1) as nat) <= u64::MAX);
            assert(upload_total(self.uploads@, i as nat) >= 0) by {
                lemma_upload_total_nonneg(self.uploads@, i as nat);
            }
            let count = (upload.vertex_range.end - upload.vertex_range.start) as u64;
            total = total + count * GPU_POSITION_BYTES;
            i = i + 1;
        }
        total
    }
}

proof fn lemma_upload_total_nonneg(uploads: Seq<PositionUpload>, n: nat)
    requires
        n <= uploads.len(),
        forall|i: int| 0 <= i < uploads.len() ==> (#[trigger] uploads[i]).vertex_range.start <= uploads[i].vertex_range.end,
    ensures
        upload_total(uploads, n) >= 0,
    decreases n,
{
    if n > 0 {
        lemma_upload_total_nonneg(uploads, (n - 1) as nat);
    }
}

#[verifier::external_type_specification]
#[verifier::external_body]
pub struct ExTextureFormat(wgpu::TextureFormat);

/// Identifies a render pipeline: the format it draws into, its fixed-function blending,
/// whether it samples a mask, and its fragment program.
#[derive(Debug, Clone, Copy, PartialEq, Eq, Hash)]
pub struct PipelineKey {
    pub target_format: wgpu::TextureFormat,
    pub blend_mode: PipelineBlendMode,
    pub masked: bool,
    pub shader_variant: ShaderVariant,
}

/// The pipeline that draws a mesh with this blend mode: advanced modes use the
/// advanced-blend program, the others the default one.
pub fn mesh_key(target_format: wgpu::TextureFormat, blend_mode: BlendMode, masked: bool) -> (r: PipelineKey)
    ensures
        r.target_format == target_format,
        r.blend_mode == (match blend_mode {
            BlendMode::Normal => PipelineBlendMode::Normal,
            BlendMode::Additive => PipelineBlendMode::Additive,
            BlendMode::Multiplicative => PipelineBlendMode::Multiplicative,
            BlendMode::Advanced { .. } => PipelineBlendMode::Advanced,
        }),
        r.masked == masked,
        r.shader_variant == if blend_mode is Advanced {
            ShaderVariant::AdvancedBlend
        } else {
            ShaderVariant::DefaultMesh
        },
{
    let blend_mode = pipeline_blend_mode(blend_mode);
    PipelineKey {
        target_format,
        blend_mode,
        masked,
        shader_variant: if blend_mode == PipelineBlendMode::Advanced {
            ShaderVariant::AdvancedBlend
        } else {
            ShaderVariant::DefaultMesh
        },
    }
}

} // verus!
