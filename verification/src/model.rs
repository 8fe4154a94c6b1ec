use std::ops::Range;
use vstd::prelude::*;

verus! {

/// Identifier of an art mesh (a "drawable") inside a model.
#[derive(Debug, Hash)]
pub struct DrawableId(pub String);

impl View for DrawableId {
    type V = Seq<char>;

    open spec fn view(&self) -> Seq<char> {
        self.0@
    }
}

impl Clone for DrawableId {
    fn clone(&self) -> (r: Self)
        ensures
            r@ == self@,
    {
        DrawableId(self.0.clone())
    }
}

impl PartialEq for DrawableId {
    fn eq(&self, other: &Self) -> (r: bool) {
        self.0 == other.0
    }
}

impl vstd::std_specs::cmp::PartialEqSpecImpl for DrawableId {
    open spec fn obeys_eq_spec() -> bool {
        true
    }

    open spec fn eq_spec(&self, other: &Self) -> bool {
        self@ == other@
    }
}

impl Eq for DrawableId {}

impl From<&str> for DrawableId {
    fn from(value: &str) -> (r: Self)
        ensures
            r@ == value@,
    {
        DrawableId(value.to_owned())
    }
}

impl vstd::std_specs::convert::FromSpecImpl<&str> for DrawableId {
    open spec fn obeys_from_spec() -> bool {
        false
    }

    open spec fn from_spec(v: &str) -> Self {
        arbitrary()
    }
}

impl From<String> for DrawableId {
    fn from(value: String) -> (r: Self)
        ensures
            r@ == value@,
    {
        DrawableId(value)
    }
}

impl vstd::std_specs::convert::FromSpecImpl<String> for DrawableId {
    open spec fn obeys_from_spec() -> bool {
        true
    }

    open spec fn from_spec(v: String) -> Self {
        DrawableId(v)
    }
}

impl DrawableId {
    /// The identifier as text.
    pub fn as_str(&self) -> (r: &str)
        ensures
            r@ == self@,
    {
        self.0.as_str()
    }

    /// Compares two identifiers by their text.
    pub fn same_as(&self, other: &DrawableId) -> (r: bool)
        ensures
            r == (self@ == other@),
    {
        self.0 == other.0
    }
}

/// How a drawable's colour is combined with what lies beneath it.
#[derive(Debug, Clone, Copy, PartialEq, Eq, Structural, Hash, Default)]
pub enum BlendMode {
    #[default]
    Normal,
    Additive,
    Multiplicative,
    Advanced { color: ColorBlendMode, alpha: AlphaBlendMode },
}

/// Colour part of an advanced blend mode.
#[derive(Debug, Clone, Copy, PartialEq, Eq, Structural, Hash, Default)]
pub enum ColorBlendMode {
    #[default]
    Normal,
    Add,
    AddGlow,
    Darken,
    Multiply,
    ColorBurn,
    LinearBurn,
    Lighten,
    Screen,
    ColorDodge,
    Overlay,
    SoftLight,
    HardLight,
    LinearLight,
    Hue,
    Color,
}

/// Alpha part of an advanced blend mode.
#[derive(Debug, Clone, Copy, PartialEq, Eq, Structural, Hash, Default)]
pub enum AlphaBlendMode {
    #[default]
    Over,
    Atop,
    Out,
    ConjointOver,
    DisjointOver,
}

/// The colour blend type that a Cubism colour code denotes.
pub open spec fn color_blend_for_code(value: int) -> ColorBlendMode {
    if value == 3 {
        ColorBlendMode::Add
    } else if value == 4 {
        ColorBlendMode::AddGlow
    } else if value == 5 {
        ColorBlendMode::Darken
    } else if value == 6 {
        ColorBlendMode::Multiply
    } else if value == 7 {
        ColorBlendMode::ColorBurn
    } else if value == 8 {
        ColorBlendMode::LinearBurn
    } else if value == 9 {
        ColorBlendMode::Lighten
    } else if value == 10 {
        ColorBlendMode::Screen
    } else if value == 11 {
        ColorBlendMode::ColorDodge
    } else if value == 12 {
        ColorBlendMode::Overlay
    } else if value == 13 {
        ColorBlendMode::SoftLight
    } else if value == 14 {
        ColorBlendMode::HardLight
    } else if value == 15 {
        ColorBlendMode::LinearLight
    } else if value == 16 {
        ColorBlendMode::Hue
    } else if value == 17 {
        ColorBlendMode::Color
    } else {
        ColorBlendMode::Normal
    }
}

/// The alpha blend type that a Cubism alpha code denotes.
pub open spec fn alpha_blend_for_code(value: int) -> AlphaBlendMode {
    if value == 1 {
        AlphaBlendMode::Atop
    } else if value == 2 {
        AlphaBlendMode::Out
    } else if value == 3 {
        AlphaBlendMode::ConjointOver
    } else if value == 4 {
        AlphaBlendMode::DisjointOver
    } else {
        AlphaBlendMode::Over
    }
}

/// The blend mode that a packed Cubism blend value denotes: the low byte is the
/// colour code, the next byte the alpha code.
pub open spec fn blend_mode_for_value(value: i32) -> BlendMode {
    let color = value & 0xff;
    let alpha = (value >> 8u32) & 0xff;
    if color == 0 && alpha == 0 {
        BlendMode::Normal
    } else if color == 1 {
        BlendMode::Additive
    } else if color == 2 {
        BlendMode::Multiplicative
    } else {
        BlendMode::Advanced {
            color: color_blend_for_code(color as int),
            alpha: alpha_blend_for_code(alpha as int),
        }
    }
}

impl BlendMode {
    pub fn from_cubism_blend_mode(value: i32) -> (r: Self)
        ensures
            r == blend_mode_for_value(value),
    {
        let color = value & 0xff;
        let alpha = (value >> 8u32) & 0xff;
        if color == 0 && alpha == 0 {
            BlendMode::Normal
        } else if color == 1 {
            BlendMode::Additive
        } else if color == 2 {
            BlendMode::Multiplicative
        } else {
            BlendMode::Advanced {
                color: ColorBlendMode::from_cubism_color_blend_type(color),
                alpha: AlphaBlendMode::from_cubism_alpha_blend_type(alpha),
            }
        }
    }
}

impl ColorBlendMode {
    pub fn from_cubism_color_blend_type(value: i32) -> (r: Self)
        ensures
            r == color_blend_for_code(value as int),
    {
        match value {
            3 => ColorBlendMode::Add,
            4 => ColorBlendMode::AddGlow,
            5 => ColorBlendMode::Darken,
            6 => ColorBlendMode::Multiply,
            7 => ColorBlendMode::ColorBurn,
            8 => ColorBlendMode::LinearBurn,
            9 => ColorBlendMode::Lighten,
            10 => ColorBlendMode::Screen,
            11 => ColorBlendMode::ColorDodge,
            12 => ColorBlendMode::Overlay,
            13 => ColorBlendMode::SoftLight,
            14 => ColorBlendMode::HardLight,
            15 => ColorBlendMode::LinearLight,
            16 => ColorBlendMode::Hue,
            17 => ColorBlendMode::Color,
            _ => ColorBlendMode::Normal,
        }
    }
}

impl AlphaBlendMode {
    pub fn from_cubism_alpha_blend_type(value: i32) -> (r: Self)
        ensures
            r == alpha_blend_for_code(value as int),
    {
        match value {
            1 => AlphaBlendMode::Atop,
            2 => AlphaBlendMode::Out,
            3 => AlphaBlendMode::ConjointOver,
            4 => AlphaBlendMode::DisjointOver,
            _ => AlphaBlendMode::Over,
        }
    }
}

/// Canvas geometry; every number is held as its IEEE-754 single-precision bit pattern.
#[derive(Debug, Clone, Copy, Default, PartialEq, Eq)]
pub struct CanvasInfo {
    pub size_bits: [u32; 2],
    pub origin_bits: [u32; 2],
    pub pixels_per_unit_bits: u32,
}

/// An RGBA8 texture.
#[derive(Debug, PartialEq, Eq)]
pub struct TextureAsset {
    pub width: u32,
    pub height: u32,
    pub rgba: Vec<u8>,
}

/// Mathematical model of a texture.
pub struct TextureView {
    pub width: u32,
    pub height: u32,
    pub rgba: Seq<u8>,
}

impl View for TextureAsset {
    type V = TextureView;

    open spec fn view(&self) -> TextureView {
        TextureView { width: self.width, height: self.height, rgba: self.rgba@ }
    }
}

/// Copies a vector of plain values.
pub fn copy_all<T: Copy>(v: &Vec<T>) -> (r: Vec<T>)
    ensures
        r@ == v@,
{
    let mut out: Vec<T> = Vec::new();
    let mut i: usize = 0;
    while i < v.len()
        invariant
            i <= v@.len(),
            out@ == v@.take(i as int),
        decreases v@.len() - i,
    {
        out.push(v[i]);
        assert(out@ =~= v@.take(i + 1));
        i = i + 1;
    }
    assert(v@.take(i as int) =~= v@);
    out
}

impl Clone for TextureAsset {
    fn clone(&self) -> (r: Self)
        ensures
            r@ == self@,
    {
        TextureAsset { width: self.width, height: self.height, rgba: copy_all(&self.rgba) }
    }
}

/// One mesh vertex; position and uv are held as IEEE-754 single-precision bit patterns.
#[derive(Debug, Clone, Copy, PartialEq, Eq)]
pub struct Vertex {
    pub position_bits: [u32; 2],
    pub uv_bits: [u32; 2],
}

/// The drawables that clip another drawable, and whether the clip is inverted.
#[derive(Debug, PartialEq, Eq)]
pub struct ClippingInfo {
    pub drawable_ids: Vec<DrawableId>,
    pub inverted: bool,
}

/// Mathematical model of a clipping description: the mask ids as text.
pub struct ClippingView {
    pub drawable_ids: Seq<Seq<char>>,
    pub inverted: bool,
}

pub open spec fn ids_view(ids: Seq<DrawableId>) -> Seq<Seq<char>> {
    ids.map_values(|id: DrawableId| id@)
}

impl View for ClippingInfo {
    type V = ClippingView;

    open spec fn view(&self) -> ClippingView {
        ClippingView { drawable_ids: ids_view(self.drawable_ids@), inverted: self.inverted }
    }
}

pub open spec fn clipping_view(c: Option<ClippingInfo>) -> Option<ClippingView> {
    match c {
        Some(c) => Some(c@),
        None => None,
    }
}

/// Copies a list of identifiers.
pub fn clone_ids(ids: &Vec<DrawableId>) -> (r: Vec<DrawableId>)
    ensures
        ids_view(r@) == ids_view(ids@),
{
    let mut out: Vec<DrawableId> = Vec::new();
    let mut i: usize = 0;
    while i < ids.len()
        invariant
            i <= ids.len(),
            out@.len() == i,
            forall|k: int| 0 <= k < i ==> out@[k]@ == ids@[k]@,
        decreases ids.len() - i,
    {
        out.push(ids[i].clone());
        i = i + 1;
    }
    assert(ids_view(out@) =~= ids_view(ids@));
    out
}

impl Clone for ClippingInfo {
    fn clone(&self) -> (r: Self)
        ensures
            r@ == self@,
    {
        ClippingInfo { drawable_ids: clone_ids(&self.drawable_ids), inverted: self.inverted }
    }
}

impl ClippingInfo {
    /// Compares two clipping descriptions by their ids' text and their inversion.
    pub fn same_as(&self, other: &ClippingInfo) -> (r: bool)
        ensures
            r == (self@ == other@),
    {
        if self.inverted != other.inverted {
            return false;
        }
        if self.drawable_ids.len() != other.drawable_ids.len() {
            assert(ids_view(self.drawable_ids@).len() != ids_view(other.drawable_ids@).len());
            return false;
        }
        let mut i: usize = 0;
        while i < self.drawable_ids.len()
            invariant
                i <= self.drawable_ids.len(),
                self.drawable_ids.len() == other.drawable_ids.len(),
                forall|k: int| 0 <= k < i ==> self.drawable_ids@[k]@ == other.drawable_ids@[k]@,
            decreases self.drawable_ids.len() - i,
        {
            if !self.drawable_ids[i].same_as(&other.drawable_ids[i]) {
                assert(ids_view(self.drawable_ids@)[i as int] != ids_view(other.drawable_ids@)[i as int]);
                return false;
            }
            i = i + 1;
        }
        assert(ids_view(self.drawable_ids@) =~= ids_view(other.drawable_ids@));
        true
    }
}

/// Compares two optional clipping descriptions.
pub fn same_clipping(a: &Option<ClippingInfo>, b: &Option<ClippingInfo>) -> (r: bool)
    ensures
        r == (clipping_view(*a) == clipping_view(*b)),
{
    match (a, b) {
        (Some(x), Some(y)) => x.same_as(y),
        (None, None) => true,
        _ => false,
    }
}

/// Copies an optional clipping description.
pub fn clone_clipping(c: &Option<ClippingInfo>) -> (r: Option<ClippingInfo>)
    ensures
        clipping_view(r) == clipping_view(*c),
{
    match c {
        Some(x) => Some(x.clone()),
        None => None,
    }
}

/// One drawable art mesh of a model snapshot.
///
/// `opacity_bits` is the IEEE-754 single-precision bit pattern of the opacity.
#[derive(Debug, PartialEq)]
pub struct Drawable {
    pub id: DrawableId,
    pub render_order: i32,
    pub parent_part_index: Option<usize>,
    pub texture_index: usize,
    pub vertices: Vec<Vertex>,
    pub indices: Vec<u16>,
    pub visible: bool,
    pub opacity_bits: u32,
    pub blend_mode: BlendMode,
    pub clipping: Option<ClippingInfo>,
}

/// Mathematical model of a drawable.
pub struct DrawableView {
    pub id: Seq<char>,
    pub render_order: i32,
    pub parent_part_index: Option<usize>,
    pub texture_index: usize,
    pub vertices: Seq<Vertex>,
    pub indices: Seq<u16>,
    pub visible: bool,
    pub opacity_bits: u32,
    pub blend_mode: BlendMode,
    pub clipping: Option<ClippingView>,
}

impl View for Drawable {
    type V = DrawableView;

    open spec fn view(&self) -> DrawableView {
        DrawableView {
            id: self.id@,
            render_order: self.render_order,
            parent_part_index: self.parent_part_index,
            texture_index: self.texture_index,
            vertices: self.vertices@,
            indices: self.indices@,
            visible: self.visible,
            opacity_bits: self.opacity_bits,
            blend_mode: self.blend_mode,
            clipping: clipping_view(self.clipping),
        }
    }
}

impl Clone for Drawable {
    fn clone(&self) -> (r: Self)
        ensures
            r@ == self@,
    {
        Drawable {
            id: self.id.clone(),
            render_order: self.render_order,
            parent_part_index: self.parent_part_index,
            texture_index: self.texture_index,
            vertices: copy_all(&self.vertices),
            indices: copy_all(&self.indices),
            visible: self.visible,
            opacity_bits: self.opacity_bits,
            blend_mode: self.blend_mode,
            clipping: clone_clipping(&self.clipping),
        }
    }
}

/// An offscreen layer owned by a part of the model.
///
/// `opacity_bits` is the IEEE-754 single-precision bit pattern of the opacity.
#[derive(Debug, PartialEq)]
pub struct Offscreen {
    pub index: usize,
    pub render_order: i32,
    pub owner_part_index: Option<usize>,
    pub opacity_bits: u32,
    pub blend_mode: BlendMode,
    pub clipping: Option<ClippingInfo>,
}

/// Mathematical model of an offscreen layer.
pub struct OffscreenView {
    pub index: usize,
    pub render_order: i32,
    pub owner_part_index: Option<usize>,
    pub opacity_bits: u32,
    pub blend_mode: BlendMode,
    pub clipping: Option<ClippingView>,
}

impl View for Offscreen {
    type V = OffscreenView;

    open spec fn view(&self) -> OffscreenView {
        OffscreenView {
            index: self.index,
            render_order: self.render_order,
            owner_part_index: self.owner_part_index,
            opacity_bits: self.opacity_bits,
            blend_mode: self.blend_mode,
            clipping: clipping_view(self.clipping),
        }
    }
}

impl Clone for Offscreen {
    fn clone(&self) -> (r: Self)
        ensures
            r@ == self@,
    {
        Offscreen {
            index: self.index,
            render_order: self.render_order,
            owner_part_index: self.owner_part_index,
            opacity_bits: self.opacity_bits,
            blend_mode: self.blend_mode,
            clipping: clone_clipping(&self.clipping),
        }
    }
}

pub open spec fn offscreens_view(s: Seq<Offscreen>) -> Seq<OffscreenView> {
    s.map_values(|o: Offscreen| o@)
}

/// Copies a list of offscreen layers.
pub fn clone_offscreens(v: &Vec<Offscreen>) -> (r: Vec<Offscreen>)
    ensures
        offscreens_view(r@) == offscreens_view(v@),
{
    let mut out: Vec<Offscreen> = Vec::new();
    let mut i: usize = 0;
    while i < v.len()
        invariant
            i <= v.len(),
            out@.len() == i,
            forall|k: int| 0 <= k < i ==> out@[k]@ == v@[k]@,
        decreases v.len() - i,
    {
        out.push(v[i].clone());
        i = i + 1;
    }
    assert(offscreens_view(out@) =~= offscreens_view(v@));
    out
}

/// One entry of the model's object draw order.
#[derive(Debug, PartialEq, Eq)]
pub enum RenderObject {
    Drawable(DrawableId),
    Offscreen(usize),
}

/// Mathematical model of a render object.
pub enum RenderObjectView {
    Drawable(Seq<char>),
    Offscreen(usize),
}

impl View for RenderObject {
    type V = RenderObjectView;

    open spec fn view(&self) -> RenderObjectView {
        match self {
            RenderObject::Drawable(id) => RenderObjectView::Drawable(id@),
            RenderObject::Offscreen(i) => RenderObjectView::Offscreen(*i),
        }
    }
}

impl Clone for RenderObject {
    fn clone(&self) -> (r: Self)
        ensures
            r@ == self@,
    {
        match self {
            RenderObject::Drawable(id) => RenderObject::Drawable(id.clone()),
            RenderObject::Offscreen(i) => RenderObject::Offscreen(*i),
        }
    }
}

/// Metadata of an art mesh.
#[derive(Debug, PartialEq)]
pub struct ArtMeshInfo {
    pub id: DrawableId,
    pub label: String,
    pub original_name: String,
    pub index: usize,
    pub mask_type: String,
}

/// Mathematical model of art mesh metadata.
pub struct ArtMeshView {
    pub id: Seq<char>,
    pub label: Seq<char>,
    pub original_name: Seq<char>,
    pub index: usize,
    pub mask_type: Seq<char>,
}

impl View for ArtMeshInfo {
    type V = ArtMeshView;

    open spec fn view(&self) -> ArtMeshView {
        ArtMeshView {
            id: self.id@,
            label: self.label@,
            original_name: self.original_name@,
            index: self.index,
            mask_type: self.mask_type@,
        }
    }
}

impl Clone for ArtMeshInfo {
    fn clone(&self) -> (r: Self)
        ensures
            r@ == self@,
    {
        ArtMeshInfo {
            id: self.id.clone(),
            label: self.label.clone(),
            original_name: self.original_name.clone(),
            index: self.index,
            mask_type: self.mask_type.clone(),
        }
    }
}

/// Copies a vector of values that clone to equal views.
fn clone_art_meshes(v: &Vec<ArtMeshInfo>) -> (r: Vec<ArtMeshInfo>)
    ensures
        r@.map_values(|a: ArtMeshInfo| a@) == v@.map_values(|a: ArtMeshInfo| a@),
{
    let mut out: Vec<ArtMeshInfo> = Vec::new();
    let mut i: usize = 0;
    while i < v.len()
        invariant
            i <= v@.len(),
            out@.len() == i,
            forall|k: int| 0 <= k < i ==> out@[k]@ == v@[k]@,
        decreases v@.len() - i,
    {
        out.push(v[i].clone());
        i = i + 1;
    }
    assert(out@.map_values(|a: ArtMeshInfo| a@) =~= v@.map_values(|a: ArtMeshInfo| a@));
    out
}

fn clone_drawables(v: &Vec<Drawable>) -> (r: Vec<Drawable>)
    ensures
        r@.map_values(|d: Drawable| d@) == v@.map_values(|d: Drawable| d@),
{
    let mut out: Vec<Drawable> = Vec::new();
    let mut i: usize = 0;
    while i < v.len()
        invariant
            i <= v@.len(),
            out@.len() == i,
            forall|k: int| 0 <= k < i ==> out@[k]@ == v@[k]@,
        decreases v@.len() - i,
    {
        out.push(v[i].clone());
        i = i + 1;
    }
    assert(out@.map_values(|d: Drawable| d@) =~= v@.map_values(|d: Drawable| d@));
    out
}

fn clone_render_objects(v: &Vec<RenderObject>) -> (r: Vec<RenderObject>)
    ensures
        r@.map_values(|o: RenderObject| o@) == v@.map_values(|o: RenderObject| o@),
{
    let mut out: Vec<RenderObject> = Vec::new();
    let mut i: usize = 0;
    while i < v.len()
        invariant
            i <= v@.len(),
            out@.len() == i,
            forall|k: int| 0 <= k < i ==> out@[k]@ == v@[k]@,
        decreases v@.len() - i,
    {
        out.push(v[i].clone());
        i = i + 1;
    }
    assert(out@.map_values(|o: RenderObject| o@) =~= v@.map_values(|o: RenderObject| o@));
    out
}

fn clone_textures(v: &Vec<TextureAsset>) -> (r: Vec<TextureAsset>)
    ensures
        r@.map_values(|t: TextureAsset| t@) == v@.map_values(|t: TextureAsset| t@),
{
    let mut out: Vec<TextureAsset> = Vec::new();
    let mut i: usize = 0;
    while i < v.len()
        invariant
            i <= v@.len(),
            out@.len() == i,
            forall|k: int| 0 <= k < i ==> out@[k]@ == v@[k]@,
        decreases v@.len() - i,
    {
        out.push(v[i].clone());
        i = i + 1;
    }
    assert(out@.map_values(|t: TextureAsset| t@) =~= v@.map_values(|t: TextureAsset| t@));
    out
}

/// Everything a renderer needs of one model at one instant.
#[derive(Debug, PartialEq)]
pub struct ModelSnapshot {
    pub model_key: String,
    pub canvas: CanvasInfo,
    pub art_meshes: Vec<ArtMeshInfo>,
    pub drawables: Vec<Drawable>,
    pub offscreens: Vec<Offscreen>,
    pub render_objects: Vec<RenderObject>,
    pub part_parent_indices: Vec<Option<usize>>,
    pub textures: Vec<TextureAsset>,
}

/// Mathematical model of a snapshot.
pub struct SnapshotView {
    pub model_key: Seq<char>,
    pub canvas: CanvasInfo,
    pub art_meshes: Seq<ArtMeshView>,
    pub drawables: Seq<DrawableView>,
    pub offscreens: Seq<OffscreenView>,
    pub render_objects: Seq<RenderObjectView>,
    pub part_parent_indices: Seq<Option<usize>>,
    pub textures: Seq<TextureView>,
}

impl View for ModelSnapshot {
    type V = SnapshotView;

    open spec fn view(&self) -> SnapshotView {
        SnapshotView {
            model_key: self.model_key@,
            canvas: self.canvas,
            art_meshes: self.art_meshes@.map_values(|a: ArtMeshInfo| a@),
            drawables: self.drawables@.map_values(|d: Drawable| d@),
            offscreens: offscreens_view(self.offscreens@),
            render_objects: self.render_objects@.map_values(|o: RenderObject| o@),
            part_parent_indices: self.part_parent_indices@,
            textures: self.textures@.map_values(|t: TextureAsset| t@),
        }
    }
}

impl Clone for ModelSnapshot {
    fn clone(&self) -> (r: Self)
        ensures
            r@ == self@,
    {
        ModelSnapshot {
            model_key: self.model_key.clone(),
            canvas: self.canvas,
            art_meshes: clone_art_meshes(&self.art_meshes),
            drawables: clone_drawables(&self.drawables),
            offscreens: clone_offscreens(&self.offscreens),
            render_objects: clone_render_objects(&self.render_objects),
            part_parent_indices: copy_all(&self.part_parent_indices),
            textures: clone_textures(&self.textures),
        }
    }
}

/// Material selection for a draw.
#[derive(Debug, Clone, Copy, PartialEq, Eq, Structural, Hash, Default)]
pub enum MaterialKey {
    #[default]
    Default,
    Custom(u64),
}

/// Index of a mask pass within a render plan.
#[derive(Debug, Clone, Copy, PartialEq, Eq, Structural, Hash)]
pub struct MaskRef(pub usize);

/// Where a drawable's vertices and indices lie in the packed model buffers.
#[derive(Debug, PartialEq)]
pub struct DrawableRanges {
    pub vertex_range: Range<u32>,
    pub index_range: Range<u32>,
}

impl Clone for DrawableRanges {
    fn clone(&self) -> (r: Self)
        ensures
            r == *self,
    {
        DrawableRanges {
            vertex_range: self.vertex_range.start..self.vertex_range.end,
            index_range: self.index_range.start..self.index_range.end,
        }
    }
}

} // verus!
