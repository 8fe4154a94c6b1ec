use crate::gpu::{mix_str, mix_u64, mixed, mixed_all, position_byte_offset, GpuUploadPlan, PositionUpload, GPU_POSITION_BYTES};
use crate::layout::has_geometry;
use crate::model::{DrawableView, ModelSnapshot, SnapshotView, TextureAsset};
use vstd::string::StringSliceAdditionalSpecFns;
use vstd::utf8::encode_utf8;
use crate::plan::RenderPlan;
use std::ops::Range;
use vstd::prelude::*;

verus! {

/// Whether a single-precision bit pattern is a NaN.
pub open spec fn is_nan_bits(b: u32) -> bool {
    (b & 0x7f80_0000u32) == 0x7f80_0000u32 && (b & 0x007f_ffffu32) != 0
}

/// IEEE-754 equality of two single-precision numbers given by their bits: a NaN equals
/// nothing, and the two zeros are equal.
pub open spec fn f32_bits_eq(a: u32, b: u32) -> bool {
    &&& !is_nan_bits(a)
    &&& !is_nan_bits(b)
    &&& (a == b || ((a & 0x7fff_ffffu32) == 0 && (b & 0x7fff_ffffu32) == 0))
}

pub fn f32_bits_equal(a: u32, b: u32) -> (r: bool)
    ensures
        r == f32_bits_eq(a, b),
{
    let a_nan = (a & 0x7f80_0000u32) == 0x7f80_0000u32 && (a & 0x007f_ffffu32) != 0;
    let b_nan = (b & 0x7f80_0000u32) == 0x7f80_0000u32 && (b & 0x007f_ffffu32) != 0;
    !a_nan && !b_nan && (a == b || ((a & 0x7fff_ffffu32) == 0 && (b & 0x7fff_ffffu32) == 0))
}

/// A vertex position as uploaded to the GPU, as single-precision bit patterns.
#[derive(Debug, Clone, Copy)]
pub struct GpuPosition {
    pub position_bits: [u32; 2],
}

/// Whether two uploaded positions are equal as numbers.
pub open spec fn positions_equal(a: GpuPosition, b: GpuPosition) -> bool {
    f32_bits_eq(a.position_bits[0], b.position_bits[0]) && f32_bits_eq(a.position_bits[1], b.position_bits[1])
}

impl PartialEq for GpuPosition {
    fn eq(&self, other: &Self) -> (r: bool) {
        f32_bits_equal(self.position_bits[0], other.position_bits[0]) && f32_bits_equal(
            self.position_bits[1],
            other.position_bits[1],
        )
    }
}

impl vstd::std_specs::cmp::PartialEqSpecImpl for GpuPosition {
    open spec fn obeys_eq_spec() -> bool {
        true
    }

    open spec fn eq_spec(&self, other: &Self) -> bool {
        positions_equal(*self, *other)
    }
}

/// A vertex texture coordinate as uploaded to the GPU, as single-precision bit patterns.
#[derive(Debug, Clone, Copy, PartialEq, Eq)]
pub struct GpuUv {
    pub uv_bits: [u32; 2],
}

/// The positions of one drawable.
pub open spec fn drawable_positions(d: DrawableView) -> Seq<GpuPosition> {
    d.vertices.map_values(|v: crate::model::Vertex| GpuPosition { position_bits: v.position_bits })
}

/// The texture coordinates of one drawable.
pub open spec fn drawable_uvs(d: DrawableView) -> Seq<GpuUv> {
    d.vertices.map_values(|v: crate::model::Vertex| GpuUv { uv_bits: v.uv_bits })
}

/// Positions of the drawables with geometry among the first `n`, in drawable order.
pub open spec fn positions_upto(ds: Seq<DrawableView>, n: nat) -> Seq<GpuPosition>
    decreases n,
{
    if n == 0 {
        Seq::empty()
    } else {
        positions_upto(ds, (n - 1) as nat) + if has_geometry(ds[n - 1]) {
            drawable_positions(ds[n - 1])
        } else {
            Seq::empty()
        }
    }
}

/// Texture coordinates of the drawables with geometry among the first `n`.
pub open spec fn uvs_upto(ds: Seq<DrawableView>, n: nat) -> Seq<GpuUv>
    decreases n,
{
    if n == 0 {
        Seq::empty()
    } else {
        uvs_upto(ds, (n - 1) as nat) + if has_geometry(ds[n - 1]) {
            drawable_uvs(ds[n - 1])
        } else {
            Seq::empty()
        }
    }
}

/// Indices of the drawables with geometry among the first `n`.
pub open spec fn indices_upto(ds: Seq<DrawableView>, n: nat) -> Seq<u16>
    decreases n,
{
    if n == 0 {
        Seq::empty()
    } else {
        indices_upto(ds, (n - 1) as nat) + if has_geometry(ds[n - 1]) {
            ds[n - 1].indices
        } else {
            Seq::empty()
        }
    }
}

/// The scene's vertex positions: those of each drawable with geometry, in order.
pub open spec fn scene_positions(s: SnapshotView) -> Seq<GpuPosition> {
    positions_upto(s.drawables, s.drawables.len())
}

/// The scene's texture coordinates.
pub open spec fn scene_uvs(s: SnapshotView) -> Seq<GpuUv> {
    uvs_upto(s.drawables, s.drawables.len())
}

/// The scene's indices.
pub open spec fn scene_indices(s: SnapshotView) -> Seq<u16> {
    indices_upto(s.drawables, s.drawables.len())
}

/// The vertex positions of the drawables with geometry, in drawable order.
pub fn gpu_scene_positions(snapshot: &ModelSnapshot, render_plan: &RenderPlan) -> (r: Vec<GpuPosition>)
    ensures
        r@ == scene_positions(snapshot@),
{
    let ghost ds = snapshot@.drawables;
    let mut positions: Vec<GpuPosition> = Vec::new();
    let mut i: usize = 0;
    while i < snapshot.drawables.len()
        invariant
            i <= snapshot.drawables@.len(),
            ds == snapshot@.drawables,
            ds.len() == snapshot.drawables@.len(),
            positions@ == positions_upto(ds, i as nat),
        decreases snapshot.drawables@.len() - i,
    {
        let drawable = &snapshot.drawables[i];
        assert(ds[i as int] == drawable@);
        if drawable.vertices.len() > 0 && drawable.indices.len() > 0 {
            let ghost start = positions@;
            let mut j: usize = 0;
            while j < drawable.vertices.len()
                invariant
                    j <= drawable.vertices@.len(),
                    ds[i as int] == drawable@,
                    positions@ == start + drawable_positions(drawable@).take(j as int),
                decreases drawable.vertices@.len() - j,
            {
                positions.push(GpuPosition { position_bits: drawable.vertices[j].position_bits });
                assert(drawable_positions(drawable@).take(j + 1) =~= drawable_positions(drawable@).take(
                    j as int,
                ).push(GpuPosition { position_bits: drawable.vertices[j as int].position_bits }));
                j = j + 1;
            }
            assert(drawable_positions(drawable@).take(j as int) =~= drawable_positions(drawable@));
        } else {
            assert(positions_upto(ds, (i + 1) as nat) =~= positions_upto(ds, i as nat));
        }
        i = i + 1;
    }
    positions
}

/// The vertex texture coordinates of the drawables with geometry, in drawable order.
pub fn gpu_scene_uvs(snapshot: &ModelSnapshot, render_plan: &RenderPlan) -> (r: Vec<GpuUv>)
    ensures
        r@ == scene_uvs(snapshot@),
{
    let ghost ds = snapshot@.drawables;
    let mut uvs: Vec<GpuUv> = Vec::new();
    let mut i: usize = 0;
    while i < snapshot.drawables.len()
        invariant
            i <= snapshot.drawables@.len(),
            ds == snapshot@.drawables,
            ds.len() == snapshot.drawables@.len(),
            uvs@ == uvs_upto(ds, i as nat),
        decreases snapshot.drawables@.len() - i,
    {
        let drawable = &snapshot.drawables[i];
        assert(ds[i as int] == drawable@);
        if drawable.vertices.len() > 0 && drawable.indices.len() > 0 {
            let ghost start = uvs@;
            let mut j: usize = 0;
            while j < drawable.vertices.len()
                invariant
                    j <= drawable.vertices@.len(),
                    ds[i as int] == drawable@,
                    uvs@ == start + drawable_uvs(drawable@).take(j as int),
                decreases drawable.vertices@.len() - j,
            {
                uvs.push(GpuUv { uv_bits: drawable.vertices[j].uv_bits });
                assert(drawable_uvs(drawable@).take(j + 1) =~= drawable_uvs(drawable@).take(j as int).push(
                    GpuUv { uv_bits: drawable.vertices[j as int].uv_bits },
                ));
                j = j + 1;
            }
            assert(drawable_uvs(drawable@).take(j as int) =~= drawable_uvs(drawable@));
        } else {
            assert(uvs_upto(ds, (i + 1) as nat) =~= uvs_upto(ds, i as nat));
        }
        i = i + 1;
    }
    uvs
}

/// The indices of the drawables with geometry, in drawable order.
pub fn gpu_scene_indices(snapshot: &ModelSnapshot, render_plan: &RenderPlan) -> (r: Vec<u16>)
    ensures
        r@ == scene_indices(snapshot@),
{
    let ghost ds = snapshot@.drawables;
    let mut indices: Vec<u16> = Vec::new();
    let mut i: usize = 0;
    while i < snapshot.drawables.len()
        invariant
            i <= snapshot.drawables@.len(),
            ds == snapshot@.drawables,
            ds.len() == snapshot.drawables@.len(),
            indices@ == indices_upto(ds, i as nat),
        decreases snapshot.drawables@.len() - i,
    {
        let drawable = &snapshot.drawables[i];
        assert(ds[i as int] == drawable@);
        if drawable.vertices.len() > 0 && drawable.indices.len() > 0 {
            let ghost start = indices@;
            let mut j: usize = 0;
            while j < drawable.indices.len()
                invariant
                    j <= drawable.indices@.len(),
                    ds[i as int] == drawable@,
                    indices@ == start + drawable.indices@.take(j as int),
                decreases drawable.indices@.len() - j,
            {
                indices.push(drawable.indices[j]);
                assert(drawable.indices@.take(j + 1) =~= drawable.indices@.take(j as int).push(
                    drawable.indices@[j as int],
                ));
                j = j + 1;
            }
            assert(drawable.indices@.take(j as int) =~= drawable.indices@);
        } else {
            assert(indices_upto(ds, (i + 1) as nat) =~= indices_upto(ds, i as nat));
        }
        i = i + 1;
    }
    indices
}

/// One upload of `count` positions from the start, or none for no positions.
pub open spec fn full_upload(count: nat) -> Seq<PositionUpload> {
    if count == 0 {
        Seq::empty()
    } else {
        seq![PositionUpload { vertex_range: Range { start: 0u32, end: count as u32 }, byte_offset: 0u64 }]
    }
}

pub fn full_position_upload(positions: &[GpuPosition]) -> (r: Vec<PositionUpload>)
    requires
        positions@.len() <= u32::MAX,
    ensures
        r@ == full_upload(positions@.len()),
{
    if positions.len() == 0 {
        Vec::new()
    } else {
        let r = vec![PositionUpload { vertex_range: 0..positions.len() as u32, byte_offset: 0 }];
        assert(r@ =~= full_upload(positions@.len()));
        r
    }
}

/// Whether vertex `i` moved between the uploaded and the new positions.
pub open spec fn moved(old: Seq<GpuPosition>, next: Seq<GpuPosition>, i: int) -> bool {
    !positions_equal(old[i], next[i])
}

/// The uploaded positions after the first `n` vertices were brought up to date: a moved
/// vertex takes its new position, an unmoved one keeps its old bits.
pub open spec fn refreshed_positions(old: Seq<GpuPosition>, next: Seq<GpuPosition>, n: int) -> Seq<GpuPosition> {
    Seq::new(
        old.len(),
        |i: int|
            if i < n && moved(old, next, i) {
                next[i]
            } else {
                old[i]
            },
    )
}

/// Whether upload `k` covers vertex `i`.
pub open spec fn covers(uploads: Seq<PositionUpload>, k: int, i: int) -> bool {
    uploads[k].vertex_range.start <= i < uploads[k].vertex_range.end
}

/// Whether the uploads are the maximal runs of moved vertices below `n`: each is a
/// non-empty range starting at its byte offset, they come in order with a gap between
/// any two, and they cover exactly the moved vertices below `n`.
pub open spec fn uploads_cover_moves(
    uploads: Seq<PositionUpload>,
    old: Seq<GpuPosition>,
    next: Seq<GpuPosition>,
    n: int,
) -> bool {
    &&& forall|k: int| #![trigger uploads[k]]
        0 <= k < uploads.len() ==> uploads[k].vertex_range.start < uploads[k].vertex_range.end
            && uploads[k].vertex_range.end <= n && uploads[k].byte_offset == uploads[k].vertex_range.start
            * GPU_POSITION_BYTES
    &&& forall|k: int, l: int|
        0 <= k < l < uploads.len() ==> uploads[k].vertex_range.end < uploads[l].vertex_range.start
    &&& forall|i: int|
        0 <= i < n ==> (moved(old, next, i) <==> exists|k: int| 0 <= k < uploads.len() && #[trigger] covers(uploads, k, i))
}

/// What uploading new vertex positions does: where the vertex count differs from the
/// plan's, or fewer new positions remain, every new position is uploaded; otherwise only
/// the runs of moved vertices are.
pub open spec fn upload_plan_outcome(
    old: Seq<GpuPosition>,
    next: Seq<GpuPosition>,
    vertex_count: u32,
    uploads: Seq<PositionUpload>,
    positions: Seq<GpuPosition>,
) -> bool {
    if old.len() != vertex_count {
        positions == next && uploads == full_upload(next.len())
    } else if next.len() < old.len() {
        positions == refreshed_positions(old, next, next.len() as int).take(next.len() as int) && uploads
            == full_upload(next.len())
    } else {
        positions == refreshed_positions(old, next, old.len() as int) && uploads_cover_moves(
            uploads,
            old,
            next,
            old.len() as int,
        )
    }
}

/// Brings the uploaded positions up to date with the snapshot and says which ranges of
/// the position buffer to write.
pub fn gpu_position_upload_plan(
    positions: &mut Vec<GpuPosition>,
    snapshot: &ModelSnapshot,
    render_plan: &RenderPlan,
) -> (r: GpuUploadPlan)
    requires
        scene_positions(snapshot@).len() <= u32::MAX,
    ensures
        upload_plan_outcome(
            old(positions)@,
            scene_positions(snapshot@),
            render_plan.model.vertex_count,
            r.uploads@,
            final(positions)@,
        ),
{
    let next = gpu_scene_positions(snapshot, render_plan);
    let vertex_count = render_plan.model.vertex_count as usize;
    if positions.len() != vertex_count {
        *positions = next;
        let uploads = full_position_upload(positions.as_slice());
        return GpuUploadPlan { uploads };
    }
    let ghost old_positions = positions@;
    let limit = if next.len() < positions.len() {
        next.len()
    } else {
        positions.len()
    };
    let mut uploads: Vec<PositionUpload> = Vec::new();
    let mut dirty_start: Option<usize> = None;
    let mut index: usize = 0;
    while index < limit
        invariant
            limit <= next@.len(),
            limit <= old_positions.len(),
            old_positions.len() == vertex_count,
            vertex_count <= u32::MAX,
            index <= limit,
            positions@ == refreshed_positions(old_positions, next@, index as int),
            forall|k: int| #![trigger uploads@[k]]
                0 <= k < uploads@.len() ==> uploads@[k].vertex_range.start < uploads@[k].vertex_range.end
                    && uploads@[k].byte_offset == uploads@[k].vertex_range.start * GPU_POSITION_BYTES
                    && uploads@[k].vertex_range.end < match dirty_start {
                    Some(s) => s as int,
                    None => index as int,
                },
            forall|k: int, l: int|
                0 <= k < l < uploads@.len() ==> uploads@[k].vertex_range.end < uploads@[l].vertex_range.start,
            forall|i: int|
                0 <= i < match dirty_start {
                    Some(s) => s as int,
                    None => index as int,
                } ==> (moved(old_positions, next@, i) <==> exists|k: int|
                    0 <= k < uploads@.len() && #[trigger] covers(uploads@, k, i)),
            match dirty_start {
                Some(s) => s < index && forall|i: int| s <= i < index ==> moved(old_positions, next@, i),
                None => true,
            },
        decreases limit - index,
    {
        let position = next[index];
        let previous = positions[index];
        let is_dirty = !(f32_bits_equal(previous.position_bits[0], position.position_bits[0])
            && f32_bits_equal(previous.position_bits[1], position.position_bits[1]));
        assert(is_dirty == moved(old_positions, next@, index as int));
        if is_dirty {
            positions.set(index, position);
        }
        assert(positions@ =~= refreshed_positions(old_positions, next@, index + 1));
        match dirty_start {
            None => {
                if is_dirty {
                    dirty_start = Some(index);
                }
            },
            Some(start) => {
                if !is_dirty {
                    let ghost before = uploads@;
                    let upload = PositionUpload {
                        vertex_range: (start as u32)..(index as u32),
                        byte_offset: position_byte_offset(start),
                    };
                    uploads.push(upload);
                    dirty_start = None;
                    proof {
                        assert forall|i: int| 0 <= i < index + 1 implies (moved(old_positions, next@, i) <==> exists|k: int|
                            0 <= k < uploads@.len() && #[trigger] covers(uploads@, k, i)) by {
                            if i < start {
                                if moved(old_positions, next@, i) {
                                    let k = choose|k: int| 0 <= k < before.len() && #[trigger] covers(before, k, i);
                                    assert(covers(uploads@, k, i));
                                }
                                if exists|k: int| 0 <= k < uploads@.len() && #[trigger] covers(uploads@, k, i) {
                                    let k = choose|k: int| 0 <= k < uploads@.len() && #[trigger] covers(uploads@, k, i);
                                    if k < before.len() {
                                        assert(covers(before, k, i));
                                    }
                                }
                            } else if i < index {
                                assert(covers(uploads@, before.len() as int, i));
                            } else {
                                if exists|k: int| 0 <= k < uploads@.len() && #[trigger] covers(uploads@, k, i) {
                                    let k = choose|k: int| 0 <= k < uploads@.len() && #[trigger] covers(uploads@, k, i);
                                    assert(uploads@[k].vertex_range.end <= index);
                                }
                            }
                        }
                    }
                }
            },
        }
        index = index + 1;
    }
    if limit < positions.len() {
        positions.truncate(limit);
        let uploads = full_position_upload(positions.as_slice());
        proof {
            assert(positions@ =~= refreshed_positions(old_positions, next@, next@.len() as int).take(
                next@.len() as int,
            ));
        }
        return GpuUploadPlan { uploads };
    }
    match dirty_start {
        Some(start) => {
            let ghost before = uploads@;
            uploads.push(
                PositionUpload {
                    vertex_range: (start as u32)..(limit as u32),
                    byte_offset: position_byte_offset(start),
                },
            );
            proof {
                assert forall|i: int| 0 <= i < limit implies (moved(old_positions, next@, i) <==> exists|k: int|
                    0 <= k < uploads@.len() && #[trigger] covers(uploads@, k, i)) by {
                    if i < start {
                        if moved(old_positions, next@, i) {
                            let k = choose|k: int| 0 <= k < before.len() && #[trigger] covers(before, k, i);
                            assert(covers(uploads@, k, i));
                        }
                        if exists|k: int| 0 <= k < uploads@.len() && #[trigger] covers(uploads@, k, i) {
                            let k = choose|k: int| 0 <= k < uploads@.len() && #[trigger] covers(uploads@, k, i);
                            if k < before.len() {
                                assert(covers(before, k, i));
                            }
                        }
                    } else {
                        assert(covers(uploads@, before.len() as int, i));
                    }
                }
            }
        },
        None => {},
    }
    GpuUploadPlan { uploads }
}

/// Refreshing toward positions without NaNs leaves no vertex moved.
proof fn lemma_refreshed_settled(old: Seq<GpuPosition>, next: Seq<GpuPosition>)
    requires
        old.len() == next.len(),
        forall|i: int|
            0 <= i < next.len() ==> !is_nan_bits(#[trigger] next[i].position_bits[0]) && !is_nan_bits(
                next[i].position_bits[1],
            ),
    ensures
        forall|i: int|
            0 <= i < old.len() ==> positions_equal(
                #[trigger] refreshed_positions(old, next, old.len() as int)[i],
                next[i],
            ),
{
}

/// Uploads that cover exactly the moved vertices of settled positions are none.
proof fn lemma_no_moves_no_uploads(
    uploads: Seq<PositionUpload>,
    old: Seq<GpuPosition>,
    next: Seq<GpuPosition>,
    n: int,
)
    requires
        uploads_cover_moves(uploads, old, next, n),
        forall|i: int| 0 <= i < n ==> !moved(old, next, i),
    ensures
        uploads.len() == 0,
{
    if uploads.len() > 0 {
        let i = uploads[0].vertex_range.start as int;
        assert(covers(uploads, 0, i));
        assert(moved(old, next, i));
    }
}

/// Uploading a snapshot's positions settles them: where the snapshot has as many
/// vertices as the plan and no NaN position, the uploaded positions then equal the
/// snapshot's, and uploading the same snapshot again writes nothing and changes nothing.
pub proof fn law_second_upload_writes_nothing(
    old: Seq<GpuPosition>,
    next: Seq<GpuPosition>,
    vertex_count: u32,
    first_uploads: Seq<PositionUpload>,
    first: Seq<GpuPosition>,
    second_uploads: Seq<PositionUpload>,
    second: Seq<GpuPosition>,
)
    requires
        next.len() == vertex_count,
        forall|i: int|
            0 <= i < next.len() ==> !is_nan_bits(#[trigger] next[i].position_bits[0]) && !is_nan_bits(
                next[i].position_bits[1],
            ),
        upload_plan_outcome(old, next, vertex_count, first_uploads, first),
        upload_plan_outcome(first, next, vertex_count, second_uploads, second),
    ensures
        first.len() == next.len(),
        forall|i: int| 0 <= i < next.len() ==> positions_equal(#[trigger] first[i], next[i]),
        second_uploads.len() == 0,
        second == first,
{
    if old.len() == vertex_count {
        lemma_refreshed_settled(old, next);
        assert(first == refreshed_positions(old, next, old.len() as int));
    } else {
        assert(first == next);
        assert forall|i: int| 0 <= i < next.len() implies positions_equal(#[trigger] first[i], next[i]) by {
            assert(!is_nan_bits(next[i].position_bits[0]));
        }
    }
    assert forall|i: int| 0 <= i < first.len() implies !moved(first, next, i) by {
        assert(positions_equal(first[i], next[i]));
    }
    lemma_no_moves_no_uploads(second_uploads, first, next, first.len() as int);
    assert(second =~= first);
}

/// Folding values in turn is folding their concatenation.
pub proof fn lemma_mixed_all_concat(signature: u64, a: Seq<u64>, b: Seq<u64>)
    ensures
        mixed_all(signature, a + b) == mixed_all(mixed_all(signature, a), b),
    decreases b.len(),
{
    if b.len() == 0 {
        assert(a + b =~= a);
    } else {
        assert((a + b).drop_last() =~= a + b.drop_last());
        lemma_mixed_all_concat(signature, a, b.drop_last());
    }
}

/// The values that a string adds to a signature: its UTF-8 length, then its bytes.
pub open spec fn str_values(text: Seq<char>) -> Seq<u64> {
    seq![encode_utf8(text).len() as u64] + encode_utf8(text).map_values(|b: u8| b as u64)
}

/// The values that the static GPU data of a drawable adds to the scene signature: a
/// marker, its id, its vertex count, each texture coordinate, its index count and each
/// index. Vertex positions are left out: they change from frame to frame.
pub open spec fn drawable_topology_values(d: DrawableView) -> Seq<u64> {
    seq![1u64] + str_values(d.id) + seq![d.vertices.len() as u64] + Seq::new(
        2 * d.vertices.len(),
        |k: int| d.vertices[k / 2].uv_bits[k % 2] as u64,
    ) + seq![d.indices.len() as u64] + d.indices.map_values(|x: u16| x as u64)
}

/// Signature values of the drawables with geometry among the first `n`.
pub open spec fn topology_values_upto(ds: Seq<DrawableView>, n: nat) -> Seq<u64>
    decreases n,
{
    if n == 0 {
        Seq::empty()
    } else {
        topology_values_upto(ds, (n - 1) as nat) + if has_geometry(ds[n - 1]) {
            drawable_topology_values(ds[n - 1])
        } else {
            Seq::empty()
        }
    }
}

/// Seed of scene signatures.
pub const TOPOLOGY_SEED: u64 = 0xcbf2_9ce4_8422_2325;

/// The signature of a scene's static GPU data.
pub open spec fn scene_topology_of(s: SnapshotView) -> u64 {
    mixed_all(TOPOLOGY_SEED, topology_values_upto(s.drawables, s.drawables.len()))
}

fn mix_drawable_topology(signature: &mut u64, drawable: &crate::model::Drawable)
    requires
        drawable@.vertices.len() < u64::MAX / 2,
    ensures
        *final(signature) == mixed_all(*old(signature), drawable_topology_values(drawable@)),
{
    let ghost start = *signature;
    let ghost d = drawable@;
    let ghost uvs = Seq::new(2 * d.vertices.len(), |k: int| d.vertices[k / 2].uv_bits[k % 2] as u64);
    mix_u64(signature, 1);
    let ghost after_marker = *signature;
    let id = drawable.id.as_str();
    mix_str(signature, id);
    let ghost after_id = seq![1u64] + str_values(d.id);
    proof {
        let bytes = encode_utf8(d.id);
        let len_value = bytes.len() as u64;
        let head = seq![1u64].push(len_value);
        let tail = bytes.map_values(|b: u8| b as u64);
        assert(id.spec_bytes() == bytes);
        assert(seq![1u64].drop_last() =~= Seq::<u64>::empty());
        assert(mixed_all(start, Seq::<u64>::empty()) == start);
        assert(mixed_all(start, seq![1u64]) == mixed(mixed_all(start, seq![1u64].drop_last()), seq![1u64].last()));
        assert(mixed_all(start, seq![1u64]) == mixed(start, 1u64));
        assert(head.drop_last() =~= seq![1u64]);
        assert(head.last() == len_value);
        assert(mixed_all(start, head) == mixed(after_marker, len_value));
        lemma_mixed_all_concat(start, head, tail);
        assert(after_id =~= head + tail);
    }
    assert(*signature == mixed_all(start, after_id));
    mix_u64(signature, drawable.vertices.len() as u64);
    let ghost after_count = after_id + seq![d.vertices.len() as u64];
    assert(after_count.drop_last() =~= after_id);
    let mut j: usize = 0;
    while j < drawable.vertices.len()
        invariant
            j <= drawable.vertices@.len(),
            d == drawable@,
            d.vertices.len() < u64::MAX / 2,
            uvs == Seq::new(2 * d.vertices.len(), |k: int| d.vertices[k / 2].uv_bits[k % 2] as u64),
            *signature == mixed_all(start, after_count + uvs.take(2 * j)),
        decreases drawable.vertices@.len() - j,
    {
        let bits = drawable.vertices[j].uv_bits;
        let ghost before = *signature;
        let ghost x0 = after_count + uvs.take(2 * j);
        let ghost x1 = after_count + uvs.take(2 * j + 1);
        let ghost x2 = after_count + uvs.take(2 * j + 2);
        proof {
            assert(uvs[2 * j] == bits[0] as u64);
            assert(uvs[2 * j + 1] == bits[1] as u64);
            assert(x1.drop_last() =~= x0);
            assert(x1.last() == bits[0] as u64);
            assert(x2.drop_last() =~= x1);
            assert(x2.last() == bits[1] as u64);
            assert(mixed_all(start, x1) == mixed(mixed_all(start, x0), bits[0] as u64));
            assert(mixed_all(start, x2) == mixed(mixed_all(start, x1), bits[1] as u64));
        }
        mix_u64(signature, bits[0] as u64);
        mix_u64(signature, bits[1] as u64);
        j = j + 1;
    }
    assert(uvs.take(2 * j) =~= uvs);
    let ghost after_uvs = after_count + uvs;
    mix_u64(signature, drawable.indices.len() as u64);
    let ghost after_index_count = after_uvs + seq![d.indices.len() as u64];
    assert(after_index_count.drop_last() =~= after_uvs);
    let ghost idx = d.indices.map_values(|x: u16| x as u64);
    let mut k: usize = 0;
    while k < drawable.indices.len()
        invariant
            k <= drawable.indices@.len(),
            d == drawable@,
            idx == d.indices.map_values(|x: u16| x as u64),
            *signature == mixed_all(start, after_index_count + idx.take(k as int)),
        decreases drawable.indices@.len() - k,
    {
        mix_u64(signature, drawable.indices[k] as u64);
        proof {
            assert((after_index_count + idx.take(k + 1)).drop_last() =~= after_index_count + idx.take(k as int));
        }
        k = k + 1;
    }
    proof {
        assert(idx.take(k as int) =~= idx);
        assert(after_index_count + idx =~= drawable_topology_values(d));
    }
}

/// The signature of a scene's static GPU data: ids, vertex counts, texture coordinates
/// and indices of the drawables with geometry.
pub fn scene_topology(snapshot: &ModelSnapshot) -> (r: u64)
    requires
        forall|i: int| 0 <= i < snapshot@.drawables.len() ==> #[trigger] snapshot@.drawables[i].vertices.len() < u64::MAX / 2,
    ensures
        r == scene_topology_of(snapshot@),
{
    let ghost ds = snapshot@.drawables;
    let mut signature: u64 = TOPOLOGY_SEED;
    let mut i: usize = 0;
    while i < snapshot.drawables.len()
        invariant
            i <= snapshot.drawables@.len(),
            ds == snapshot@.drawables,
            ds.len() == snapshot.drawables@.len(),
            forall|i: int| 0 <= i < ds.len() ==> #[trigger] ds[i].vertices.len() < u64::MAX / 2,
            signature == mixed_all(TOPOLOGY_SEED, topology_values_upto(ds, i as nat)),
        decreases snapshot.drawables@.len() - i,
    {
        let drawable = &snapshot.drawables[i];
        assert(ds[i as int] == drawable@);
        if drawable.vertices.len() > 0 && drawable.indices.len() > 0 {
            let ghost before = signature;
            mix_drawable_topology(&mut signature, drawable);
            proof {
                lemma_mixed_all_concat(TOPOLOGY_SEED, topology_values_upto(ds, i as nat), drawable_topology_values(drawable@));
            }
        } else {
            assert(topology_values_upto(ds, (i + 1) as nat) =~= topology_values_upto(ds, i as nat));
        }
        i = i + 1;
    }
    signature
}

/// Moving vertices leaves the scene signature as it was: two snapshots whose drawables
/// agree in everything but vertex positions have the same signature.
pub proof fn law_topology_ignores_positions(a: SnapshotView, b: SnapshotView)
    requires
        a.drawables.len() == b.drawables.len(),
        forall|i: int| 0 <= i < a.drawables.len() ==> {
            let x = #[trigger] a.drawables[i];
            let y = b.drawables[i];
            &&& x.id == y.id
            &&& x.indices == y.indices
            &&& x.vertices.len() == y.vertices.len()
            &&& forall|j: int| 0 <= j < x.vertices.len() ==> x.vertices[j].uv_bits == y.vertices[j].uv_bits
        },
    ensures
        scene_topology_of(a) == scene_topology_of(b),
{
    lemma_topology_values_agree(a.drawables, b.drawables, a.drawables.len());
}

proof fn lemma_topology_values_agree(a: Seq<DrawableView>, b: Seq<DrawableView>, n: nat)
    requires
        n <= a.len(),
        a.len() == b.len(),
        forall|i: int| 0 <= i < a.len() ==> {
            let x = #[trigger] a[i];
            let y = b[i];
            &&& x.id == y.id
            &&& x.indices == y.indices
            &&& x.vertices.len() == y.vertices.len()
            &&& forall|j: int| 0 <= j < x.vertices.len() ==> x.vertices[j].uv_bits == y.vertices[j].uv_bits
        },
    ensures
        topology_values_upto(a, n) == topology_values_upto(b, n),
    decreases n,
{
    if n > 0 {
        lemma_topology_values_agree(a, b, (n - 1) as nat);
        let x = a[n - 1];
        let y = b[n - 1];
        assert(Seq::new(2 * x.vertices.len(), |k: int| x.vertices[k / 2].uv_bits[k % 2] as u64) =~= Seq::new(
            2 * y.vertices.len(),
            |k: int| y.vertices[k / 2].uv_bits[k % 2] as u64,
        ));
        assert(drawable_topology_values(x) == drawable_topology_values(y));
    }
}

/// Width, height and byte length of each texture.
pub open spec fn texture_topology_of(s: SnapshotView) -> Seq<(u32, u32, usize)> {
    Seq::new(s.textures.len(), |i: int| (s.textures[i].width, s.textures[i].height, s.textures[i].rgba.len() as usize))
}

/// The shape of the snapshot's textures.
pub fn texture_topology(snapshot: &ModelSnapshot) -> (r: Vec<(u32, u32, usize)>)
    ensures
        r@ == texture_topology_of(snapshot@),
{
    let mut shapes: Vec<(u32, u32, usize)> = Vec::new();
    let mut i: usize = 0;
    while i < snapshot.textures.len()
        invariant
            i <= snapshot.textures@.len(),
            snapshot@.textures.len() == snapshot.textures@.len(),
            shapes@ == texture_topology_of(snapshot@).take(i as int),
        decreases snapshot.textures@.len() - i,
    {
        let texture: &TextureAsset = &snapshot.textures[i];
        assert(snapshot@.textures[i as int] == texture@);
        shapes.push((texture.width, texture.height, texture.rgba.len()));
        assert(shapes@ =~= texture_topology_of(snapshot@).take(i + 1));
        i = i + 1;
    }
    assert(texture_topology_of(snapshot@).take(i as int) =~= texture_topology_of(snapshot@));
    shapes
}

/// Whether `bytes` hold the indices two bytes each, low byte first.
pub open spec fn little_endian_bytes(indices: Seq<u16>, bytes: Seq<u8>) -> bool {
    &&& bytes.len() == 2 * indices.len()
    &&& forall|i: int| 0 <= i < indices.len() ==> bytes[2 * i] + 256 * bytes[2 * i + 1] == #[trigger] indices[i]
}

/// Whether `bytes` hold the indices two bytes each, high byte first.
pub open spec fn big_endian_bytes(indices: Seq<u16>, bytes: Seq<u8>) -> bool {
    &&& bytes.len() == 2 * indices.len()
    &&& forall|i: int| 0 <= i < indices.len() ==> 256 * bytes[2 * i] + bytes[2 * i + 1] == #[trigger] indices[i]
}

/// `bytemuck::cast_slice` from `u16` to `u8`, which views the indices' memory as bytes:
/// two per index, in the machine's byte order (which of the two orders is left open).
#[verifier::external_body]
fn index_bytes(indices: &[u16]) -> (r: &[u8])
    ensures
        little_endian_bytes(indices@, r@) || big_endian_bytes(indices@, r@),
{
    bytemuck::cast_slice(indices)
}

/// `wgpu::COPY_BUFFER_ALIGNMENT`, which wgpu defines as 4: buffer copies move whole
/// multiples of it.
#[verifier::external_body]
fn copy_buffer_alignment() -> (r: u64)
    ensures
        r == 4,
{
    wgpu::COPY_BUFFER_ALIGNMENT
}

/// The bytes of an index buffer: the indices' bytes, zero-padded to a whole number of
/// copy units.
pub fn padded_index_bytes(indices: &[u16]) -> (r: Vec<u8>)
    requires
        2 * indices@.len() + 4 <= usize::MAX,
    ensures
        r@.len() == (2 * indices@.len() + 3) / 4 * 4,
        little_endian_bytes(indices@, r@.take(2 * indices@.len() as int)) || big_endian_bytes(
            indices@,
            r@.take(2 * indices@.len() as int),
        ),
        forall|i: int| 2 * indices@.len() <= i < r@.len() ==> r@[i] == 0,
{
    let bytes = index_bytes(indices);
    let alignment = copy_buffer_alignment() as usize;
    let len = bytes.len();
    let aligned_len = if len % alignment == 0 {
        len
    } else {
        len + (alignment - len % alignment)
    };
    assert(aligned_len == (len + 3) / 4 * 4) by (nonlinear_arith)
        requires
            alignment == 4,
            aligned_len == if len % alignment == 0 { len as int } else { len + (alignment - len % alignment) },
    ;
    let mut padded: Vec<u8> = Vec::new();
    let mut i: usize = 0;
    while i < len
        invariant
            i <= len,
            len == bytes@.len(),
            padded@ == bytes@.take(i as int),
        decreases len - i,
    {
        padded.push(bytes[i]);
        assert(padded@ =~= bytes@.take(i + 1));
        i = i + 1;
    }
    assert(bytes@.take(len as int) =~= bytes@);
    while padded.len() < aligned_len
        invariant
            len <= padded@.len() <= aligned_len,
            padded@.take(len as int) == bytes@,
            forall|k: int| len <= k < padded@.len() ==> padded@[k] == 0,
        decreases aligned_len - padded@.len(),
    {
        padded.push(0);
        assert(padded@.take(len as int) =~= bytes@);
    }
    padded
}

} // verus!
