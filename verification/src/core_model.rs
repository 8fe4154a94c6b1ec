use crate::layout::{opacity_exceeds_epsilon, DRAWABLE_OPACITY_EPSILON_BITS, F32_INFINITY_BITS};
use crate::model::{
    blend_mode_for_value, ArtMeshInfo, ArtMeshView, BlendMode, ClippingInfo, ClippingView,
    DrawableId,
};
use crate::runtime::{ParameterId, PartId};
use crate::text::str_equal;
use vstd::prelude::*;

verus! {

/// Constant flag of the Cubism core: the drawable blends additively.
pub const CSM_BLEND_ADDITIVE: u8 = 1;

/// Constant flag of the Cubism core: the drawable blends multiplicatively.
pub const CSM_BLEND_MULTIPLICATIVE: u8 = 2;

/// The blend mode that a drawable's constant flags give it.
pub open spec fn blend_for_flags(flags: u8) -> BlendMode {
    if flags & CSM_BLEND_ADDITIVE != 0 {
        BlendMode::Additive
    } else if flags & CSM_BLEND_MULTIPLICATIVE != 0 {
        BlendMode::Multiplicative
    } else {
        BlendMode::Normal
    }
}

/// The blend mode that a drawable's constant flags give it: additive wins over
/// multiplicative, and neither flag means normal.
pub fn blend_mode_from_constant_flags(flags: u8) -> (r: BlendMode)
    ensures
        r == blend_for_flags(flags),
{
    if flags & CSM_BLEND_ADDITIVE != 0 {
        BlendMode::Additive
    } else if flags & CSM_BLEND_MULTIPLICATIVE != 0 {
        BlendMode::Multiplicative
    } else {
        BlendMode::Normal
    }
}

/// A drawable's blend mode: the core's packed blend value where the core reports
/// blend values, else what its constant flags say.
pub fn drawable_blend_mode(blend_value: Option<i32>, flags: u8) -> (r: BlendMode)
    ensures
        r == match blend_value {
            Some(value) => blend_mode_for_value(value),
            None => blend_for_flags(flags),
        },
{
    match blend_value {
        Some(value) => BlendMode::from_cubism_blend_mode(value),
        None => blend_mode_from_constant_flags(flags),
    }
}

/// The ids of the core's drawables, as text; a drawable without an id has none.
pub open spec fn slot_ids(ids: Seq<Option<DrawableId>>) -> Seq<Option<Seq<char>>> {
    ids.map_values(
        |id: Option<DrawableId>|
            match id {
                Some(id) => Some(id@),
                None => None,
            },
    )
}

/// A raw mask index that names a drawable with an id.
pub open spec fn names_slot(ids: Seq<Option<Seq<char>>>, m: i32) -> bool {
    0 <= m < ids.len() && ids[m as int] is Some
}

/// The raw mask indices that name drawables with ids, in order.
pub open spec fn kept_masks(ids: Seq<Option<Seq<char>>>, raw: Seq<i32>) -> Seq<usize>
    decreases raw.len(),
{
    if raw.len() == 0 {
        Seq::empty()
    } else {
        let p = kept_masks(ids, raw.drop_last());
        if names_slot(ids, raw.last()) {
            p.push(raw.last() as usize)
        } else {
            p
        }
    }
}

/// The clip of a drawable whose masks are `kept`: none without masks, else the masks'
/// ids, not inverted.
pub open spec fn clip_of_masks(ids: Seq<Option<Seq<char>>>, kept: Seq<usize>) -> Option<ClippingView> {
    if kept.len() == 0 {
        None
    } else {
        Some(
            ClippingView {
                drawable_ids: kept.map_values(|m: usize| ids[m as int]->0),
                inverted: false,
            },
        )
    }
}

proof fn lemma_kept_masks(ids: Seq<Option<Seq<char>>>, raw: Seq<i32>)
    ensures
        forall|i: int|
            0 <= i < kept_masks(ids, raw).len() ==> (#[trigger] kept_masks(ids, raw)[i]) < ids.len()
                && ids[kept_masks(ids, raw)[i] as int] is Some,
        kept_masks(ids, raw).len() <= raw.len(),
    decreases raw.len(),
{
    if raw.len() > 0 {
        lemma_kept_masks(ids, raw.drop_last());
        let p = kept_masks(ids, raw.drop_last());
        let q = kept_masks(ids, raw);
        if names_slot(ids, raw.last()) {
            assert forall|i: int| 0 <= i < q.len() implies (#[trigger] q[i]) < ids.len()
                && ids[q[i] as int] is Some by {
                if i < p.len() {
                    assert(q[i] == p[i]);
                }
            }
        }
    }
}

/// Resolves a drawable's raw mask indices as the core reports them: indices that are
/// negative, out of range or name a drawable without an id are dropped; the rest give
/// the mask indices and, when there is any, the drawable's clip.
pub fn resolve_masks(raw: &[i32], ids: &[Option<DrawableId>]) -> (r: (Vec<usize>, Option<ClippingInfo>))
    ensures
        r.0@ == kept_masks(slot_ids(ids@), raw@),
        crate::model::clipping_view(r.1) == clip_of_masks(slot_ids(ids@), r.0@),
{
    let ghost slots = slot_ids(ids@);
    let mut kept: Vec<usize> = Vec::new();
    let mut mask_ids: Vec<DrawableId> = Vec::new();
    let mut k: usize = 0;
    while k < raw.len()
        invariant
            k <= raw@.len(),
            slots == slot_ids(ids@),
            kept@ == kept_masks(slots, raw@.subrange(0, k as int)),
            mask_ids@.len() == kept@.len(),
            forall|i: int| 0 <= i < kept@.len() ==> kept@[i] < ids@.len() && slots[kept@[i] as int] is Some
                && mask_ids@[i]@ == slots[kept@[i] as int]->0,
        decreases raw@.len() - k,
    {
        let m = raw[k];
        assert(raw@.subrange(0, k + 1).drop_last() =~= raw@.subrange(0, k as int));
        assert(raw@.subrange(0, k + 1).last() == m);
        if 0 <= m && (m as usize) < ids.len() {
            match &ids[m as usize] {
                Some(id) => {
                    assert(slots[m as int] == Some(id@));
                    kept.push(m as usize);
                    mask_ids.push(id.clone());
                },
                None => {
                    assert(slots[m as int] is None);
                },
            }
        }
        k = k + 1;
    }
    assert(raw@.subrange(0, raw@.len() as int) =~= raw@);
    let clipping = if kept.len() == 0 {
        None
    } else {
        Some(ClippingInfo { drawable_ids: mask_ids, inverted: false })
    };
    proof {
        if kept@.len() > 0 {
            assert(crate::model::ids_view(mask_ids@) =~= kept@.map_values(|m: usize| slots[m as int]->0));
        }
    }
    (kept, clipping)
}

/// What the core reports of one drawable in a frame: where it sits among the core's
/// drawables, whether it is visible, its opacity (as single-precision bits, already
/// scaled and clamped), and the drawables that mask it.
pub struct DrawableFrameState {
    pub source_index: usize,
    pub visible: bool,
    pub opacity_bits: u32,
    pub mask_indices: Vec<usize>,
}

pub struct FrameStateView {
    pub source_index: usize,
    pub visible: bool,
    pub opacity_bits: u32,
    pub mask_indices: Seq<usize>,
}

impl View for DrawableFrameState {
    type V = FrameStateView;

    open spec fn view(&self) -> FrameStateView {
        FrameStateView {
            source_index: self.source_index,
            visible: self.visible,
            opacity_bits: self.opacity_bits,
            mask_indices: self.mask_indices@,
        }
    }
}

pub open spec fn frame_states_view(v: Seq<DrawableFrameState>) -> Seq<FrameStateView> {
    v.map_values(|s: DrawableFrameState| s@)
}

/// The drawable shows this frame: visible and above the opacity threshold.
pub open spec fn frame_drawn(s: FrameStateView) -> bool {
    s.visible && opacity_exceeds_epsilon(s.opacity_bits)
}

/// The core's drawable `i` keeps its geometry this frame: it shows, or masks one
/// that shows.
pub open spec fn retained_in(states: Seq<FrameStateView>, i: int) -> bool {
    exists|k: int|
        0 <= k < states.len() && frame_drawn(#[trigger] states[k]) && (states[k].source_index == i
            || states[k].mask_indices.contains(i as usize))
}

/// Which of the core's `count` drawables keep their geometry this frame; an error
/// when some state names a drawable the core no longer has.
pub fn retained_drawables(count: usize, states: &[DrawableFrameState]) -> (r: Result<
    Vec<bool>,
    String,
>)
    ensures
        r is Err <==> exists|k: int| 0 <= k < states@.len() && states@[k].source_index >= count,
        r matches Err(e) ==> e@ == "live2d_model_topology_changed"@,
        r matches Ok(v) ==> v@.len() == count && forall|i: int|
            0 <= i < count ==> v@[i] == retained_in(frame_states_view(states@), i),
{
    let ghost sv = frame_states_view(states@);
    let mut t: usize = 0;
    while t < states.len()
        invariant
            t <= states@.len(),
            forall|k: int| 0 <= k < t ==> states@[k].source_index < count,
        decreases states@.len() - t,
    {
        if states[t].source_index >= count {
            return Err("live2d_model_topology_changed".to_string());
        }
        t = t + 1;
    }
    let mut retained: Vec<bool> = Vec::new();
    let mut i: usize = 0;
    while i < count
        invariant
            i <= count,
            retained@.len() == i,
            forall|j: int| 0 <= j < i ==> !retained@[j],
        decreases count - i,
    {
        retained.push(false);
        i = i + 1;
    }
    let mut k: usize = 0;
    while k < states.len()
        invariant
            k <= states@.len(),
            sv == frame_states_view(states@),
            retained@.len() == count,
            forall|q: int| 0 <= q < states@.len() ==> states@[q].source_index < count,
            forall|j: int|
                0 <= j < count ==> retained@[j] == exists|q: int|
                    0 <= q < k && frame_drawn(#[trigger] sv[q]) && (sv[q].source_index == j
                        || sv[q].mask_indices.contains(j as usize)),
        decreases states@.len() - k,
    {
        let state = &states[k];
        assert(sv[k as int] == state@);
        let ghost before = retained@;
        if state.visible && DRAWABLE_OPACITY_EPSILON_BITS < state.opacity_bits && state.opacity_bits
            <= F32_INFINITY_BITS {
            retained.set(state.source_index, true);
            let mut t: usize = 0;
            while t < state.mask_indices.len()
                invariant
                    t <= state.mask_indices@.len(),
                    retained@.len() == count,
                    before.len() == count,
                    state.source_index < count,
                    retained@[state.source_index as int],
                    forall|j: int|
                        0 <= j < count ==> retained@[j] == (before[j] || j == state.source_index
                            || state.mask_indices@.subrange(0, t as int).contains(j as usize)),
                decreases state.mask_indices@.len() - t,
            {
                let m = state.mask_indices[t];
                let ghost r0 = retained@;
                assert(forall|j: int|
                    0 <= j < count ==> r0[j] == (before[j] || j == state.source_index
                        || state.mask_indices@.subrange(0, t as int).contains(j as usize)));
                if m < retained.len() {
                    retained.set(m, true);
                }
                proof {
                    assert forall|j: int| 0 <= j < count implies retained@[j] == (before[j] || j
                        == state.source_index || state.mask_indices@.subrange(0, t + 1).contains(
                        j as usize,
                    )) by {
                        let next = state.mask_indices@.subrange(0, t + 1);
                        let prev = state.mask_indices@.subrange(0, t as int);
                        assert(next == prev.push(m));
                        assert(retained@[j] == (r0[j] || j == m as int));
                        assert(r0[j] == (before[j] || j == state.source_index || prev.contains(
                            j as usize,
                        )));
                        if j == m as int {
                            assert(next[t as int] == m);
                        }
                        if prev.contains(j as usize) {
                            let w = choose|w: int| 0 <= w < prev.len() && prev[w] == j as usize;
                            assert(next[w] == j as usize);
                        }
                        if next.contains(j as usize) && !prev.contains(j as usize) {
                            let w = choose|w: int| 0 <= w < next.len() && next[w] == j as usize;
                            if w < prev.len() {
                                assert(prev[w] == j as usize);
                            }
                        }
                    }
                }
                t = t + 1;
            }
            proof {
                assert(state.mask_indices@.subrange(0, state.mask_indices@.len() as int)
                    =~= state.mask_indices@);
                assert(frame_drawn(sv[k as int]));
                assert forall|j: int| 0 <= j < count implies retained@[j] == exists|q: int|
                    0 <= q < k + 1 && frame_drawn(#[trigger] sv[q]) && (sv[q].source_index == j
                        || sv[q].mask_indices.contains(j as usize)) by {
                    assert(retained@[j] == (before[j] || j == state.source_index
                        || state.mask_indices@.contains(j as usize)));
                    if before[j] {
                        let q = choose|q: int|
                            0 <= q < k && frame_drawn(#[trigger] sv[q]) && (sv[q].source_index == j
                                || sv[q].mask_indices.contains(j as usize));
                        assert(frame_drawn(sv[q]));
                    } else if j == state.source_index || state.mask_indices@.contains(j as usize) {
                        assert(sv[k as int].source_index == j || sv[k as int].mask_indices.contains(
                            j as usize,
                        ));
                    }
                    if exists|q: int|
                        0 <= q < k + 1 && frame_drawn(#[trigger] sv[q]) && (sv[q].source_index == j
                            || sv[q].mask_indices.contains(j as usize)) {
                        let q = choose|q: int|
                            0 <= q < k + 1 && frame_drawn(#[trigger] sv[q]) && (sv[q].source_index
                                == j || sv[q].mask_indices.contains(j as usize));
                        if q < k {
                            assert(before[j]);
                        }
                    }
                }
            }
        } else {
            proof {
                assert(!frame_drawn(sv[k as int]));
                assert forall|j: int| 0 <= j < count implies retained@[j] == exists|q: int|
                    0 <= q < k + 1 && frame_drawn(#[trigger] sv[q]) && (sv[q].source_index == j
                        || sv[q].mask_indices.contains(j as usize)) by {
                    if exists|q: int|
                        0 <= q < k + 1 && frame_drawn(#[trigger] sv[q]) && (sv[q].source_index == j
                            || sv[q].mask_indices.contains(j as usize)) {
                        let q = choose|q: int|
                            0 <= q < k + 1 && frame_drawn(#[trigger] sv[q]) && (sv[q].source_index
                                == j || sv[q].mask_indices.contains(j as usize));
                        assert(q < k);
                    }
                }
            }
        }
        k = k + 1;
    }
    Ok(retained)
}

/// Position of the last of the first `n` ids that equals `id`, as a table keyed by id
/// (a later entry replacing an earlier one) finds it.
pub open spec fn last_index_of(ids: Seq<Seq<char>>, id: Seq<char>, n: nat) -> Option<usize>
    decreases n,
{
    if n == 0 {
        None
    } else if ids[n - 1] == id {
        Some((n - 1) as usize)
    } else {
        last_index_of(ids, id, (n - 1) as nat)
    }
}

/// The positions of the writes' ids among `ids`, each the last position with that id;
/// `None` when some write names no id.
pub open spec fn write_positions(ids: Seq<Seq<char>>, writes: Seq<Seq<char>>) -> Option<Seq<usize>> {
    if forall|w: int| 0 <= w < writes.len() ==> (#[trigger] last_index_of(ids, writes[w], ids.len())) is Some {
        Some(Seq::new(writes.len(), |w: int| last_index_of(ids, writes[w], ids.len())->0))
    } else {
        None
    }
}

fn last_index_exec(ids: &Vec<String>, id: &str) -> (r: Option<usize>)
    ensures
        r == last_index_of(ids@.map_values(|s: String| s@), id@, ids@.len()),
{
    let ghost texts = ids@.map_values(|s: String| s@);
    let mut n: usize = ids.len();
    while n > 0
        invariant
            n <= ids@.len(),
            texts == ids@.map_values(|s: String| s@),
            last_index_of(texts, id@, ids@.len()) == last_index_of(texts, id@, n as nat),
        decreases n,
    {
        if str_equal(ids[n - 1].as_str(), id) {
            assert(texts[n - 1] == id@);
            return Some(n - 1);
        }
        assert(texts[n - 1] != id@);
        n = n - 1;
    }
    None
}

fn write_indices(ids: &Vec<String>, writes: &[String]) -> (r: Option<Vec<usize>>)
    ensures
        match r {
            Some(v) => write_positions(ids@.map_values(|s: String| s@), writes@.map_values(|s: String| s@)) == Some(v@),
            None => write_positions(ids@.map_values(|s: String| s@), writes@.map_values(|s: String| s@)) is None,
        },
{
    let ghost texts = ids@.map_values(|s: String| s@);
    let ghost wanted = writes@.map_values(|s: String| s@);
    let mut out: Vec<usize> = Vec::new();
    let mut w: usize = 0;
    while w < writes.len()
        invariant
            w <= writes@.len(),
            texts == ids@.map_values(|s: String| s@),
            wanted == writes@.map_values(|s: String| s@),
            out@.len() == w,
            forall|q: int| 0 <= q < w ==> last_index_of(texts, wanted[q], texts.len()) == Some(out@[q]),
        decreases writes@.len() - w,
    {
        match last_index_exec(ids, writes[w].as_str()) {
            Some(index) => {
                out.push(index);
            },
            None => {
                assert(last_index_of(texts, wanted[w as int], texts.len()) is None);
                return None;
            },
        }
        w = w + 1;
    }
    assert(Seq::new(wanted.len(), |q: int| last_index_of(texts, wanted[q], texts.len())->0) =~= out@);
    Some(out)
}

/// The parameter each write sets, by id: the position of the last parameter with that
/// id; an error when some write names no parameter.
pub fn checked_parameter_write_indices(parameters: &[ParameterId], writes: &[String]) -> (r: Result<
    Vec<usize>,
    String,
>)
    ensures
        match write_positions(parameters@.map_values(|p: ParameterId| p@), writes@.map_values(|s: String| s@)) {
            Some(positions) => r matches Ok(v) && v@ == positions,
            None => r matches Err(e) && e@ == "live2d_parameter_not_found"@,
        },
{
    let mut ids: Vec<String> = Vec::new();
    let mut k: usize = 0;
    while k < parameters.len()
        invariant
            k <= parameters@.len(),
            ids@.len() == k,
            ids@.map_values(|s: String| s@) == parameters@.subrange(0, k as int).map_values(|p: ParameterId| p@),
        decreases parameters@.len() - k,
    {
        let ghost prev = ids@;
        let name = parameters[k].0.clone();
        assert(name@ == parameters@[k as int]@);
        ids.push(name);
        assert forall|i: int| 0 <= i < k + 1 implies ids@[i]@ == parameters@[i]@ by {
            if i < k {
                assert(ids@[i] == prev[i]);
                assert(prev.map_values(|s: String| s@)[i] == parameters@.subrange(0, k as int).map_values(|p: ParameterId| p@)[i]);
            }
        }
        assert(ids@.map_values(|s: String| s@) =~= parameters@.subrange(0, k + 1).map_values(|p: ParameterId| p@));
        k = k + 1;
    }
    assert(parameters@.subrange(0, parameters@.len() as int) =~= parameters@);
    match write_indices(&ids, writes) {
        Some(v) => Ok(v),
        None => Err("live2d_parameter_not_found".to_string()),
    }
}

/// The part each opacity write sets, by id: the position of the last part with that id;
/// an error when some write names no part.
pub fn checked_part_write_indices(parts: &[PartId], writes: &[String]) -> (r: Result<Vec<usize>, String>)
    ensures
        match write_positions(parts@.map_values(|p: PartId| p@), writes@.map_values(|s: String| s@)) {
            Some(positions) => r matches Ok(v) && v@ == positions,
            None => r matches Err(e) && e@ == "live2d_part_not_found"@,
        },
{
    let mut ids: Vec<String> = Vec::new();
    let mut k: usize = 0;
    while k < parts.len()
        invariant
            k <= parts@.len(),
            ids@.len() == k,
            ids@.map_values(|s: String| s@) == parts@.subrange(0, k as int).map_values(|p: PartId| p@),
        decreases parts@.len() - k,
    {
        let ghost prev = ids@;
        let name = parts[k].0.clone();
        assert(name@ == parts@[k as int]@);
        ids.push(name);
        assert forall|i: int| 0 <= i < k + 1 implies ids@[i]@ == parts@[i]@ by {
            if i < k {
                assert(ids@[i] == prev[i]);
                assert(prev.map_values(|s: String| s@)[i] == parts@.subrange(0, k as int).map_values(|p: PartId| p@)[i]);
            }
        }
        assert(ids@.map_values(|s: String| s@) =~= parts@.subrange(0, k + 1).map_values(|p: PartId| p@));
        k = k + 1;
    }
    assert(parts@.subrange(0, parts@.len() as int) =~= parts@);
    match write_indices(&ids, writes) {
        Some(v) => Ok(v),
        None => Err("live2d_part_not_found".to_string()),
    }
}

/// The art meshes of the core's drawables that have ids, in the core's order: each
/// named by its id, at its position among the core's drawables, with this mask type.
pub open spec fn art_meshes_of(
    ids: Seq<Option<Seq<char>>>,
    mask_type: spec_fn(int) -> Seq<char>,
    n: nat,
) -> Seq<ArtMeshView>
    decreases n,
{
    if n == 0 {
        Seq::empty()
    } else {
        let p = art_meshes_of(ids, mask_type, (n - 1) as nat);
        match ids[n - 1] {
            Some(id) => p.push(
                ArtMeshView {
                    id,
                    label: id,
                    original_name: id,
                    index: (n - 1) as usize,
                    mask_type: mask_type(n - 1),
                },
            ),
            None => p,
        }
    }
}

/// The mask type of a drawable the core reports this many masks for.
pub open spec fn mask_type_for(mask_count: i32) -> Seq<char> {
    if mask_count > 0 {
        "masked"@
    } else {
        "plain"@
    }
}

fn art_mesh(id: &DrawableId, index: usize, mask_type: &str) -> (r: ArtMeshInfo)
    ensures
        r@ == (ArtMeshView { id: id@, label: id@, original_name: id@, index, mask_type: mask_type@ }),
{
    ArtMeshInfo {
        id: id.clone(),
        label: id.0.clone(),
        original_name: id.0.clone(),
        index,
        mask_type: mask_type.to_owned(),
    }
}

/// The art meshes of the core's drawables that have ids, with whether the core masks
/// them: `masked` for a drawable with masks, else `plain`.
pub fn art_mesh_metadata(ids: &[Option<DrawableId>], mask_counts: &[i32]) -> (r: Vec<ArtMeshInfo>)
    requires
        ids@.len() == mask_counts@.len(),
    ensures
        r@.map_values(|a: ArtMeshInfo| a@) == art_meshes_of(
            slot_ids(ids@),
            |k: int| mask_type_for(mask_counts@[k]),
            ids@.len(),
        ),
{
    let ghost slots = slot_ids(ids@);
    let ghost kind = |k: int| mask_type_for(mask_counts@[k]);
    let mut out: Vec<ArtMeshInfo> = Vec::new();
    let mut i: usize = 0;
    while i < ids.len()
        invariant
            i <= ids@.len(),
            ids@.len() == mask_counts@.len(),
            slots == slot_ids(ids@),
            kind == (|k: int| mask_type_for(mask_counts@[k])),
            out@.map_values(|a: ArtMeshInfo| a@) == art_meshes_of(slots, kind, i as nat),
        decreases ids@.len() - i,
    {
        let ghost before = out@;
        match &ids[i] {
            Some(id) => {
                let mask_type = if mask_counts[i] > 0 {
                    "masked"
                } else {
                    "plain"
                };
                proof {
                    reveal_strlit("masked");
                    reveal_strlit("plain");
                }
                out.push(art_mesh(id, i, mask_type));
                assert(out@.map_values(|a: ArtMeshInfo| a@) =~= before.map_values(|a: ArtMeshInfo| a@).push(
                    ArtMeshView { id: id@, label: id@, original_name: id@, index: i, mask_type: kind(i as int) },
                ));
            },
            None => {},
        }
        i = i + 1;
    }
    out
}

/// The art meshes of a loaded model, before the core says which are masked: each
/// drawable with an id, with the mask type `unknown`.
pub fn static_art_meshes(ids: &[Option<DrawableId>]) -> (r: Vec<ArtMeshInfo>)
    ensures
        r@.map_values(|a: ArtMeshInfo| a@) == art_meshes_of(slot_ids(ids@), |k: int| "unknown"@, ids@.len()),
{
    let ghost slots = slot_ids(ids@);
    let ghost kind = |k: int| "unknown"@;
    let mut out: Vec<ArtMeshInfo> = Vec::new();
    let mut i: usize = 0;
    while i < ids.len()
        invariant
            i <= ids@.len(),
            slots == slot_ids(ids@),
            kind == (|k: int| "unknown"@),
            out@.map_values(|a: ArtMeshInfo| a@) == art_meshes_of(slots, kind, i as nat),
        decreases ids@.len() - i,
    {
        let ghost before = out@;
        match &ids[i] {
            Some(id) => {
                out.push(art_mesh(id, i, "unknown"));
                assert(out@.map_values(|a: ArtMeshInfo| a@) =~= before.map_values(|a: ArtMeshInfo| a@).push(
                    ArtMeshView { id: id@, label: id@, original_name: id@, index: i, mask_type: kind(i as int) },
                ));
            },
            None => {},
        }
        i = i + 1;
    }
    out
}

} // verus!
