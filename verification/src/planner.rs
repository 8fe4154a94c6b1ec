use crate::layout::{
    clipped_by_drawn, clips_with, has_geometry, index_range_of, index_total, is_resident,
    is_resident_id, key_position, last_with_geometry, lemma_key_position, lemma_key_position_push,
    lemma_render_order_rows, lemma_resident_prefix, lemma_totals_monotone, mask_key_of,
    mask_keys, mask_keys_upto, mask_refs, packing_fits, render_order_rows, resident_ids_in,
    resident_prefix, resident_rows, row_before, row_facts, rows_in_render_order, should_draw,
    vertex_range_of, vertex_total, MaskKey, DRAWABLE_OPACITY_EPSILON_BITS,
    F32_INFINITY_BITS,
};
use crate::model::{
    Drawable, DrawableId, DrawableRanges, DrawableView, MaskRef, MaterialKey, ModelSnapshot,
    SnapshotView,
};
use crate::plan::{
    command_for, commands_view, draws_of, drawn_rows, fresh_layout, mask_draw_rows,
    mask_draws_of, masks_name, model_of, row_command, DrawCommand,
    DrawableRenderCtx, MaskPass, ModelRenderCtx, PlanLayout,
};
use std::ops::Range;
use vstd::prelude::*;

verus! {

pub fn drawable_has_geometry(drawable: &Drawable) -> (r: bool)
    ensures
        r == has_geometry(drawable@),
{
    drawable.vertices.len() != 0 && drawable.indices.len() != 0
}

pub fn drawable_should_draw(drawable: &Drawable) -> (r: bool)
    ensures
        r == should_draw(drawable@),
{
    drawable.visible && DRAWABLE_OPACITY_EPSILON_BITS < drawable.opacity_bits
        && drawable.opacity_bits <= F32_INFINITY_BITS && drawable_has_geometry(drawable)
}

/// Whether the clip of `drawable` names `id`.
fn clips_with_exec(drawable: &Drawable, id: &DrawableId) -> (r: bool)
    ensures
        r == clips_with(drawable@, id@),
{
    match &drawable.clipping {
        None => false,
        Some(clipping) => {
            assert(drawable@.clipping == Some(clipping@));
            let ghost ids = clipping@.drawable_ids;
            let mut k: usize = 0;
            while k < clipping.drawable_ids.len()
                invariant
                    k <= clipping.drawable_ids.len(),
                    ids == crate::model::ids_view(clipping.drawable_ids@),
                    drawable@.clipping == Some(clipping@),
                    forall|t: int| 0 <= t < k ==> ids[t] != id@,
                decreases clipping.drawable_ids.len() - k,
            {
                if clipping.drawable_ids[k].same_as(id) {
                    assert(ids[k as int] == id@);
                    assert(ids.contains(id@));
                    return true;
                }
                k = k + 1;
            }
            false
        },
    }
}

fn clipped_by_drawn_exec(snapshot: &ModelSnapshot, id: &DrawableId) -> (r: bool)
    ensures
        r == clipped_by_drawn(snapshot@.drawables, id@),
{
    let ghost ds = snapshot@.drawables;
    let mut j: usize = 0;
    while j < snapshot.drawables.len()
        invariant
            j <= snapshot.drawables.len(),
            ds == snapshot@.drawables,
            forall|t: int| 0 <= t < j ==> !(should_draw(ds[t]) && #[trigger] clips_with(ds[t], id@)),
        decreases snapshot.drawables.len() - j,
    {
        let d = &snapshot.drawables[j];
        assert(ds[j as int] == d@);
        if drawable_should_draw(d) && clips_with_exec(d, id) {
            return true;
        }
        j = j + 1;
    }
    false
}

fn drawable_is_resident(snapshot: &ModelSnapshot, i: usize) -> (r: bool)
    requires
        i < snapshot.drawables.len(),
    ensures
        r == is_resident(snapshot@.drawables, i as int),
{
    let ghost ds = snapshot@.drawables;
    let d = &snapshot.drawables[i];
    assert(ds[i as int] == d@);
    if drawable_should_draw(d) {
        return true;
    }
    if !drawable_has_geometry(d) {
        return false;
    }
    let mut j: usize = i + 1;
    while j < snapshot.drawables.len()
        invariant
            i < j <= snapshot.drawables.len(),
            ds == snapshot@.drawables,
            ds[i as int] == d@,
            !should_draw(ds[i as int]),
            has_geometry(ds[i as int]),
            forall|t: int| i < t < j && has_geometry(#[trigger] ds[t]) ==> ds[t].id != ds[i as int].id,
        decreases snapshot.drawables.len() - j,
    {
        let other = &snapshot.drawables[j];
        assert(ds[j as int] == other@);
        if drawable_has_geometry(other) && other.id.same_as(&d.id) {
            assert(has_geometry(ds[j as int]) && ds[j as int].id == ds[i as int].id);
            assert(!last_with_geometry(ds, i as int));
            assert(!should_draw(ds[i as int]));
            assert(!is_resident(ds, i as int));
            return false;
        }
        j = j + 1;
    }
    clipped_by_drawn_exec(snapshot, &d.id)
}

/// Indices of the drawables whose geometry the plan packs.
pub fn resident_drawable_indices(snapshot: &ModelSnapshot) -> (r: Vec<usize>)
    ensures
        r@ == resident_rows(snapshot@.drawables),
{
    let ghost ds = snapshot@.drawables;
    let mut out: Vec<usize> = Vec::new();
    let mut i: usize = 0;
    while i < snapshot.drawables.len()
        invariant
            i <= snapshot.drawables.len(),
            ds == snapshot@.drawables,
            ds.len() == snapshot.drawables.len(),
            out@ == resident_prefix(ds, i as nat),
        decreases snapshot.drawables.len() - i,
    {
        if drawable_is_resident(snapshot, i) {
            out.push(i);
        }
        i = i + 1;
    }
    out
}

/// Packed ranges, render orders and source drawables of the resident drawables.
pub struct DrawableTable {
    pub vertex_ranges: Vec<Range<u32>>,
    pub index_ranges: Vec<Range<u32>>,
    pub render_orders: Vec<i32>,
    pub source_indices: Vec<usize>,
}

impl DrawableTable {
    pub fn len(&self) -> (r: usize)
        ensures
            r == self.source_indices.len(),
    {
        self.source_indices.len()
    }

    /// The table lays out the snapshot's resident drawables as a fresh plan does.
    pub open spec fn lays_out(&self, s: SnapshotView) -> bool {
        let l = fresh_layout(s);
        &&& self.source_indices@ == l.source_indices
        &&& self.vertex_ranges@ == l.vertex_ranges
        &&& self.index_ranges@ == l.index_ranges
        &&& self.render_orders@ == l.render_orders
    }
}

pub fn build_drawable_table(snapshot: &ModelSnapshot) -> (table: DrawableTable)
    requires
        packing_fits(snapshot@),
    ensures
        table.lays_out(snapshot@),
{
    let ghost ds = snapshot@.drawables;
    let resident = resident_drawable_indices(snapshot);
    let ghost res = resident@;
    assert(ds.len() == snapshot.drawables.len());
    proof {
        lemma_resident_prefix(ds, ds.len());
        lemma_totals_monotone(ds, res, 0, res.len());
    }
    let mut vertex_offset: u32 = 0;
    let mut index_offset: u32 = 0;
    let mut table = DrawableTable {
        vertex_ranges: Vec::new(),
        index_ranges: Vec::new(),
        render_orders: Vec::new(),
        source_indices: Vec::new(),
    };
    let mut r: usize = 0;
    while r < resident.len()
        invariant
            r <= resident.len(),
            res == resident@,
            ds == snapshot@.drawables,
            res == resident_rows(ds),
            ds.len() == snapshot.drawables.len(),
            forall|t: int| 0 <= t < res.len() ==> res[t] < ds.len(),
            vertex_total(ds, res, res.len()) <= u32::MAX,
            index_total(ds, res, res.len()) <= u32::MAX,
            vertex_offset == vertex_total(ds, res, r as nat),
            index_offset == index_total(ds, res, r as nat),
            table.source_indices@ == res.subrange(0, r as int),
            table.vertex_ranges@.len() == r,
            table.index_ranges@.len() == r,
            table.render_orders@.len() == r,
            forall|t: int| 0 <= t < r ==> table.vertex_ranges@[t] == vertex_range_of(ds, res, t),
            forall|t: int| 0 <= t < r ==> table.index_ranges@[t] == index_range_of(ds, res, t),
            forall|t: int| 0 <= t < r ==> table.render_orders@[t] == ds[res[t] as int].render_order,
        decreases resident.len() - r,
    {
        let source_index = resident[r];
        let drawable = &snapshot.drawables[source_index];
        assert(ds[source_index as int] == drawable@);
        proof {
            lemma_totals_monotone(ds, res, (r + 1) as nat, res.len());
        }
        let vertex_count = drawable.vertices.len() as u32;
        let index_count = drawable.indices.len() as u32;
        table.vertex_ranges.push(vertex_offset..vertex_offset + vertex_count);
        table.index_ranges.push(index_offset..index_offset + index_count);
        table.render_orders.push(drawable.render_order);
        table.source_indices.push(source_index);
        vertex_offset = vertex_offset + vertex_count;
        index_offset = index_offset + index_count;
        r = r + 1;
        assert(table.source_indices@ =~= res.subrange(0, r as int));
    }
    let ghost l = fresh_layout(snapshot@);
    assert(table.source_indices@ =~= l.source_indices);
    assert(table.vertex_ranges@ =~= l.vertex_ranges);
    assert(table.index_ranges@ =~= l.index_ranges);
    assert(table.render_orders@ =~= l.render_orders);
    table
}

/// The rows of the table in draw order: ascending render order, ties by row.
pub fn sorted_drawable_rows(table: &DrawableTable) -> (rows: Vec<usize>)
    requires
        table.render_orders@.len() == table.source_indices@.len(),
    ensures
        rows_in_render_order(rows@, table.render_orders@),
        rows@ == render_order_rows(table.render_orders@),
{
    let ghost orders = table.render_orders@;
    let n = table.len();
    let mut rows: Vec<usize> = Vec::new();
    let mut r: usize = 0;
    while r < n
        invariant
            r <= n,
            n == orders.len(),
            orders == table.render_orders@,
            rows@.len() == r,
            forall|i: int| 0 <= i < rows@.len() ==> rows@[i] < r,
            forall|q: usize| q < r ==> rows@.contains(q),
            forall|i: int, j: int| 0 <= i < j < rows@.len() ==> row_before(orders, rows@[i], rows@[j]),
        decreases n - r,
    {
        let key = table.render_orders[r];
        let mut p: usize = 0;
        while p < rows.len() && table.render_orders[rows[p]] <= key
            invariant
                p <= rows@.len(),
                orders == table.render_orders@,
                key == orders[r as int],
                n == orders.len(),
                r < n,
                forall|i: int| 0 <= i < rows@.len() ==> rows@[i] < r,
                forall|t: int| 0 <= t < p ==> orders[rows@[t] as int] <= key,
            decreases rows@.len() - p,
        {
            p = p + 1;
        }
        let ghost old_rows = rows@;
        proof {
            // Once a row's order exceeds the key, every later row's does too.
            assert forall|t: int| p <= t < old_rows.len() implies orders[old_rows[t] as int] > key by {
                if t > p as int {
                    assert(row_before(orders, old_rows[p as int], old_rows[t]));
                }
            }
        }
        rows.insert(p, r);
        proof {
            let nr = rows@;
            assert(nr == old_rows.insert(p as int, r));
            assert forall|i: int| 0 <= i < nr.len() implies nr[i] < r + 1 by {
                if i < p {
                    assert(nr[i] == old_rows[i]);
                } else if i > p {
                    assert(nr[i] == old_rows[i - 1]);
                }
            }
            assert forall|q: usize| q < r + 1 implies nr.contains(q) by {
                if q == r {
                    assert(nr[p as int] == r);
                } else {
                    assert(old_rows.contains(q));
                    let t = choose|t: int| 0 <= t < old_rows.len() && old_rows[t] == q;
                    if t < p {
                        assert(nr[t] == q);
                    } else {
                        assert(nr[t + 1] == q);
                    }
                }
            }
            assert forall|i: int, j: int| 0 <= i < j < nr.len() implies row_before(
                orders,
                nr[i],
                nr[j],
            ) by {
                if j < p {
                    assert(nr[i] == old_rows[i] && nr[j] == old_rows[j]);
                } else if j == p {
                    assert(nr[i] == old_rows[i]);
                } else if i < p {
                    assert(nr[i] == old_rows[i] && nr[j] == old_rows[j - 1]);
                } else if i == p {
                    assert(nr[j] == old_rows[j - 1]);
                } else {
                    assert(nr[i] == old_rows[i - 1] && nr[j] == old_rows[j - 1]);
                }
            }
        }
        r = r + 1;
    }
    proof {
        lemma_render_order_rows(rows@, orders);
    }
    rows
}

/// The mask passes of a plan and the mask each table row draws with.
pub struct MaskGroupTable {
    pub masks: Vec<MaskPass>,
    pub mask_refs_by_row: Vec<Option<MaskRef>>,
}

/// Whether some row of the table has this id.
fn is_resident_id_exec(snapshot: &ModelSnapshot, table: &DrawableTable, id: &DrawableId) -> (r:
    bool)
    requires
        table.lays_out(snapshot@),
    ensures
        r == is_resident_id(
            row_facts(snapshot@.drawables, resident_rows(snapshot@.drawables)),
            id@,
        ),
{
    let ghost ds = snapshot@.drawables;
    let ghost res = resident_rows(ds);
    let ghost facts = row_facts(ds, res);
    assert(ds.len() == snapshot.drawables.len());
    proof {
        lemma_resident_prefix(ds, ds.len());
    }
    let mut r: usize = 0;
    while r < table.source_indices.len()
        invariant
            r <= table.source_indices.len(),
            table.source_indices@ == res,
            ds == snapshot@.drawables,
            res == resident_rows(ds),
            facts == row_facts(ds, res),
            forall|t: int| 0 <= t < res.len() ==> res[t] < ds.len(),
            forall|t: int| 0 <= t < r ==> #[trigger] facts[t].id != id@,
        decreases table.source_indices.len() - r,
    {
        let src = table.source_indices[r];
        assert(ds[src as int] == snapshot.drawables@[src as int]@);
        if snapshot.drawables[src].id.same_as(id) {
            assert(facts[r as int].id == id@);
            return true;
        }
        r = r + 1;
    }
    false
}

/// The ids of `ids` that some row of the table has, in order.
fn resident_mask_ids(snapshot: &ModelSnapshot, table: &DrawableTable, ids: &Vec<DrawableId>) -> (r:
    Vec<DrawableId>)
    requires
        table.lays_out(snapshot@),
    ensures
        crate::model::ids_view(r@) == resident_ids_in(
            row_facts(snapshot@.drawables, resident_rows(snapshot@.drawables)),
            crate::model::ids_view(ids@),
        ),
{
    let ghost facts = row_facts(snapshot@.drawables, resident_rows(snapshot@.drawables));
    let ghost all = crate::model::ids_view(ids@);
    let mut out: Vec<DrawableId> = Vec::new();
    let mut k: usize = 0;
    while k < ids.len()
        invariant
            k <= ids.len(),
            table.lays_out(snapshot@),
            facts == row_facts(snapshot@.drawables, resident_rows(snapshot@.drawables)),
            all == crate::model::ids_view(ids@),
            crate::model::ids_view(out@) == resident_ids_in(facts, all.subrange(0, k as int)),
        decreases ids.len() - k,
    {
        assert(all.subrange(0, k + 1).drop_last() =~= all.subrange(0, k as int));
        assert(all.subrange(0, k + 1).last() == ids@[k as int]@);
        if is_resident_id_exec(snapshot, table, &ids[k]) {
            let ghost before = out@;
            out.push(ids[k].clone());
            assert(crate::model::ids_view(out@) =~= crate::model::ids_view(before).push(ids@[k as int]@));
        }
        k = k + 1;
    }
    assert(all.subrange(0, ids.len() as int) =~= all);
    out
}

/// Whether two id lists name the same ids in the same order.
fn same_ids(a: &Vec<DrawableId>, b: &Vec<DrawableId>) -> (r: bool)
    ensures
        r == (crate::model::ids_view(a@) == crate::model::ids_view(b@)),
{
    if a.len() != b.len() {
        assert(crate::model::ids_view(a@).len() != crate::model::ids_view(b@).len());
        return false;
    }
    let mut i: usize = 0;
    while i < a.len()
        invariant
            i <= a.len(),
            a.len() == b.len(),
            forall|k: int| 0 <= k < i ==> a@[k]@ == b@[k]@,
        decreases a.len() - i,
    {
        if !a[i].same_as(&b[i]) {
            assert(crate::model::ids_view(a@)[i as int] != crate::model::ids_view(b@)[i as int]);
            return false;
        }
        i = i + 1;
    }
    assert(crate::model::ids_view(a@) =~= crate::model::ids_view(b@));
    true
}

/// The mask passes as mask groups.
pub open spec fn pass_keys(masks: Seq<MaskPass>) -> Seq<MaskKey> {
    masks.map_values(
        |m: MaskPass| MaskKey { drawable_ids: crate::model::ids_view(m.drawable_ids@), inverted: m.inverted },
    )
}

/// Position of the first mask pass of this group.
fn find_mask(masks: &Vec<MaskPass>, ids: &Vec<DrawableId>, inverted: bool) -> (r: Option<usize>)
    ensures
        ({
            let k = MaskKey { drawable_ids: crate::model::ids_view(ids@), inverted };
            let p = key_position(pass_keys(masks@), k);
            match r {
                Some(i) => p >= 0 && i == p,
                None => p == -1,
            }
        }),
{
    let ghost keys = pass_keys(masks@);
    let ghost k = MaskKey { drawable_ids: crate::model::ids_view(ids@), inverted };
    proof {
        lemma_key_position(keys, k);
    }
    let mut i: usize = 0;
    while i < masks.len()
        invariant
            i <= masks.len(),
            keys == pass_keys(masks@),
            k == (MaskKey { drawable_ids: crate::model::ids_view(ids@), inverted }),
            forall|j: int| 0 <= j < i ==> keys[j] != k,
        decreases masks.len() - i,
    {
        if masks[i].inverted == inverted && same_ids(&masks[i].drawable_ids, ids) {
            assert(keys[i as int] == k);
            proof {
                lemma_key_position(keys, k);
            }
            return Some(i);
        }
        i = i + 1;
    }
    assert(!keys.contains(k));
    None
}

/// The mask group that table row `row` draws with, as ids and inversion.
fn mask_key_for_row(snapshot: &ModelSnapshot, table: &DrawableTable, row: usize) -> (r: Option<
    (Vec<DrawableId>, bool),
>)
    requires
        table.lays_out(snapshot@),
        row < table.source_indices.len(),
    ensures
        ({
            let facts = row_facts(snapshot@.drawables, resident_rows(snapshot@.drawables));
            match r {
                Some((ids, inv)) => mask_key_of(facts, row as int) == Some(
                    MaskKey { drawable_ids: crate::model::ids_view(ids@), inverted: inv },
                ),
                None => mask_key_of(facts, row as int) is None,
            }
        }),
{
    let ghost ds = snapshot@.drawables;
    let ghost res = resident_rows(ds);
    assert(ds.len() == snapshot.drawables.len());
    proof {
        lemma_resident_prefix(ds, ds.len());
    }
    let src = table.source_indices[row];
    let drawable = &snapshot.drawables[src];
    assert(ds[src as int] == drawable@);
    if !drawable_should_draw(drawable) {
        return None;
    }
    match &drawable.clipping {
        None => None,
        Some(clipping) => {
            assert(drawable@.clipping == Some(clipping@));
            let ids = resident_mask_ids(snapshot, table, &clipping.drawable_ids);
            if ids.len() == 0 {
                assert(crate::model::ids_view(ids@).len() == 0);
                None
            } else {
                Some((ids, clipping.inverted))
            }
        },
    }
}

pub fn build_mask_group_table(
    snapshot: &ModelSnapshot,
    table: &DrawableTable,
    ordered_rows: &Vec<usize>,
) -> (r: MaskGroupTable)
    requires
        table.lays_out(snapshot@),
        rows_in_render_order(ordered_rows@, table.render_orders@),
    ensures
        ({
            let facts = row_facts(snapshot@.drawables, resident_rows(snapshot@.drawables));
            &&& pass_keys(r.masks@) == mask_keys(facts, ordered_rows@)
            &&& forall|i: int| 0 <= i < r.masks@.len() ==> (#[trigger] r.masks@[i]).id == MaskRef(i as usize)
            &&& r.mask_refs_by_row@ == mask_refs(facts, ordered_rows@)
        }),
{
    let ghost ds = snapshot@.drawables;
    let ghost res = resident_rows(ds);
    let ghost facts = row_facts(ds, res);
    let ghost rows = ordered_rows@;
    let n = table.len();
    let mut masks: Vec<MaskPass> = Vec::new();
    let mut refs: Vec<Option<MaskRef>> = Vec::new();
    let mut i: usize = 0;
    while i < n
        invariant
            i <= n,
            refs@.len() == i,
            forall|k: int| 0 <= k < i ==> refs@[k] is None,
        decreases n - i,
    {
        refs.push(None);
        i = i + 1;
    }
    let mut t: usize = 0;
    while t < ordered_rows.len()
        invariant
            t <= ordered_rows.len(),
            n == table.source_indices@.len(),
            n == res.len(),
            table.lays_out(snapshot@),
            ds == snapshot@.drawables,
            res == resident_rows(ds),
            facts == row_facts(ds, res),
            rows == ordered_rows@,
            rows_in_render_order(rows, table.render_orders@),
            refs@.len() == n,
            pass_keys(masks@) == mask_keys_upto(facts, rows, t as nat),
            forall|j: int| 0 <= j < masks@.len() ==> (#[trigger] masks@[j]).id == MaskRef(j as usize),
            forall|j: int| 0 <= j < t ==> match #[trigger] mask_key_of(facts, rows[j] as int) {
                Some(k) => mask_keys_upto(facts, rows, t as nat).contains(k),
                None => true,
            },
            forall|row: int| 0 <= row < n ==> #[trigger] refs@[row] == if rows.subrange(0, t as int).contains(row as usize) {
                match mask_key_of(facts, row) {
                    Some(k) => Some(MaskRef(key_position(mask_keys_upto(facts, rows, t as nat), k) as usize)),
                    None => None,
                }
            } else {
                None
            },
        decreases ordered_rows.len() - t,
    {
        let row = ordered_rows[t];
        let ghost keys = mask_keys_upto(facts, rows, t as nat);
        let ghost keys2 = mask_keys_upto(facts, rows, (t + 1) as nat);
        assert(row < n);
        proof {
            // rows are distinct, so this row was not processed before
            assert forall|j: int| 0 <= j < t implies rows[j] != row by {
                assert(crate::layout::row_before(table.render_orders@, rows[j], rows[t as int]));
            }
            assert(!rows.subrange(0, t as int).contains(row));
        }
        let key = mask_key_for_row(snapshot, table, row);
        let ghost old_refs = refs@;
        match key {
            None => {
                assert(keys2 == keys);
            },
            Some((ids, inverted)) => {
                let ghost k = MaskKey { drawable_ids: crate::model::ids_view(ids@), inverted };
                proof {
                    lemma_key_position(keys, k);
                }
                let found = find_mask(&masks, &ids, inverted);
                let mask_ref = match found {
                    Some(index) => {
                        assert(keys2 == keys);
                        MaskRef(index)
                    },
                    None => {
                        let mask_ref = MaskRef(masks.len());
                        let ghost before = masks@;
                        masks.push(MaskPass { id: mask_ref, drawable_ids: ids, inverted });
                        assert(keys2 == keys.push(k));
                        assert(pass_keys(masks@) =~= pass_keys(before).push(k));
                        proof {
                            lemma_key_position(keys2, k);
                            assert(keys2[keys.len() as int] == k);
                        }
                        mask_ref
                    },
                };
                refs.set(row, Some(mask_ref));
            },
        }
        proof {
            assert(rows.subrange(0, t + 1) =~= rows.subrange(0, t as int).push(row));
            assert forall|j: int| 0 <= j < t + 1 implies match #[trigger] mask_key_of(facts, rows[j] as int) {
                Some(k) => keys2.contains(k),
                None => true,
            } by {
                if j < t {
                    if let Some(k) = mask_key_of(facts, rows[j] as int) {
                        assert(keys.contains(k));
                        let q = choose|q: int| 0 <= q < keys.len() && keys[q] == k;
                        assert(keys2[q] == k);
                    }
                } else {
                    if let Some(k) = mask_key_of(facts, rows[j] as int) {
                        lemma_key_position(keys2, k);
                    }
                }
            }
            assert forall|r: int| 0 <= r < n implies #[trigger] refs@[r] == if rows.subrange(0, t + 1).contains(r as usize) {
                match mask_key_of(facts, r) {
                    Some(k) => Some(MaskRef(key_position(keys2, k) as usize)),
                    None => None,
                }
            } else {
                None
            } by {
                if r != row as int {
                    assert(refs@[r] == old_refs[r]);
                    if rows.subrange(0, t as int).contains(r as usize) {
                        let pre1 = rows.subrange(0, t as int);
                        let j = choose|j: int| 0 <= j < pre1.len() && pre1[j] == r as usize;
                        assert(rows[j] == r as usize);
                        if let Some(k) = mask_key_of(facts, r) {
                            assert(keys.contains(k));
                            if keys2 != keys {
                                lemma_key_position_push(keys, mask_key_of(facts, row as int)->0, k);
                            }
                        }
                        assert(rows.subrange(0, t + 1).contains(r as usize)) by {
                            assert(rows.subrange(0, t + 1)[j] == r as usize);
                        }
                    } else {
                        let pre2 = rows.subrange(0, t + 1);
                        assert(!pre2.contains(r as usize)) by {
                            if pre2.contains(r as usize) {
                                let j = choose|j: int| 0 <= j < pre2.len() && pre2[j] == r as usize;
                                if j < t {
                                    assert(rows.subrange(0, t as int)[j] == r as usize);
                                }
                            }
                        }
                    }
                } else {
                    assert(rows.subrange(0, t + 1)[t as int] == row);
                }
            }
        }
        t = t + 1;
    }
    proof {
        assert(rows.subrange(0, rows.len() as int) =~= rows);
        assert(refs@ =~= mask_refs(facts, rows)) by {
            assert forall|row: int| 0 <= row < n implies refs@[row] == mask_refs(facts, rows)[row] by {
                assert(rows.contains(row as usize));
            }
        }
    }
    MaskGroupTable { masks, mask_refs_by_row: refs }
}

/// A layout whose rows and ranges fit the snapshot's drawables.
pub open spec fn layout_fits(s: SnapshotView, l: PlanLayout) -> bool {
    let m = l.source_indices.len();
    &&& l.vertex_ranges.len() == m
    &&& l.index_ranges.len() == m
    &&& l.render_orders.len() == m
    &&& l.mask_refs.len() == m
    &&& forall|i: int| 0 <= i < l.ordered_rows.len() ==> l.ordered_rows[i] < m
    &&& forall|r: int| 0 <= r < m ==> l.source_indices[r] < s.drawables.len()
}

/// The table, draw order, mask passes and mask references make up layout `l`.
pub open spec fn realizes(
    table: &DrawableTable,
    rows: Seq<usize>,
    masks: Seq<MaskPass>,
    refs: Seq<Option<MaskRef>>,
    l: PlanLayout,
) -> bool {
    &&& table.source_indices@ == l.source_indices
    &&& table.vertex_ranges@ == l.vertex_ranges
    &&& table.index_ranges@ == l.index_ranges
    &&& table.render_orders@ == l.render_orders
    &&& rows == l.ordered_rows
    &&& pass_keys(masks) == l.masks
    &&& refs == l.mask_refs
}

pub proof fn lemma_fresh_layout_fits(s: SnapshotView, rows: Seq<usize>)
    requires
        s.drawables.len() <= usize::MAX,
        rows_in_render_order(rows, fresh_layout(s).render_orders),
    ensures
        layout_fits(s, fresh_layout(s)),
        fresh_layout(s).ordered_rows == rows,
{
    lemma_resident_prefix(s.drawables, s.drawables.len());
    lemma_render_order_rows(rows, fresh_layout(s).render_orders);
}

/// The model context of a table.
pub fn build_model_ctx(snapshot: &ModelSnapshot, table: &DrawableTable) -> (r: ModelRenderCtx)
    requires
        table.lays_out(snapshot@),
    ensures
        r@ == model_of(snapshot@.drawables, fresh_layout(snapshot@)),
{
    let ghost ds = snapshot@.drawables;
    let ghost l = fresh_layout(snapshot@);
    assert(ds.len() == snapshot.drawables.len());
    proof {
        lemma_resident_prefix(ds, ds.len());
    }
    let n = table.len();
    let mut drawables: Vec<DrawableRenderCtx> = Vec::new();
    let mut r: usize = 0;
    while r < n
        invariant
            r <= n,
            n == l.source_indices.len(),
            table.lays_out(snapshot@),
            l == fresh_layout(snapshot@),
            ds == snapshot@.drawables,
            forall|t: int| 0 <= t < n ==> l.source_indices[t] < ds.len(),
            drawables@.len() == r,
            forall|t: int| 0 <= t < r ==> (#[trigger] drawables@[t])@ == model_of(ds, l).drawables[t],
        decreases n - r,
    {
        let src = table.source_indices[r];
        let drawable = &snapshot.drawables[src];
        assert(ds[src as int] == drawable@);
        drawables.push(
            DrawableRenderCtx {
                drawable_id: drawable.id.clone(),
                texture_index: drawable.texture_index,
                ranges: DrawableRanges {
                    vertex_range: table.vertex_ranges[r].start..table.vertex_ranges[r].end,
                    index_range: table.index_ranges[r].start..table.index_ranges[r].end,
                },
            },
        );
        r = r + 1;
    }
    let vertex_count = if n == 0 {
        0
    } else {
        table.vertex_ranges[n - 1].end
    };
    let index_count = if n == 0 {
        0
    } else {
        table.index_ranges[n - 1].end
    };
    let model = ModelRenderCtx { vertex_count, index_count, drawables };
    assert(model@.drawables =~= model_of(ds, l).drawables);
    model
}

/// The draw call of table row `row` with mask `mask`.
fn draw_command_for_row(
    snapshot: &ModelSnapshot,
    table: &DrawableTable,
    row: usize,
    mask: Option<MaskRef>,
) -> (r: DrawCommand)
    requires
        row < table.source_indices@.len(),
        row < table.vertex_ranges@.len(),
        row < table.index_ranges@.len(),
        table.source_indices@[row as int] < snapshot.drawables.len(),
    ensures
        r@ == command_for(
            snapshot@.drawables[table.source_indices@[row as int] as int],
            table.vertex_ranges@[row as int],
            table.index_ranges@[row as int],
            mask,
        ),
{
    let drawable = &snapshot.drawables[table.source_indices[row]];
    assert(snapshot@.drawables[table.source_indices@[row as int] as int] == drawable@);
    let inverted_mask = match &drawable.clipping {
        Some(clipping) => clipping.inverted,
        None => false,
    };
    DrawCommand {
        drawable_id: drawable.id.clone(),
        texture_index: drawable.texture_index,
        vertex_range: table.vertex_ranges[row].start..table.vertex_ranges[row].end,
        index_range: table.index_ranges[row].start..table.index_ranges[row].end,
        opacity_bits: drawable.opacity_bits,
        blend_mode: drawable.blend_mode,
        mask,
        inverted_mask,
        material: MaterialKey::Default,
    }
}

/// Main-pass draw calls: the drawn rows in draw order.
pub(crate) fn draw_commands_for_visible_rows(
    snapshot: &ModelSnapshot,
    table: &DrawableTable,
    ordered_rows: &Vec<usize>,
    mask_table: &MaskGroupTable,
    Ghost(l): Ghost<PlanLayout>,
) -> (r: Vec<DrawCommand>)
    requires
        layout_fits(snapshot@, l),
        realizes(table, ordered_rows@, mask_table.masks@, mask_table.mask_refs_by_row@, l),
    ensures
        commands_view(r@) == draws_of(snapshot@.drawables, l),
{
    let ghost ds = snapshot@.drawables;
    let mut out: Vec<DrawCommand> = Vec::new();
    let mut t: usize = 0;
    while t < ordered_rows.len()
        invariant
            t <= ordered_rows.len(),
            ds == snapshot@.drawables,
            layout_fits(snapshot@, l),
            realizes(table, ordered_rows@, mask_table.masks@, mask_table.mask_refs_by_row@, l),
            commands_view(out@) == drawn_rows(ds, l, t as nat).map_values(
                |row: usize| row_command(ds, l, row as int),
            ),
        decreases ordered_rows.len() - t,
    {
        let row = ordered_rows[t];
        let drawable = &snapshot.drawables[table.source_indices[row]];
        assert(ds[table.source_indices@[row as int] as int] == drawable@);
        if drawable_should_draw(drawable) {
            let ghost before = out@;
            let command = draw_command_for_row(snapshot, table, row, mask_table.mask_refs_by_row[row]);
            out.push(command);
            assert(commands_view(out@) =~= commands_view(before).push(command@));
            assert(drawn_rows(ds, l, (t + 1) as nat) == drawn_rows(ds, l, t as nat).push(row));
            assert(commands_view(out@) =~= drawn_rows(ds, l, (t + 1) as nat).map_values(
                |row: usize| row_command(ds, l, row as int),
            ));
        }
        t = t + 1;
    }
    out
}

/// Whether some mask pass names this id.
fn masks_name_exec(masks: &Vec<MaskPass>, id: &DrawableId) -> (r: bool)
    ensures
        r == masks_name(pass_keys(masks@), id@),
{
    let ghost keys = pass_keys(masks@);
    let mut i: usize = 0;
    while i < masks.len()
        invariant
            i <= masks.len(),
            keys == pass_keys(masks@),
            forall|j: int| 0 <= j < i ==> !(#[trigger] keys[j]).drawable_ids.contains(id@),
        decreases masks.len() - i,
    {
        let ids = &masks[i].drawable_ids;
        let ghost v = crate::model::ids_view(ids@);
        assert(keys[i as int].drawable_ids == v);
        let mut k: usize = 0;
        while k < ids.len()
            invariant
                k <= ids.len(),
                v == crate::model::ids_view(ids@),
                i < masks@.len(),
                keys == pass_keys(masks@),
                keys[i as int].drawable_ids == v,
                forall|q: int| 0 <= q < k ==> v[q] != id@,
            decreases ids.len() - k,
        {
            if ids[k].same_as(id) {
                assert(v[k as int] == id@);
                assert(keys[i as int].drawable_ids.contains(id@));
                return true;
            }
            k = k + 1;
        }
        i = i + 1;
    }
    false
}

/// Draw calls for the mask passes: the rows some mask names, in row order.
pub(crate) fn mask_draw_commands_from_table(
    snapshot: &ModelSnapshot,
    table: &DrawableTable,
    mask_table: &MaskGroupTable,
    Ghost(l): Ghost<PlanLayout>,
) -> (r: Vec<DrawCommand>)
    requires
        layout_fits(snapshot@, l),
        pass_keys(mask_table.masks@) == l.masks,
        mask_table.mask_refs_by_row@ == l.mask_refs,
        table.source_indices@ == l.source_indices,
        table.vertex_ranges@ == l.vertex_ranges,
        table.index_ranges@ == l.index_ranges,
    ensures
        commands_view(r@) == mask_draws_of(snapshot@.drawables, l),
{
    let ghost ds = snapshot@.drawables;
    let mut out: Vec<DrawCommand> = Vec::new();
    let mut r: usize = 0;
    while r < table.len()
        invariant
            r <= table.source_indices@.len(),
            ds == snapshot@.drawables,
            layout_fits(snapshot@, l),
            pass_keys(mask_table.masks@) == l.masks,
            mask_table.mask_refs_by_row@ == l.mask_refs,
            table.source_indices@ == l.source_indices,
            table.vertex_ranges@ == l.vertex_ranges,
            table.index_ranges@ == l.index_ranges,
            commands_view(out@) == mask_draw_rows(ds, l, r as nat).map_values(
                |row: usize| row_command(ds, l, row as int),
            ),
        decreases table.source_indices@.len() - r,
    {
        let drawable = &snapshot.drawables[table.source_indices[r]];
        assert(ds[table.source_indices@[r as int] as int] == drawable@);
        if masks_name_exec(&mask_table.masks, &drawable.id) {
            let ghost before = out@;
            let command = draw_command_for_row(snapshot, table, r, mask_table.mask_refs_by_row[r]);
            out.push(command);
            assert(commands_view(out@) =~= commands_view(before).push(command@));
            assert(mask_draw_rows(ds, l, (r + 1) as nat) == mask_draw_rows(ds, l, r as nat).push(r));
            assert(commands_view(out@) =~= mask_draw_rows(ds, l, (r + 1) as nat).map_values(
                |row: usize| row_command(ds, l, row as int),
            ));
        }
        r = r + 1;
    }
    out
}

} // verus!
