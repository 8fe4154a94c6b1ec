use crate::model::{ClippingView, DrawableView, MaskRef, SnapshotView};
use std::ops::Range;
use vstd::prelude::*;

verus! {

/// Bit pattern of the single-precision value 1e-6, the opacity at or below which a
/// drawable is treated as transparent.
pub const DRAWABLE_OPACITY_EPSILON_BITS: u32 = 0x3586_37bd;

/// Bit pattern of single-precision positive infinity.
pub const F32_INFINITY_BITS: u32 = 0x7f80_0000;

/// Whether the single-precision value with these bits compares greater than 1e-6.
/// Positive finite values and positive infinity order like their bit patterns;
/// NaNs, zeros and negative values never compare greater.
pub open spec fn opacity_exceeds_epsilon(bits: u32) -> bool {
    DRAWABLE_OPACITY_EPSILON_BITS < bits && bits <= F32_INFINITY_BITS
}

pub open spec fn has_geometry(d: DrawableView) -> bool {
    d.vertices.len() > 0 && d.indices.len() > 0
}

/// A drawable that the main pass draws: visible, not transparent, with geometry.
pub open spec fn should_draw(d: DrawableView) -> bool {
    d.visible && opacity_exceeds_epsilon(d.opacity_bits) && has_geometry(d)
}

pub open spec fn clips_with(d: DrawableView, id: Seq<char>) -> bool {
    match d.clipping {
        Some(c) => c.drawable_ids.contains(id),
        None => false,
    }
}

/// Some drawn drawable names `id` among its clipping masks.
pub open spec fn clipped_by_drawn(ds: Seq<DrawableView>, id: Seq<char>) -> bool {
    exists|j: int| 0 <= j < ds.len() && should_draw(ds[j]) && #[trigger] clips_with(ds[j], id)
}

/// Drawable `i` has geometry and no later drawable with geometry shares its id.
pub open spec fn last_with_geometry(ds: Seq<DrawableView>, i: int) -> bool {
    &&& has_geometry(ds[i])
    &&& forall|j: int| i < j < ds.len() && has_geometry(#[trigger] ds[j]) ==> ds[j].id != ds[i].id
}

/// A drawable is resident (its geometry is packed into the model buffers) when it is
/// drawn, or when it is the mask source that a drawn drawable's clip names.
pub open spec fn is_resident(ds: Seq<DrawableView>, i: int) -> bool {
    should_draw(ds[i]) || (last_with_geometry(ds, i) && clipped_by_drawn(ds, ds[i].id))
}

/// Indices of the resident drawables among the first `n`, ascending.
pub open spec fn resident_prefix(ds: Seq<DrawableView>, n: nat) -> Seq<usize>
    decreases n,
{
    if n == 0 {
        Seq::empty()
    } else {
        let p = resident_prefix(ds, (n - 1) as nat);
        if is_resident(ds, n - 1) {
            p.push((n - 1) as usize)
        } else {
            p
        }
    }
}

/// Indices of all resident drawables, ascending: one row of the drawable table each.
pub open spec fn resident_rows(ds: Seq<DrawableView>) -> Seq<usize> {
    resident_prefix(ds, ds.len())
}

pub proof fn lemma_resident_prefix(ds: Seq<DrawableView>, n: nat)
    requires
        n <= ds.len(),
        ds.len() <= usize::MAX,
    ensures
        forall|t: int| 0 <= t < resident_prefix(ds, n).len() ==> resident_prefix(ds, n)[t] < n,
        forall|t: int| #![trigger resident_prefix(ds, n)[t]]
            0 <= t < resident_prefix(ds, n).len() ==> is_resident(ds, resident_prefix(ds, n)[t] as int),
        forall|a: int, b: int|
            0 <= a < b < resident_prefix(ds, n).len() ==> resident_prefix(ds, n)[a] < resident_prefix(ds, n)[b],
        forall|i: int| 0 <= i < n && is_resident(ds, i) ==> resident_prefix(ds, n).contains(i as usize),
    decreases n,
{
    if n > 0 {
        lemma_resident_prefix(ds, (n - 1) as nat);
        let p = resident_prefix(ds, (n - 1) as nat);
        let q = resident_prefix(ds, n);
        if is_resident(ds, n - 1) {
            assert(q == p.push((n - 1) as usize));
            assert forall|t: int| 0 <= t < p.len() implies q[t] == p[t] by {}
            assert(q[p.len() as int] as int == n - 1);
            assert forall|t: int| #![trigger q[t]] 0 <= t < q.len() implies is_resident(ds, q[t] as int) by {
                if t < p.len() {
                    assert(q[t] == p[t]);
                }
            }
            assert forall|a: int, b: int| 0 <= a < b < q.len() implies q[a] < q[b] by {
                if b < p.len() {
                    assert(q[a] == p[a] && q[b] == p[b]);
                } else {
                    assert(q[a] == p[a]);
                }
            }
        } else {
            assert(q == p);
        }
        assert forall|i: int| 0 <= i < n && is_resident(ds, i) implies resident_prefix(ds, n).contains(
            i as usize,
        ) by {
            if i < n - 1 {
                let t = choose|t: int| 0 <= t < p.len() && p[t] == i as usize;
                assert(resident_prefix(ds, n)[t] == i as usize);
            } else {
                assert(resident_prefix(ds, n)[p.len() as int] == i as usize);
            }
        }
    }
}

/// Number of vertices of the drawables behind the first `r` rows.
pub open spec fn vertex_total(ds: Seq<DrawableView>, rows: Seq<usize>, r: nat) -> nat
    decreases r,
{
    if r == 0 {
        0
    } else {
        vertex_total(ds, rows, (r - 1) as nat) + ds[rows[r - 1] as int].vertices.len()
    }
}

/// Number of indices of the drawables behind the first `r` rows.
pub open spec fn index_total(ds: Seq<DrawableView>, rows: Seq<usize>, r: nat) -> nat
    decreases r,
{
    if r == 0 {
        0
    } else {
        index_total(ds, rows, (r - 1) as nat) + ds[rows[r - 1] as int].indices.len()
    }
}

pub proof fn lemma_totals_monotone(ds: Seq<DrawableView>, rows: Seq<usize>, a: nat, b: nat)
    requires
        a <= b,
    ensures
        vertex_total(ds, rows, a) <= vertex_total(ds, rows, b),
        index_total(ds, rows, a) <= index_total(ds, rows, b),
    decreases b,
{
    if a < b {
        lemma_totals_monotone(ds, rows, a, (b - 1) as nat);
    }
}

/// The packed vertices and indices of all resident drawables fit in 32-bit offsets.
pub open spec fn packing_fits(s: SnapshotView) -> bool {
    let res = resident_rows(s.drawables);
    &&& vertex_total(s.drawables, res, res.len()) <= u32::MAX
    &&& index_total(s.drawables, res, res.len()) <= u32::MAX
}

/// Range of row `r`'s vertices in the packed vertex buffer.
pub open spec fn vertex_range_of(ds: Seq<DrawableView>, rows: Seq<usize>, r: int) -> Range<u32> {
    Range {
        start: vertex_total(ds, rows, r as nat) as u32,
        end: (vertex_total(ds, rows, r as nat) + ds[rows[r] as int].vertices.len()) as u32,
    }
}

/// Range of row `r`'s indices in the packed index buffer.
pub open spec fn index_range_of(ds: Seq<DrawableView>, rows: Seq<usize>, r: int) -> Range<u32> {
    Range {
        start: index_total(ds, rows, r as nat) as u32,
        end: (index_total(ds, rows, r as nat) + ds[rows[r] as int].indices.len()) as u32,
    }
}

/// Row `a` is drawn before row `b`: lower render order first, ties by row.
pub open spec fn row_before(orders: Seq<i32>, a: usize, b: usize) -> bool {
    orders[a as int] < orders[b as int] || (orders[a as int] == orders[b as int] && a < b)
}

/// `rows` lists every row once, in draw order.
pub open spec fn rows_in_render_order(rows: Seq<usize>, orders: Seq<i32>) -> bool {
    &&& rows.len() == orders.len()
    &&& forall|i: int| 0 <= i < rows.len() ==> rows[i] < orders.len()
    &&& forall|r: usize| r < orders.len() ==> rows.contains(r)
    &&& forall|i: int, j: int| 0 <= i < j < rows.len() ==> row_before(orders, rows[i], rows[j])
}

/// The rows of a table with these render orders, in draw order.
pub open spec fn render_order_rows(orders: Seq<i32>) -> Seq<usize> {
    choose|rows: Seq<usize>| rows_in_render_order(rows, orders)
}

proof fn lemma_sorted_prefix_agree(s1: Seq<usize>, s2: Seq<usize>, orders: Seq<i32>, k: int)
    requires
        rows_in_render_order(s1, orders),
        rows_in_render_order(s2, orders),
        0 <= k < s1.len(),
    ensures
        forall|j: int| 0 <= j <= k ==> s1[j] == s2[j],
    decreases k,
{
    if k > 0 {
        lemma_sorted_prefix_agree(s1, s2, orders, k - 1);
    }
    let x = s1[k];
    let y = s2[k];
    if x != y {
        assert(s1.contains(y));
        let q = choose|q: int| 0 <= q < s1.len() && s1[q] == y;
        assert(s2.contains(x));
        let p = choose|p: int| 0 <= p < s2.len() && s2[p] == x;
        if q < k {
            assert(s1[q] == s2[q]);
            assert(row_before(orders, s2[q], s2[k]));
        }
        if p < k {
            assert(s1[p] == s2[p]);
            assert(row_before(orders, s1[p], s1[k]));
        }
        assert(q > k && p > k);
        assert(row_before(orders, s1[k], s1[q]));
        assert(row_before(orders, s2[k], s2[p]));
    }
}

/// Two listings of every row in draw order are the same listing.
pub proof fn lemma_render_order_unique(s1: Seq<usize>, s2: Seq<usize>, orders: Seq<i32>)
    requires
        rows_in_render_order(s1, orders),
        rows_in_render_order(s2, orders),
    ensures
        s1 == s2,
{
    if s1.len() > 0 {
        lemma_sorted_prefix_agree(s1, s2, orders, s1.len() - 1);
    }
    assert(s1 =~= s2);
}

pub proof fn lemma_render_order_rows(rows: Seq<usize>, orders: Seq<i32>)
    requires
        rows_in_render_order(rows, orders),
    ensures
        render_order_rows(orders) == rows,
{
    lemma_render_order_unique(render_order_rows(orders), rows, orders);
}

/// First position at or after `i` whose row has a render order above `key`, or the end.
spec fn insertion_point(rows: Seq<usize>, orders: Seq<i32>, key: i32, i: int) -> int
    decreases rows.len() - i,
{
    if i >= rows.len() {
        rows.len() as int
    } else if orders[rows[i] as int] > key {
        i
    } else {
        insertion_point(rows, orders, key, i + 1)
    }
}

proof fn lemma_insertion_point(rows: Seq<usize>, orders: Seq<i32>, key: i32, i: int)
    requires
        0 <= i <= rows.len(),
    ensures
        i <= insertion_point(rows, orders, key, i) <= rows.len(),
        forall|t: int|
            i <= t < insertion_point(rows, orders, key, i) ==> orders[rows[t] as int] <= key,
        insertion_point(rows, orders, key, i) < rows.len() ==> orders[rows[insertion_point(
            rows,
            orders,
            key,
            i,
        )] as int] > key,
    decreases rows.len() - i,
{
    if i < rows.len() && orders[rows[i] as int] <= key {
        lemma_insertion_point(rows, orders, key, i + 1);
    }
}

/// Rows `0..r` sorted into draw order, built by insertion.
proof fn lemma_sorted_rows_upto(orders: Seq<i32>, r: nat) -> (rows: Seq<usize>)
    requires
        r <= orders.len(),
        r <= usize::MAX,
    ensures
        rows.len() == r,
        forall|i: int| 0 <= i < rows.len() ==> rows[i] < r,
        forall|q: usize| q < r ==> rows.contains(q),
        forall|i: int, j: int| 0 <= i < j < rows.len() ==> row_before(orders, rows[i], rows[j]),
    decreases r,
{
    if r == 0 {
        Seq::empty()
    } else {
        let prev = lemma_sorted_rows_upto(orders, (r - 1) as nat);
        let new_row = (r - 1) as usize;
        let key = orders[new_row as int];
        lemma_insertion_point(prev, orders, key, 0);
        let p = insertion_point(prev, orders, key, 0);
        assert forall|t: int| p <= t < prev.len() implies orders[prev[t] as int] > key by {
            if t > p {
                assert(row_before(orders, prev[p], prev[t]));
            }
        }
        let nr = prev.insert(p, new_row);
        assert forall|i: int| 0 <= i < nr.len() implies nr[i] < r by {
            if i < p {
                assert(nr[i] == prev[i]);
            } else if i > p {
                assert(nr[i] == prev[i - 1]);
            }
        }
        assert forall|q: usize| q < r implies nr.contains(q) by {
            if q == new_row {
                assert(nr[p] == new_row);
            } else {
                assert(prev.contains(q));
                let t = choose|t: int| 0 <= t < prev.len() && prev[t] == q;
                if t < p {
                    assert(nr[t] == q);
                } else {
                    assert(nr[t + 1] == q);
                }
            }
        }
        assert forall|i: int, j: int| 0 <= i < j < nr.len() implies row_before(
            orders,
            nr[i],
            nr[j],
        ) by {
            if j < p {
                assert(nr[i] == prev[i] && nr[j] == prev[j]);
            } else if j == p {
                assert(nr[i] == prev[i]);
            } else if i < p {
                assert(nr[i] == prev[i] && nr[j] == prev[j - 1]);
            } else if i == p {
                assert(nr[j] == prev[j - 1]);
            } else {
                assert(nr[i] == prev[i - 1] && nr[j] == prev[j - 1]);
            }
        }
        nr
    }
}

/// Every table, however its render orders fall, has its rows in one draw order.
pub proof fn lemma_render_order_rows_sorted(orders: Seq<i32>)
    requires
        orders.len() <= usize::MAX,
    ensures
        rows_in_render_order(render_order_rows(orders), orders),
{
    let rows = lemma_sorted_rows_upto(orders, orders.len());
    lemma_render_order_rows(rows, orders);
}

/// What mask grouping needs to know of one table row.
pub struct RowFacts {
    pub id: Seq<char>,
    pub drawn: bool,
    pub clipping: Option<ClippingView>,
}

/// The facts of each row of the drawable table whose rows are `res`.
pub open spec fn row_facts(ds: Seq<DrawableView>, res: Seq<usize>) -> Seq<RowFacts> {
    Seq::new(
        res.len(),
        |r: int|
            RowFacts {
                id: ds[res[r] as int].id,
                drawn: should_draw(ds[res[r] as int]),
                clipping: ds[res[r] as int].clipping,
            },
    )
}

/// Some row of the table has this id.
pub open spec fn is_resident_id(facts: Seq<RowFacts>, id: Seq<char>) -> bool {
    exists|r: int| 0 <= r < facts.len() && #[trigger] facts[r].id == id
}

/// The ids among `ids` that some row of the table has, in their order.
pub open spec fn resident_ids_in(facts: Seq<RowFacts>, ids: Seq<Seq<char>>) -> Seq<Seq<char>>
    decreases ids.len(),
{
    if ids.len() == 0 {
        Seq::empty()
    } else {
        let p = resident_ids_in(facts, ids.drop_last());
        if is_resident_id(facts, ids.last()) {
            p.push(ids.last())
        } else {
            p
        }
    }
}

/// A group of mask drawables, drawn together into one mask pass.
pub struct MaskKey {
    pub drawable_ids: Seq<Seq<char>>,
    pub inverted: bool,
}

/// The mask group that a row draws with: a drawn, clipped row whose clip names at
/// least one resident drawable.
pub open spec fn mask_key_of(facts: Seq<RowFacts>, row: int) -> Option<MaskKey> {
    let f = facts[row];
    if f.drawn {
        match f.clipping {
            Some(c) => {
                let ids = resident_ids_in(facts, c.drawable_ids);
                if ids.len() > 0 {
                    Some(MaskKey { drawable_ids: ids, inverted: c.inverted })
                } else {
                    None
                }
            },
            None => None,
        }
    } else {
        None
    }
}

/// The distinct mask groups of the first `t` rows in draw order, in order of first use.
pub open spec fn mask_keys_upto(facts: Seq<RowFacts>, rows: Seq<usize>, t: nat) -> Seq<MaskKey>
    decreases t,
{
    if t == 0 {
        Seq::empty()
    } else {
        let p = mask_keys_upto(facts, rows, (t - 1) as nat);
        match mask_key_of(facts, rows[t - 1] as int) {
            Some(k) => if p.contains(k) {
                p
            } else {
                p.push(k)
            },
            None => p,
        }
    }
}

pub open spec fn mask_keys(facts: Seq<RowFacts>, rows: Seq<usize>) -> Seq<MaskKey> {
    mask_keys_upto(facts, rows, rows.len())
}

/// Position of the first occurrence of `k` in `keys`, or -1.
pub open spec fn key_position(keys: Seq<MaskKey>, k: MaskKey) -> int
    decreases keys.len(),
{
    if keys.len() == 0 {
        -1
    } else {
        let p = key_position(keys.drop_last(), k);
        if p >= 0 {
            p
        } else if keys.last() == k {
            keys.len() - 1
        } else {
            -1
        }
    }
}

/// The mask pass each row draws with.
pub open spec fn mask_refs(facts: Seq<RowFacts>, rows: Seq<usize>) -> Seq<Option<MaskRef>> {
    Seq::new(
        facts.len(),
        |row: int|
            match mask_key_of(facts, row) {
                Some(k) => Some(MaskRef(key_position(mask_keys(facts, rows), k) as usize)),
                None => None,
            },
    )
}

pub proof fn lemma_key_position(keys: Seq<MaskKey>, k: MaskKey)
    ensures
        keys.contains(k) ==> 0 <= key_position(keys, k) < keys.len() && keys[key_position(keys, k)] == k,
        !keys.contains(k) ==> key_position(keys, k) == -1,
        forall|j: int| 0 <= j < key_position(keys, k) ==> keys[j] != k,
    decreases keys.len(),
{
    if keys.len() > 0 {
        let d = keys.drop_last();
        lemma_key_position(d, k);
        if d.contains(k) {
            let i = choose|i: int| 0 <= i < d.len() && d[i] == k;
            assert(keys[i] == k);
        }
        if keys.contains(k) && !d.contains(k) {
            let i = choose|i: int| 0 <= i < keys.len() && keys[i] == k;
            if i < d.len() {
                assert(d[i] == k);
            }
        }
        assert forall|j: int| 0 <= j < key_position(keys, k) implies keys[j] != k by {
            if d.contains(k) {
                assert(keys[j] == d[j]);
            } else {
                assert(keys[j] == d[j]);
                assert(!d.contains(k));
            }
        }
    }
}

pub proof fn lemma_key_position_push(keys: Seq<MaskKey>, x: MaskKey, k: MaskKey)
    requires
        keys.contains(k),
    ensures
        key_position(keys.push(x), k) == key_position(keys, k),
{
    lemma_key_position(keys, k);
    assert(keys.push(x).drop_last() == keys);
}

} // verus!
