//! Uniform spatial hash broad-phase.
//!
//! A fixed table of `2 * max_objects` cells indexes object positions by the
//! hash of their integer grid cell. [`SpatialHash::create`] rebuilds the
//! table from scratch with a three-pass counting sort; [`SpatialHash::query`]
//! gathers every entry stored under the cells of an axis-aligned box around
//! one object. Results may contain false positives (hash collisions and the
//! cell-size margin) and callers re-check exact distances, but no object
//! whose cell lies inside the scanned box is ever missed: see
//! [`lemma_query_complete`].

use vstd::prelude::*;

verus! {

use crate::fixed::{abs_i, tdiv, lemma_tdiv_bound, lemma_mul_bound};
use crate::vec3::{Vec3, V3, in_b, VLIM};
use vstd::arithmetic::div_mod::{
    lemma_fundamental_div_mod,
    lemma_div_is_ordered,
    lemma_small_div_converse,
};
use vstd::pervasive::VecAdditionalExecFns;

/// First hash multiplier.
pub const H1: u64 = 92_837_111;

/// Second hash multiplier.
pub const H2: u64 = 689_287_499;

/// Third hash multiplier.
pub const H3: u64 = 283_923_481;

/// `x` reduced into `[0, 2^64)`, as the 64-bit words the hash mixes.
pub open spec fn wrap_u64(x: int) -> u64 {
    (x % 0x10000000000000000) as u64
}

/// The cell hash: three multiplied words folded by exclusive or, reduced
/// modulo the table size.
pub open spec fn hash_cell(ts: int, xi: int, yi: int, zi: int) -> int {
    if 1 <= ts <= usize::MAX {
        let px = (((wrap_u64(xi) as int) * (H1 as int)) as u128);
        let py = (((wrap_u64(yi) as int) * (H2 as int)) as u128);
        let pz = (((wrap_u64(zi) as int) * (H3 as int)) as u128);
        ((px ^ py ^ pz) % (ts as u128)) as int
    } else {
        0
    }
}

/// The grid cell coordinate holding scalar `c`: `c / spacing` rounded
/// toward negative infinity.
pub open spec fn cell_coord(c: int, spacing: int) -> int {
    c / spacing
}

/// The hash of the cell holding position `p`.
pub open spec fn hash_of_pos(ts: int, spacing: int, p: V3) -> int {
    hash_cell(ts, cell_coord(p.x, spacing), cell_coord(p.y, spacing), cell_coord(p.z, spacing))
}

/// How many of the first `k` positions hash to cell `h`.
pub open spec fn count_upto(ps: Seq<V3>, spacing: int, ts: int, h: int, k: int) -> int
    decreases k,
{
    if k <= 0 {
        0
    } else {
        count_upto(ps, spacing, ts, h, k - 1) + if hash_of_pos(ts, spacing, ps[k - 1]) == h {
            1int
        } else {
            0int
        }
    }
}

/// How many of the first `n` positions hash below `h`: the start offset of
/// cell `h`'s run.
pub open spec fn cum_below(ps: Seq<V3>, spacing: int, ts: int, h: int, n: int) -> int
    decreases h,
{
    if h <= 0 {
        0
    } else {
        cum_below(ps, spacing, ts, h - 1, n) + count_upto(ps, spacing, ts, h - 1, n)
    }
}

/// Counts never exceed the number of positions counted.
pub proof fn lemma_count_bounds(ps: Seq<V3>, spacing: int, ts: int, h: int, k: int)
    ensures
        0 <= count_upto(ps, spacing, ts, h, k) <= if k <= 0 { 0 } else { k },
    decreases k,
{
    if k > 0 {
        lemma_count_bounds(ps, spacing, ts, h, k - 1);
    }
}

/// Counting one more position raises exactly the count of its own cell.
pub proof fn lemma_count_step(ps: Seq<V3>, spacing: int, ts: int, h: int, k: int)
    requires
        k >= 1,
    ensures
        count_upto(ps, spacing, ts, h, k) == count_upto(ps, spacing, ts, h, k - 1) + if hash_of_pos(
            ts,
            spacing,
            ps[k - 1],
        ) == h {
            1int
        } else {
            0int
        },
{
}

/// Counting over more positions never shrinks a cell's count.
pub proof fn lemma_count_mono(ps: Seq<V3>, spacing: int, ts: int, h: int, k1: int, k2: int)
    requires
        k1 <= k2,
    ensures
        count_upto(ps, spacing, ts, h, k1) <= count_upto(ps, spacing, ts, h, k2),
    decreases k2,
{
    if k2 > 0 && k1 < k2 {
        lemma_count_mono(ps, spacing, ts, h, k1, k2 - 1);
    }
}

/// Run offsets never decrease with the cell index.
pub proof fn lemma_cum_mono(ps: Seq<V3>, spacing: int, ts: int, h1: int, h2: int, n: int)
    requires
        h1 <= h2,
    ensures
        cum_below(ps, spacing, ts, h1, n) <= cum_below(ps, spacing, ts, h2, n),
    decreases h2,
{
    if h2 > 0 && h1 < h2 {
        lemma_cum_mono(ps, spacing, ts, h1, h2 - 1, n);
        lemma_count_bounds(ps, spacing, ts, h2 - 1, n);
    }
}

/// Extending the counted prefix by one position raises the offset of every
/// cell strictly beyond that position's cell by one.
proof fn lemma_cum_step(ps: Seq<V3>, spacing: int, ts: int, h: int, k: int)
    requires
        k >= 1,
    ensures
        cum_below(ps, spacing, ts, h, k) == cum_below(ps, spacing, ts, h, k - 1) + if hash_of_pos(
            ts,
            spacing,
            ps[k - 1],
        ) < h {
            1int
        } else {
            0int
        },
    decreases h,
{
    lemma_hash_nonneg(ts, spacing, ps[k - 1]);
    if h > 0 {
        lemma_cum_step(ps, spacing, ts, h - 1, k);
        lemma_count_step(ps, spacing, ts, h - 1, k);
    }
}

/// A cell hash is never negative.
pub proof fn lemma_hash_nonneg(ts: int, spacing: int, p: V3)
    ensures
        hash_of_pos(ts, spacing, p) >= 0,
{
}

/// All positions hash below the table size, so the offsets cover them all.
pub proof fn lemma_cum_total(ps: Seq<V3>, spacing: int, ts: int, n: int)
    requires
        0 <= n,
        forall|i: int| 0 <= i < n ==> 0 <= #[trigger] hash_of_pos(ts, spacing, ps[i]) < ts,
    ensures
        cum_below(ps, spacing, ts, ts, n) == n,
    decreases n,
{
    if n > 0 {
        lemma_cum_total(ps, spacing, ts, n - 1);
        lemma_cum_step(ps, spacing, ts, ts, n);
    } else {
        lemma_cum_zero(ps, spacing, ts, ts);
    }
}

/// With nothing counted every offset is zero.
pub proof fn lemma_cum_zero(ps: Seq<V3>, spacing: int, ts: int, h: int)
    ensures
        cum_below(ps, spacing, ts, h, 0) == 0,
    decreases h,
{
    if h > 0 {
        lemma_cum_zero(ps, spacing, ts, h - 1);
    }
}

/// The uniform spatial hash table.
pub struct SpatialHash {
    /// Grid cell edge length, a positive raw scalar.
    pub spacing: i64,
    /// Number of hash cells: twice the object capacity.
    pub table_size: usize,
    /// For each cell, where its run of entries starts; one guard slot at
    /// the end holds the total entry count.
    pub cell_start: Vec<usize>,
    /// Object indices, grouped into one contiguous run per cell.
    pub cell_entries: Vec<usize>,
    /// Output buffer of the latest query.
    pub query_ids: Vec<usize>,
    /// Number of valid indices in `query_ids`.
    pub query_size: usize,
}

impl SpatialHash {
    /// The structural invariant: a positive spacing, a nonempty table, a
    /// start offset per cell plus a guard, and runs that stay inside the
    /// entry buffer in ascending order.
    pub open spec fn wf(self) -> bool {
        &&& self.spacing >= 1
        &&& 1 <= self.table_size < usize::MAX
        &&& self.cell_start@.len() == self.table_size + 1
        &&& forall|h: int|
            0 <= h < self.table_size ==> #[trigger] self.cell_start@[h] <= self.cell_start@[h + 1]
        &&& self.cell_start@[self.table_size as int] <= self.cell_entries@.len()
        &&& self.query_size == self.query_ids@.len()
    }

    /// Allocates a table for `max_num_objects` objects with the given cell
    /// spacing.
    pub fn new(spacing: i64, max_num_objects: usize) -> (r: SpatialHash)
        requires
            spacing >= 1,
            1 <= max_num_objects <= usize::MAX / 4,
        ensures
            r.wf(),
            r.spacing == spacing,
            r.table_size == 2 * max_num_objects,
            r.cell_entries@.len() == max_num_objects,
            forall|h: int| 0 <= h <= r.table_size ==> #[trigger] r.cell_start@[h] == 0,
            r.query_ids@ =~= Seq::<usize>::empty(),
    {
        let table_size = 2 * max_num_objects;
        SpatialHash {
            spacing,
            table_size,
            cell_start: vec![0; table_size + 1],
            cell_entries: vec![0; max_num_objects],
            query_ids: Vec::new(),
            query_size: 0,
        }
    }

    /// The grid cell coordinate holding scalar `coord`.
    pub fn int_coord(&self, coord: i64) -> (r: i64)
        requires
            self.spacing >= 1,
        ensures
            r as int == cell_coord(coord as int, self.spacing as int),
            coord >= 0 ==> 0 <= r <= coord,
            coord <= 0 ==> coord <= r <= 0,
    {
        floor_div(coord, self.spacing)
    }

    /// Hashes one integer grid cell into a table slot.
    pub fn hash_coords(&self, xi: i64, yi: i64, zi: i64) -> (r: usize)
        requires
            self.table_size >= 1,
        ensures
            r as int == hash_cell(self.table_size as int, xi as int, yi as int, zi as int),
            r < self.table_size,
    {
        let px = mix(xi, H1);
        let py = mix(yi, H2);
        let pz = mix(zi, H3);
        let h = (px ^ py ^ pz) % (self.table_size as u128);
        h as usize
    }

    /// Hashes the cell holding position `p`.
    pub fn hash_pos(&self, p: Vec3) -> (r: usize)
        requires
            self.spacing >= 1,
            self.table_size >= 1,
        ensures
            r as int == hash_of_pos(self.table_size as int, self.spacing as int, p@),
            r < self.table_size,
    {
        self.hash_coords(self.int_coord(p.x), self.int_coord(p.y), self.int_coord(p.z))
    }
}

/// The mathematical values of a buffer of vectors.
pub open spec fn views(s: Seq<Vec3>) -> Seq<V3> {
    s.map_values(|v: Vec3| v@)
}

/// A cell hash lands inside the table.
pub proof fn lemma_hash_range(ts: int, spacing: int, p: V3)
    requires
        1 <= ts <= usize::MAX,
    ensures
        0 <= hash_of_pos(ts, spacing, p) < ts,
{
}

/// Entry `i` sits in the run of its position's cell: some slot between the
/// cell's start offset and the next cell's start offset holds `i`.
pub open spec fn placed(
    cs: Seq<usize>,
    es: Seq<usize>,
    ps: Seq<V3>,
    spacing: int,
    ts: int,
    i: int,
) -> bool {
    let h = hash_of_pos(ts, spacing, ps[i]);
    exists|j: int| cs[h] <= j < cs[h + 1] && 0 <= j < es.len() && es[j] == i
}

/// Every one of the first `n` positions is placed in its cell's run.
pub open spec fn indexes(
    cs: Seq<usize>,
    es: Seq<usize>,
    ps: Seq<V3>,
    spacing: int,
    ts: int,
    n: int,
) -> bool {
    forall|i: int| 0 <= i < n ==> #[trigger] placed(cs, es, ps, spacing, ts, i)
}

impl SpatialHash {
    /// Rebuilds the table from the given positions by counting sort: one
    /// pass counts each cell's objects, a prefix pass turns counts into
    /// start offsets, and a scatter pass places each object index into its
    /// cell's run. Positions beyond the table's capacity are ignored, as is
    /// any earlier content.
    #[verifier::rlimit(100)]
    pub fn create(&mut self, pos: &Vec<Vec3>)
        requires
            old(self).wf(),
        ensures
            final(self).wf(),
            final(self).spacing == old(self).spacing,
            final(self).table_size == old(self).table_size,
            final(self).cell_entries@.len() == old(self).cell_entries@.len(),
            final(self).query_ids == old(self).query_ids,
            final(self).query_size == old(self).query_size,
            ({
                let ps = views(pos@);
                let sp = old(self).spacing as int;
                let ts = old(self).table_size as int;
                let n = if pos@.len() <= old(self).cell_entries@.len() {
                    pos@.len() as int
                } else {
                    old(self).cell_entries@.len() as int
                };
                &&& forall|h: int|
                    0 <= h <= ts ==> #[trigger] final(self).cell_start@[h] as int == cum_below(
                        ps,
                        sp,
                        ts,
                        h,
                        n,
                    )
                &&& indexes(final(self).cell_start@, final(self).cell_entries@, ps, sp, ts, n)
                &&& final(self).cell_start@[ts] == n
                &&& forall|g: int, j: int|
                    #![trigger final(self).cell_start@[g], final(self).cell_entries@[j]]
                    0 <= g < ts && final(self).cell_start@[g] <= j < final(self).cell_start@[g + 1]
                        ==> 0 <= final(self).cell_entries@[j] < n
            }),
    {
        let ghost ps = views(pos@);
        let ghost sp = self.spacing as int;
        let ts = self.table_size;
        let n = if pos.len() <= self.cell_entries.len() {
            pos.len()
        } else {
            self.cell_entries.len()
        };
        proof {
            assert forall|i: int| 0 <= i < n implies 0 <= #[trigger] hash_of_pos(
                ts as int,
                sp,
                ps[i],
            ) < ts as int by {
                lemma_hash_range(ts as int, sp, ps[i]);
            }
        }

        // Pass 1: zero the counters, then count each cell's objects.
        let mut h: usize = 0;
        while h <= ts
            invariant
                self.spacing == old(self).spacing,
                self.table_size == old(self).table_size,
                self.cell_entries == old(self).cell_entries,
                self.query_ids == old(self).query_ids,
                self.query_size == old(self).query_size,
                self.cell_start@.len() == ts + 1,
                ts == old(self).table_size,
                ts < usize::MAX,
                h <= ts + 1,
                forall|g: int| 0 <= g < h ==> #[trigger] self.cell_start@[g] == 0,
            decreases ts + 1 - h,
        {
            self.cell_start.set(h, 0);
            h += 1;
        }

        let mut i: usize = 0;
        while i < n
            invariant
                self.spacing == old(self).spacing,
                self.table_size == old(self).table_size,
                self.cell_entries == old(self).cell_entries,
                self.query_ids == old(self).query_ids,
                self.query_size == old(self).query_size,
                self.cell_start@.len() == ts + 1,
                ts == old(self).table_size,
                sp == self.spacing as int,
                ts >= 1,
                self.spacing >= 1,
                i <= n,
                n <= pos@.len(),
                n <= self.cell_entries@.len(),
                ps == views(pos@),
                forall|g: int|
                    0 <= g < ts ==> #[trigger] self.cell_start@[g] as int == count_upto(
                        ps,
                        sp,
                        ts as int,
                        g,
                        i as int,
                    ),
                self.cell_start@[ts as int] == 0,
            decreases n - i,
        {
            let hh = self.hash_pos(pos[i]);
            proof {
                assert(ps[i as int] == pos@[i as int]@);
                lemma_count_bounds(ps, sp, ts as int, hh as int, i as int);
            }
            let c = self.cell_start[hh];
            self.cell_start.set(hh, c + 1);
            i += 1;
            proof {
                assert forall|g: int| 0 <= g < ts implies #[trigger] self.cell_start@[g] as int
                    == count_upto(ps, sp, ts as int, g, i as int) by {
                    lemma_count_step(ps, sp, ts as int, g, i as int);
                }
            }
        }

        // Pass 2: prefix sums turn counts into start offsets; each cell's
        // slot ends up holding the offset one past its own run, and the
        // guard slot holds the total.
        proof {
            lemma_cum_total(ps, sp, ts as int, n as int);
        }
        let mut start: usize = 0;
        let mut h: usize = 0;
        while h < ts
            invariant
                self.spacing == old(self).spacing,
                self.table_size == old(self).table_size,
                self.cell_entries == old(self).cell_entries,
                self.query_ids == old(self).query_ids,
                self.query_size == old(self).query_size,
                self.cell_start@.len() == ts + 1,
                ts == old(self).table_size,
                sp == self.spacing as int,
                ts >= 1,
                self.spacing >= 1,
                h <= ts,
                n <= pos@.len(),
                n <= self.cell_entries@.len(),
                ps == views(pos@),
                cum_below(ps, sp, ts as int, ts as int, n as int) == n as int,
                start as int == cum_below(ps, sp, ts as int, h as int, n as int),
                start <= n,
                forall|g: int|
                    0 <= g < h ==> #[trigger] self.cell_start@[g] as int == cum_below(
                        ps,
                        sp,
                        ts as int,
                        g + 1,
                        n as int,
                    ),
                forall|g: int|
                    h <= g < ts ==> #[trigger] self.cell_start@[g] as int == count_upto(
                        ps,
                        sp,
                        ts as int,
                        g,
                        n as int,
                    ),
                self.cell_start@[ts as int] == 0,
            decreases ts - h,
        {
            let c = self.cell_start[h];
            proof {
                lemma_count_bounds(ps, sp, ts as int, h as int, n as int);
                lemma_cum_mono(ps, sp, ts as int, h as int + 1, ts as int, n as int);
            }
            start = start + c;
            self.cell_start.set(h, start);
            h += 1;
        }
        self.cell_start.set(ts, start);
        proof {
            assert forall|g: int|
                0 <= g < ts implies cum_below(ps, sp, ts as int, g, n as int)
                <= #[trigger] self.cell_start@[g] as int by {
                lemma_cum_mono(ps, sp, ts as int, g, g + 1, n as int);
            }
        }

        // Pass 3: scatter. Each object decrements its cell's offset and
        // drops its index there, filling every run from its top downward.
        let mut i: usize = 0;
        while i < n
            invariant
                self.spacing == old(self).spacing,
                self.table_size == old(self).table_size,
                self.cell_entries@.len() == old(self).cell_entries@.len(),
                self.query_ids == old(self).query_ids,
                self.query_size == old(self).query_size,
                self.cell_start@.len() == ts + 1,
                ts == old(self).table_size,
                sp == self.spacing as int,
                ts >= 1,
                self.spacing >= 1,
                i <= n,
                n <= pos@.len(),
                n <= self.cell_entries@.len(),
                ps == views(pos@),
                cum_below(ps, sp, ts as int, ts as int, n as int) == n as int,
                forall|ii: int| 0 <= ii < n ==> 0 <= #[trigger] hash_of_pos(ts as int, sp, ps[ii])
                    < ts as int,
                forall|g: int|
                    0 <= g < ts ==> #[trigger] self.cell_start@[g] as int == cum_below(
                        ps,
                        sp,
                        ts as int,
                        g + 1,
                        n as int,
                    ) - count_upto(ps, sp, ts as int, g, i as int),
                forall|g: int|
                    0 <= g < ts ==> cum_below(ps, sp, ts as int, g, n as int)
                        <= #[trigger] self.cell_start@[g] as int,
                self.cell_start@[ts as int] == n,
                forall|i0: int|
                    0 <= i0 < i ==> #[trigger] placed_interim(
                        self.cell_start@,
                        self.cell_entries@,
                        ps,
                        sp,
                        ts as int,
                        n as int,
                        i0,
                    ),
                forall|g: int, j: int|
                    #![trigger self.cell_start@[g], self.cell_entries@[j]]
                    0 <= g < ts && self.cell_start@[g] <= j < cum_below(ps, sp, ts as int, g + 1,
                        n as int,
                    ) ==> 0 <= self.cell_entries@[j] < n,
            decreases n - i,
        {
            let hh = self.hash_pos(pos[i]);
            proof {
                assert(ps[i as int] == pos@[i as int]@);
                lemma_count_step(ps, sp, ts as int, hh as int, i as int + 1);
                lemma_count_mono(ps, sp, ts as int, hh as int, i as int + 1, n as int);
                lemma_count_bounds(ps, sp, ts as int, hh as int, i as int);
                lemma_cum_mono(ps, sp, ts as int, 0, hh as int, n as int);
                lemma_cum_mono(ps, sp, ts as int, hh as int + 1, ts as int, n as int);
                lemma_cum_zero(ps, sp, ts as int, 0);
                assert(cum_below(ps, sp, ts as int, hh as int + 1, n as int) == cum_below(
                    ps,
                    sp,
                    ts as int,
                    hh as int,
                    n as int,
                ) + count_upto(ps, sp, ts as int, hh as int, n as int));
            }
            let c = self.cell_start[hh];
            let ghost cs0 = self.cell_start@;
            let ghost es0 = self.cell_entries@;
            self.cell_start.set(hh, c - 1);
            self.cell_entries.set(c - 1, i);
            proof {
                let tsi = ts as int;
                let ni = n as int;
                let cs1 = self.cell_start@;
                let es1 = self.cell_entries@;
                // The write position sits inside this cell's run, below
                // every slot already holding one of its objects.
                assert(c as int - 1 >= cum_below(ps, sp, tsi, hh as int, ni));
                assert(c as int - 1 < cum_below(ps, sp, tsi, hh as int + 1, ni));
                assert forall|g: int| 0 <= g < tsi implies #[trigger] cs1[g] as int == cum_below(
                    ps,
                    sp,
                    tsi,
                    g + 1,
                    ni,
                ) - count_upto(ps, sp, tsi, g, i as int + 1) by {
                    lemma_count_step(ps, sp, tsi, g, i as int + 1);
                }
                assert forall|i0: int| 0 <= i0 < i as int + 1 implies #[trigger] placed_interim(
                    cs1,
                    es1,
                    ps,
                    sp,
                    tsi,
                    ni,
                    i0,
                ) by {
                    let h0 = hash_of_pos(tsi, sp, ps[i0]);
                    if i0 == i as int {
                        assert(es1[c as int - 1] == i0);
                        assert(cs1[h0] == c - 1);
                    } else {
                        assert(placed_interim(cs0, es0, ps, sp, tsi, ni, i0));
                        let j = choose|j: int|
                            cs0[h0] <= j < cum_below(ps, sp, tsi, h0 + 1, ni) && 0 <= j
                                < es0.len() && es0[j] == i0;
                        if h0 == hh as int {
                            assert(j >= c);
                            assert(es1[j] == i0);
                            assert(cs1[h0] <= j);
                        } else {
                            if h0 < hh as int {
                                lemma_cum_mono(ps, sp, tsi, h0 + 1, hh as int, ni);
                                assert(j < cum_below(ps, sp, tsi, h0 + 1, ni));
                                assert(j < c as int - 1);
                            } else {
                                lemma_cum_mono(ps, sp, tsi, hh as int + 1, h0, ni);
                                assert(cs0[h0] as int >= cum_below(ps, sp, tsi, h0, ni));
                                assert(j >= cum_below(ps, sp, tsi, h0, ni));
                                assert(cum_below(ps, sp, tsi, h0, ni) >= cum_below(ps, sp, tsi,
                                    hh as int + 1, ni));
                                assert(j > c as int - 1);
                            }
                            assert(j != c as int - 1);
                            assert(0 <= j < es0.len());
                            assert(es1[j] == i0);
                            assert(cs1[h0] == cs0[h0]);
                        }
                    }
                }
                assert forall|g: int, j: int|
                    #![trigger cs1[g], es1[j]]
                    0 <= g < tsi && cs1[g] <= j < cum_below(ps, sp, tsi, g + 1, ni) implies 0
                    <= es1[j] < n by {
                    lemma_cum_mono(ps, sp, tsi, g + 1, tsi, ni);
                    if j == c as int - 1 {
                        assert(es1[j] == i);
                    } else {
                        if g == hh as int {
                            assert(cs0[g] <= j);
                        } else {
                            assert(cs1[g] == cs0[g]);
                        }
                        assert(0 <= j < es0.len());
                        assert(es1[j] == es0[j]);
                    }
                }
            }
            i += 1;
        }

        // The final offsets are exactly the run starts.
        proof {
            let tsi = ts as int;
            let ni = n as int;
            assert forall|h: int| 0 <= h <= tsi implies #[trigger] self.cell_start@[h] as int
                == cum_below(ps, sp, tsi, h, ni) by {
                if h < tsi {
                    assert(cum_below(ps, sp, tsi, h + 1, ni) == cum_below(ps, sp, tsi, h, ni)
                        + count_upto(ps, sp, tsi, h, ni));
                }
            }
            assert forall|i0: int| 0 <= i0 < ni implies #[trigger] placed(
                self.cell_start@,
                self.cell_entries@,
                ps,
                sp,
                tsi,
                i0,
            ) by {
                let h0 = hash_of_pos(tsi, sp, ps[i0]);
                assert(placed_interim(self.cell_start@, self.cell_entries@, ps, sp, tsi, ni, i0));
                assert(self.cell_start@[h0 + 1] as int == cum_below(ps, sp, tsi, h0 + 1, ni));
            }
            assert forall|h: int| 0 <= h < tsi implies #[trigger] self.cell_start@[h]
                <= self.cell_start@[h + 1] by {
                lemma_cum_mono(ps, sp, tsi, h, h + 1, ni);
            }
        }
    }
}

/// During the scatter pass entry `i` already sits between its cell's
/// current (still descending) offset and the cell's final end offset.
pub open spec fn placed_interim(
    cs: Seq<usize>,
    es: Seq<usize>,
    ps: Seq<V3>,
    spacing: int,
    ts: int,
    n: int,
    i: int,
) -> bool {
    let h = hash_of_pos(ts, spacing, ps[i]);
    exists|j: int|
        cs[h] <= j < cum_below(ps, spacing, ts, h + 1, n) && 0 <= j < es.len() && es[j] == i
}

/// Some slot of cell slot `h`'s run holds the value `v`.
pub open spec fn run_elem(cs: Seq<usize>, es: Seq<usize>, h: int, v: usize) -> bool {
    exists|j: int| #![trigger es[j]] cs[h] <= j < cs[h + 1] && 0 <= j < es.len() && es[j] == v
}

/// Some slot in `[lo, hi)` of the entry buffer holds the value `v`.
pub open spec fn run_elem_upto(es: Seq<usize>, lo: int, hi: int, v: usize) -> bool {
    exists|j: int| #![trigger es[j]] lo <= j < hi && 0 <= j < es.len() && es[j] == v
}

/// Every entry stored under cell `(xi, yi, zi)`'s hash appears in `ids`.
pub open spec fn covers(
    cs: Seq<usize>,
    es: Seq<usize>,
    ids: Seq<usize>,
    ts: int,
    xi: int,
    yi: int,
    zi: int,
) -> bool {
    forall|j: int|
        cs[hash_cell(ts, xi, yi, zi)] <= j < cs[hash_cell(ts, xi, yi, zi) + 1] && 0 <= j
            < es.len() ==> ids.contains(#[trigger] es[j])
}

/// `v` is one of the entries stored under some cell of the scanned box.
pub open spec fn from_scanned(
    cs: Seq<usize>,
    es: Seq<usize>,
    ts: int,
    x0: int,
    x1: int,
    y0: int,
    y1: int,
    z0: int,
    z1: int,
    v: usize,
) -> bool {
    exists|xi: int, yi: int, zi: int|
        #![trigger hash_cell(ts, xi, yi, zi)]
        x0 <= xi <= x1 && y0 <= yi <= y1 && z0 <= zi <= z1 && run_elem(
            cs,
            es,
            hash_cell(ts, xi, yi, zi),
            v,
        )
}

/// Extending the result buffer preserves coverage of a cell.
proof fn lemma_covers_grow(
    cs: Seq<usize>,
    es: Seq<usize>,
    ids0: Seq<usize>,
    ids1: Seq<usize>,
    ts: int,
    xi: int,
    yi: int,
    zi: int,
)
    requires
        covers(cs, es, ids0, ts, xi, yi, zi),
        ids0.len() <= ids1.len(),
        forall|k: int| 0 <= k < ids0.len() ==> ids1[k] == ids0[k],
    ensures
        covers(cs, es, ids1, ts, xi, yi, zi),
{
    assert forall|j: int|
        cs[hash_cell(ts, xi, yi, zi)] <= j < cs[hash_cell(ts, xi, yi, zi) + 1] && 0 <= j
            < es.len() implies ids1.contains(#[trigger] es[j]) by {
        assert(ids0.contains(es[j]));
        let k = choose|k: int| 0 <= k < ids0.len() && ids0[k] == es[j];
        assert(ids1[k] == es[j]);
    }
}

/// A value found below `hi1` is also found below a larger `hi2`.
proof fn lemma_run_upto_widen(es: Seq<usize>, lo: int, hi1: int, hi2: int, v: usize)
    requires
        run_elem_upto(es, lo, hi1, v),
        hi1 <= hi2,
    ensures
        run_elem_upto(es, lo, hi2, v),
{
    let j = choose|j: int| lo <= j < hi1 && 0 <= j < es.len() && es[j] == v;
    assert(lo <= j < hi2 && 0 <= j < es.len() && es[j] == v);
}

/// Start offsets grow with the cell index.
pub proof fn lemma_start_chain(cs: Seq<usize>, ts: int, h1: int, h2: int)
    requires
        0 <= h1 <= h2 <= ts,
        cs.len() == ts + 1,
        forall|h: int| 0 <= h < ts ==> #[trigger] cs[h] <= cs[h + 1],
    ensures
        cs[h1] <= cs[h2],
    decreases h2 - h1,
{
    if h1 < h2 {
        lemma_start_chain(cs, ts, h1, h2 - 1);
        assert(cs[h2 - 1] <= cs[h2]);
    }
}

impl SpatialHash {
    /// Appends every entry of cell slot `h`'s run to the result buffer.
    #[verifier::rlimit(100)]
    fn push_run(&mut self, h: usize)
        requires
            old(self).wf(),
            h < old(self).table_size,
        ensures
            final(self).wf(),
            final(self).spacing == old(self).spacing,
            final(self).table_size == old(self).table_size,
            final(self).cell_start == old(self).cell_start,
            final(self).cell_entries == old(self).cell_entries,
            old(self).query_ids@.len() <= final(self).query_ids@.len(),
            forall|k: int|
                0 <= k < old(self).query_ids@.len() ==> final(self).query_ids@[k] == old(
                    self,
                ).query_ids@[k],
            forall|j: int|
                old(self).cell_start@[h as int] <= j < old(self).cell_start@[h as int + 1] && 0
                    <= j < old(self).cell_entries@.len() ==> final(self).query_ids@.contains(
                    #[trigger] old(self).cell_entries@[j],
                ),
            forall|k: int|
                old(self).query_ids@.len() <= k < final(self).query_ids@.len() ==> run_elem(
                    old(self).cell_start@,
                    old(self).cell_entries@,
                    h as int,
                    #[trigger] final(self).query_ids@[k],
                ),
    {
        let start = self.cell_start[h];
        let end = self.cell_start[h + 1];
        proof {
            lemma_start_chain(
                self.cell_start@,
                self.table_size as int,
                h as int + 1,
                self.table_size as int,
            );
        }
        let mut j = start;
        while j < end
            invariant
                self.spacing == old(self).spacing,
                self.table_size == old(self).table_size,
                self.cell_start == old(self).cell_start,
                self.cell_entries == old(self).cell_entries,
                self.query_size == old(self).query_size,
                old(self).wf(),
                h < self.table_size,
                start == self.cell_start@[h as int],
                end == self.cell_start@[h as int + 1],
                start <= j <= end,
                end <= self.cell_entries@.len(),
                old(self).query_ids@.len() <= self.query_ids@.len(),
                forall|k: int|
                    0 <= k < old(self).query_ids@.len() ==> self.query_ids@[k] == old(
                        self,
                    ).query_ids@[k],
                forall|jj: int|
                    start <= jj < j ==> self.query_ids@.contains(
                        #[trigger] self.cell_entries@[jj],
                    ),
                forall|k: int|
                    old(self).query_ids@.len() <= k < self.query_ids@.len() ==> run_elem_upto(
                        self.cell_entries@,
                        start as int,
                        j as int,
                        #[trigger] self.query_ids@[k],
                    ),
            decreases end - j,
        {
            let e = self.cell_entries[j];
            let ghost ids0 = self.query_ids@;
            self.query_ids.push(e);
            proof {
                let ids1 = self.query_ids@;
                let es = self.cell_entries@;
                assert(ids1[ids0.len() as int] == e);
                assert forall|jj: int| start <= jj < j + 1 implies ids1.contains(
                    #[trigger] es[jj],
                ) by {
                    if jj < j {
                        assert(ids0.contains(es[jj]));
                        let k = choose|k: int| 0 <= k < ids0.len() && ids0[k] == es[jj];
                        assert(ids1[k] == es[jj]);
                    } else {
                        assert(ids1[ids0.len() as int] == es[jj]);
                    }
                }
                assert forall|k: int|
                    old(self).query_ids@.len() <= k < ids1.len() implies run_elem_upto(
                    es,
                    start as int,
                    j as int + 1,
                    #[trigger] ids1[k],
                ) by {
                    if k < ids0.len() {
                        assert(run_elem_upto(es, start as int, j as int, ids0[k]));
                        lemma_run_upto_widen(es, start as int, j as int, j as int + 1, ids0[k]);
                        assert(ids1[k] == ids0[k]);
                    } else {
                        assert(es[j as int] == ids1[k]);
                        assert(start <= (j as int) && (j as int) < (j as int) + 1 && 0 <= (j as int) && (j as int) < es.len());
                    }
                }
            }
            j += 1;
        }
        self.query_size = self.query_ids.len();
        proof {
            assert forall|k: int|
                old(self).query_ids@.len() <= k < self.query_ids@.len() implies run_elem(
                old(self).cell_start@,
                old(self).cell_entries@,
                h as int,
                #[trigger] self.query_ids@[k],
            ) by {
                assert(run_elem_upto(
                    self.cell_entries@,
                    start as int,
                    end as int,
                    self.query_ids@[k],
                ));
            }
        }
    }

    /// Gathers into the result buffer every entry stored under the cells of
    /// the box spanning `max_dist` around object `nr`'s position. Everything
    /// indexed under a scanned cell is returned (see
    /// [`lemma_query_complete`]), and nothing else.
    #[verifier::rlimit(100)]
    pub fn query(&mut self, pos: &Vec<Vec3>, nr: usize, max_dist: i64)
        requires
            old(self).wf(),
            nr < pos@.len(),
            in_b(pos@[nr as int]@, VLIM as int),
            0 <= max_dist <= VLIM,
        ensures
            final(self).wf(),
            final(self).spacing == old(self).spacing,
            final(self).table_size == old(self).table_size,
            final(self).cell_start == old(self).cell_start,
            final(self).cell_entries == old(self).cell_entries,
            final(self).query_size == final(self).query_ids@.len(),
            ({
                let p = pos@[nr as int]@;
                let sp = old(self).spacing as int;
                let ts = old(self).table_size as int;
                let x0 = cell_coord(p.x - max_dist, sp);
                let x1 = cell_coord(p.x + max_dist, sp);
                let y0 = cell_coord(p.y - max_dist, sp);
                let y1 = cell_coord(p.y + max_dist, sp);
                let z0 = cell_coord(p.z - max_dist, sp);
                let z1 = cell_coord(p.z + max_dist, sp);
                &&& forall|a: int, b: int, c: int|
                    x0 <= a <= x1 && y0 <= b <= y1 && z0 <= c <= z1 ==> #[trigger] covers(
                        final(self).cell_start@,
                        final(self).cell_entries@,
                        final(self).query_ids@,
                        ts,
                        a,
                        b,
                        c,
                    )
                &&& forall|k: int|
                    0 <= k < final(self).query_ids@.len() ==> from_scanned(
                        final(self).cell_start@,
                        final(self).cell_entries@,
                        ts,
                        x0,
                        x1,
                        y0,
                        y1,
                        z0,
                        z1,
                        #[trigger] final(self).query_ids@[k],
                    )
            }),
    {
        let p = pos[nr];
        let x0 = self.int_coord(p.x - max_dist);
        let x1 = self.int_coord(p.x + max_dist);
        let y0 = self.int_coord(p.y - max_dist);
        let y1 = self.int_coord(p.y + max_dist);
        let z0 = self.int_coord(p.z - max_dist);
        let z1 = self.int_coord(p.z + max_dist);
        let ghost ts = self.table_size as int;
        self.query_ids.clear();
        self.query_size = 0;

        let mut xi = x0;
        while xi <= x1
            invariant
                self.spacing == old(self).spacing,
                self.table_size == old(self).table_size,
                self.cell_start == old(self).cell_start,
                self.cell_entries == old(self).cell_entries,
                self.query_size == self.query_ids@.len(),
                old(self).wf(),
                self.wf(),
                ts == self.table_size as int,
                x1 < i64::MAX,
                y1 < i64::MAX,
                z1 < i64::MAX,
                x0 <= xi <= x1 + 1 || xi == x0,
                forall|a: int, b: int, c: int|
                    x0 <= a < xi && y0 <= b <= y1 && z0 <= c <= z1 ==> #[trigger] covers(
                        self.cell_start@,
                        self.cell_entries@,
                        self.query_ids@,
                        ts,
                        a,
                        b,
                        c,
                    ),
                forall|k: int|
                    0 <= k < self.query_ids@.len() ==> from_scanned(
                        self.cell_start@,
                        self.cell_entries@,
                        ts,
                        x0 as int,
                        x1 as int,
                        y0 as int,
                        y1 as int,
                        z0 as int,
                        z1 as int,
                        #[trigger] self.query_ids@[k],
                    ),
            decreases x1 + 1 - xi,
        {
            let mut yi = y0;
            while yi <= y1
                invariant
                    self.spacing == old(self).spacing,
                    self.table_size == old(self).table_size,
                    self.cell_start == old(self).cell_start,
                    self.cell_entries == old(self).cell_entries,
                    self.query_size == self.query_ids@.len(),
                    old(self).wf(),
                    self.wf(),
                    ts == self.table_size as int,
                    x0 <= xi <= x1,
                    y1 < i64::MAX,
                    z1 < i64::MAX,
                    y0 <= yi <= y1 + 1 || yi == y0,
                    forall|a: int, b: int, c: int|
                        x0 <= a < xi && y0 <= b <= y1 && z0 <= c <= z1 ==> #[trigger] covers(
                            self.cell_start@,
                            self.cell_entries@,
                            self.query_ids@,
                            ts,
                            a,
                            b,
                            c,
                        ),
                    forall|b: int, c: int|
                        y0 <= b < yi && z0 <= c <= z1 ==> #[trigger] covers(
                            self.cell_start@,
                            self.cell_entries@,
                            self.query_ids@,
                            ts,
                            xi as int,
                            b,
                            c,
                        ),
                    forall|k: int|
                        0 <= k < self.query_ids@.len() ==> from_scanned(
                            self.cell_start@,
                            self.cell_entries@,
                            ts,
                            x0 as int,
                            x1 as int,
                            y0 as int,
                            y1 as int,
                            z0 as int,
                            z1 as int,
                            #[trigger] self.query_ids@[k],
                        ),
                decreases y1 + 1 - yi,
            {
                let mut zi = z0;
                while zi <= z1
                    invariant
                        self.spacing == old(self).spacing,
                        self.table_size == old(self).table_size,
                        self.cell_start == old(self).cell_start,
                        self.cell_entries == old(self).cell_entries,
                        self.query_size == self.query_ids@.len(),
                        old(self).wf(),
                        self.wf(),
                        ts == self.table_size as int,
                        x0 <= xi <= x1,
                        y0 <= yi <= y1,
                        z1 < i64::MAX,
                        z0 <= zi <= z1 + 1 || zi == z0,
                        forall|a: int, b: int, c: int|
                            x0 <= a < xi && y0 <= b <= y1 && z0 <= c <= z1 ==> #[trigger] covers(
                                self.cell_start@,
                                self.cell_entries@,
                                self.query_ids@,
                                ts,
                                a,
                                b,
                                c,
                            ),
                        forall|b: int, c: int|
                            y0 <= b < yi && z0 <= c <= z1 ==> #[trigger] covers(
                                self.cell_start@,
                                self.cell_entries@,
                                self.query_ids@,
                                ts,
                                xi as int,
                                b,
                                c,
                            ),
                        forall|c: int|
                            z0 <= c < zi ==> #[trigger] covers(
                                self.cell_start@,
                                self.cell_entries@,
                                self.query_ids@,
                                ts,
                                xi as int,
                                yi as int,
                                c,
                            ),
                        forall|k: int|
                            0 <= k < self.query_ids@.len() ==> from_scanned(
                                self.cell_start@,
                                self.cell_entries@,
                                ts,
                                x0 as int,
                                x1 as int,
                                y0 as int,
                                y1 as int,
                                z0 as int,
                                z1 as int,
                                #[trigger] self.query_ids@[k],
                            ),
                    decreases z1 + 1 - zi,
                {
                    let h = self.hash_coords(xi, yi, zi);
                    let ghost ids0 = self.query_ids@;
                    let ghost cs = self.cell_start@;
                    let ghost es = self.cell_entries@;
                    self.push_run(h);
                    proof {
                        let ids1 = self.query_ids@;
                        assert forall|a: int, b: int, c: int|
                            x0 <= a < xi && y0 <= b <= y1 && z0 <= c <= z1 implies #[trigger] covers(
                            cs,
                            es,
                            ids1,
                            ts,
                            a,
                            b,
                            c,
                        ) by {
                            lemma_covers_grow(cs, es, ids0, ids1, ts, a, b, c);
                        }
                        assert forall|b: int, c: int|
                            y0 <= b < yi && z0 <= c <= z1 implies #[trigger] covers(
                            cs,
                            es,
                            ids1,
                            ts,
                            xi as int,
                            b,
                            c,
                        ) by {
                            lemma_covers_grow(cs, es, ids0, ids1, ts, xi as int, b, c);
                        }
                        assert forall|c: int| z0 <= c < zi + 1 implies #[trigger] covers(
                            cs,
                            es,
                            ids1,
                            ts,
                            xi as int,
                            yi as int,
                            c,
                        ) by {
                            if c < zi {
                                lemma_covers_grow(cs, es, ids0, ids1, ts, xi as int, yi as int, c);
                            } else {
                                assert(h as int == hash_cell(ts, xi as int, yi as int, zi as int));
                            }
                        }
                        assert forall|k: int| 0 <= k < ids1.len() implies from_scanned(
                            cs,
                            es,
                            ts,
                            x0 as int,
                            x1 as int,
                            y0 as int,
                            y1 as int,
                            z0 as int,
                            z1 as int,
                            #[trigger] ids1[k],
                        ) by {
                            if k < ids0.len() {
                                assert(ids1[k] == ids0[k]);
                                assert(from_scanned(cs, es, ts, x0 as int, x1 as int, y0 as int,
                                    y1 as int, z0 as int, z1 as int, ids0[k]));
                            } else {
                                assert(run_elem(cs, es, h as int, ids1[k]));
                                assert(h as int == hash_cell(ts, xi as int, yi as int, zi as int));
                                assert(x0 as int <= xi as int <= x1 as int && y0 as int
                                    <= yi as int <= y1 as int && z0 as int <= zi as int
                                    <= z1 as int && run_elem(
                                    cs,
                                    es,
                                    hash_cell(ts, xi as int, yi as int, zi as int),
                                    ids1[k],
                                ));
                            }
                        }
                    }
                    zi += 1;
                }
                yi += 1;
            }
            xi += 1;
        }
    }
}

/// Broad-phase completeness: after [`SpatialHash::create`] has indexed `n`
/// positions and [`SpatialHash::query`] has scanned the box of radius `r`
/// around `center`, every object within raw distance `r` of `center` is in
/// the result buffer — the brute-force neighbour set is a subset of the
/// query's answer.
pub proof fn lemma_query_complete(
    cs: Seq<usize>,
    es: Seq<usize>,
    ps: Seq<V3>,
    ids: Seq<usize>,
    spacing: int,
    ts: int,
    n: int,
    center: V3,
    r: int,
    i: int,
)
    requires
        spacing >= 1,
        indexes(cs, es, ps, spacing, ts, n),
        0 <= i < n,
        crate::vec3::v_len(crate::vec3::v_sub(ps[i], center)) <= r,
        forall|a: int, b: int, c: int|
            cell_coord(center.x - r, spacing) <= a <= cell_coord(center.x + r, spacing)
                && cell_coord(center.y - r, spacing) <= b <= cell_coord(center.y + r, spacing)
                && cell_coord(center.z - r, spacing) <= c <= cell_coord(center.z + r, spacing)
                ==> #[trigger] covers(cs, es, ids, ts, a, b, c),
    ensures
        exists|k: int| 0 <= k < ids.len() && ids[k] == i,
{
    let d = crate::vec3::v_sub(ps[i], center);
    crate::vec3::lemma_comp_le_len(d);
    assert(abs_i(d.x) <= r && abs_i(d.y) <= r && abs_i(d.z) <= r);
    let a = cell_coord(ps[i].x, spacing);
    let b = cell_coord(ps[i].y, spacing);
    let c = cell_coord(ps[i].z, spacing);
    lemma_div_is_ordered(center.x - r, ps[i].x, spacing);
    lemma_div_is_ordered(ps[i].x, center.x + r, spacing);
    lemma_div_is_ordered(center.y - r, ps[i].y, spacing);
    lemma_div_is_ordered(ps[i].y, center.y + r, spacing);
    lemma_div_is_ordered(center.z - r, ps[i].z, spacing);
    lemma_div_is_ordered(ps[i].z, center.z + r, spacing);
    assert(covers(cs, es, ids, ts, a, b, c));
    assert(placed(cs, es, ps, spacing, ts, i));
    let h = hash_of_pos(ts, spacing, ps[i]);
    let j = choose|j: int| cs[h] <= j < cs[h + 1] && 0 <= j < es.len() && es[j] == i;
    assert(hash_cell(ts, a, b, c) == h);
    assert(ids.contains(es[j]));
    let k = choose|k: int| 0 <= k < ids.len() && ids[k] == es[j];
    assert(ids[k] == i);
}

/// One mixed word of the cell hash: the coordinate reduced to 64 bits and
/// spread by a multiplier.
fn mix(c: i64, m: u64) -> (r: u128)
    requires
        m <= 0xffffffff,
    ensures
        r as int == (wrap_u64(c as int) as int) * (m as int),
{
    let w: u64 = if c >= 0 {
        proof {
            lemma_small_mod_pos(c as int);
        }
        c as u64
    } else {
        proof {
            lemma_small_mod_neg(c as int);
        }
        ((c as i128) + 0x10000000000000000i128) as u64
    };
    proof {
        lemma_mul_bound(w as int, m as int, 0xffffffffffffffff, 0xffffffff);
    }
    (w as u128) * (m as u128)
}

/// A nonnegative 64-bit value is its own 64-bit remainder.
proof fn lemma_small_mod_pos(c: int)
    requires
        0 <= c < 0x10000000000000000,
    ensures
        c % 0x10000000000000000 == c,
{
    lemma_small_div_converse(c, 0x10000000000000000);
    lemma_fundamental_div_mod(c, 0x10000000000000000);
}

/// A negative 64-bit value's 64-bit remainder is the value plus `2^64`.
proof fn lemma_small_mod_neg(c: int)
    requires
        -0x10000000000000000 <= c < 0,
    ensures
        c % 0x10000000000000000 == c + 0x10000000000000000,
{
    lemma_small_mod_pos(c + 0x10000000000000000);
    vstd::arithmetic::div_mod::lemma_mod_add_multiples_vanish(c, 0x10000000000000000);
}

/// Signed division rounded toward negative infinity, matching the spec
/// `/` on `int` for a positive divisor.
pub fn floor_div(a: i64, b: i64) -> (r: i64)
    requires
        b >= 1,
    ensures
        r as int == a as int / b as int,
        a >= 0 ==> 0 <= r <= a,
        a <= 0 ==> a <= r <= 0,
{
    let q = crate::fixed::div_i128(a as i128, b as i128);
    proof {
        lemma_tdiv_bound(a as int, b as int);
        lemma_mul_bound(q as int, b as int, abs_i(a as int), b as int);
        assert((abs_i(a as int)) * (b as int) < 0x40000000000000000000000000000000)
            by (nonlinear_arith)
            requires
                abs_i(a as int) <= 0x8000000000000000,
                0 <= b as int <= 0x8000000000000000,
        ;
        lemma_floor_from_tdiv(a as int, b as int);
    }
    let exact = q * (b as i128) == (a as i128);
    if a >= 0 || exact {
        q as i64
    } else {
        proof {
            lemma_fundamental_div_mod(a as int, b as int);
            assert(a as int <= a as int / b as int <= 0) by (nonlinear_arith)
                requires
                    a as int == (a as int / b as int) * (b as int) + (a as int % b as int),
                    0 <= (a as int) % (b as int),
                    (a as int) % (b as int) < (b as int),
                    b as int >= 1,
                    (a as int) < 0,
            ;
        }
        (q - 1) as i64
    }
}

/// Relates truncated and floored division: they agree on nonnegative
/// dividends and on exact quotients, and differ by one otherwise.
proof fn lemma_floor_from_tdiv(a: int, b: int)
    requires
        b >= 1,
    ensures
        a >= 0 ==> tdiv(a, b) == a / b,
        a < 0 && tdiv(a, b) * b == a ==> tdiv(a, b) == a / b,
        a < 0 && tdiv(a, b) * b != a ==> tdiv(a, b) - 1 == a / b,
{
    if a >= 0 {
    } else {
        let p = -a;
        let q = p / b;
        let r = p % b;
        lemma_fundamental_div_mod(p, b);
        assert(p == q * b + r);
        assert(a == (-q) * b - r) by (nonlinear_arith)
            requires p == q * b + r, a == -p;
        if r == 0 {
            assert(tdiv(a, b) == -q);
            assert(a == (-q) * b);
            lemma_div_exact_neg(a, b, -q);
            assert(tdiv(a, b) * b == a) by (nonlinear_arith)
                requires tdiv(a, b) == -q, a == (-q) * b;
        } else {
            assert(a == (-q - 1) * b + (b - r)) by (nonlinear_arith)
                requires a == (-q) * b - r;
            vstd::arithmetic::div_mod::lemma_fundamental_div_mod_converse(
                a, b, -q - 1, b - r,
            );
            assert(a / b == -q - 1);
            assert(tdiv(a, b) == -q);
            assert(tdiv(a, b) * b != a) by (nonlinear_arith)
                requires
                    tdiv(a, b) == -q,
                    a == (-q) * b - r,
                    0 < r < b,
        }
    }
}

/// A multiple of the divisor divides exactly.
proof fn lemma_div_exact_neg(a: int, b: int, q: int)
    requires
        b >= 1,
        a == q * b,
    ensures
        a / b == q,
{
    vstd::arithmetic::div_mod::lemma_fundamental_div_mod_converse(a, b, q, 0);
}

} // verus!
