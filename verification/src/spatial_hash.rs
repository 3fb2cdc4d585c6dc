//! Uniform spatial hash: a counting-sort grid index over particle positions.
//!
//! `create` rebuilds the index from scratch each frame: one pass counts
//! bucket occupancy, a prefix pass turns counts into bucket boundaries, and
//! a final reverse pass scatters the particle indices so each bucket's
//! entries lie contiguously.  `query` unions the buckets of every grid cell
//! overlapping an axis-aligned box; the result is a superset of the true
//! neighbours within the radius (box over sphere, and unrelated particles
//! whose cells collide into the same bucket may appear).  `query_all`
//! builds from it the per-particle adjacency list used by self collision.
use vstd::prelude::*;

use crate::fixed::{abs_val, clip, mul_val, Fx};
use crate::vec3::Vec3;

verus! {

/// Multipliers of the cell hash; large odd constants keep collisions
/// spatially pseudo-uniform.
pub const HASH_MUL_X: i32 = 92837111;

pub const HASH_MUL_Y: i32 = 689287499;

pub const HASH_MUL_Z: i32 = 283923481;

/// Floor division for a positive divisor (rounds toward negative infinity,
/// as a grid cell index must).
pub open spec fn floor_div(a: int, b: int) -> int {
    if a >= 0 {
        a / b
    } else {
        -((-a + b - 1) / b)
    }
}

/// Saturate an unbounded cell index into the `i32` range fed to the hash.
pub open spec fn clamp_i32(v: int) -> int {
    if v < -2147483648 {
        -2147483648
    } else if v > 2147483647 {
        2147483647
    } else {
        v
    }
}

/// Grid cell index of one coordinate.
pub open spec fn cell_coord(spacing: Fx, c: Fx) -> int {
    clamp_i32(floor_div(c.raw as int, spacing.raw as int))
}

/// Deterministic bucket of one grid cell: three wrapping products, XORed,
/// absolute value, modulo the table size, so the bucket is never negative.
pub open spec fn hash_cell(table_size: int, xi: int, yi: int, zi: int) -> int {
    let m = vstd::wrapping::i32_specs::wrapping_mul(xi as i32, HASH_MUL_X)
        ^ vstd::wrapping::i32_specs::wrapping_mul(yi as i32, HASH_MUL_Y)
        ^ vstd::wrapping::i32_specs::wrapping_mul(zi as i32, HASH_MUL_Z);
    abs_val(m as int) % table_size
}

/// Bucket of the grid cell containing a position.
pub open spec fn hash_of(spacing: Fx, table_size: int, p: Vec3) -> int {
    hash_cell(
        table_size,
        cell_coord(spacing, p.x),
        cell_coord(spacing, p.y),
        cell_coord(spacing, p.z),
    )
}

/// The bucket of every position, as one abstract sequence; the counting
/// arguments below speak only of this sequence.
pub open spec fn hashes(s: Seq<Vec3>, spacing: Fx, table_size: int) -> Seq<int> {
    Seq::new(s.len(), |j: int| hash_of(spacing, table_size, s[j]))
}

/// How many of the first `upto` bucket ids equal `h`.
pub open spec fn count_upto(hs: Seq<int>, upto: int, h: int) -> int
    decreases upto,
{
    if upto <= 0 {
        0
    } else {
        count_upto(hs, upto - 1, h) + if hs[upto - 1] == h {
            1int
        } else {
            0int
        }
    }
}

/// How many of the first `upto` bucket ids are below `h`.
pub open spec fn count_below(hs: Seq<int>, upto: int, h: int) -> int
    decreases upto,
{
    if upto <= 0 {
        0
    } else {
        count_below(hs, upto - 1, h) + if hs[upto - 1] < h {
            1int
        } else {
            0int
        }
    }
}

pub proof fn lemma_count_upto_bounds(hs: Seq<int>, upto: int, h: int)
    requires
        upto >= 0,
    ensures
        0 <= count_upto(hs, upto, h) <= upto,
    decreases upto,
{
    if upto > 0 {
        lemma_count_upto_bounds(hs, upto - 1, h);
    }
}

/// Counting over a longer prefix never loses entries.
pub proof fn lemma_count_upto_monotone(hs: Seq<int>, i: int, j: int, h: int)
    requires
        0 <= i <= j,
    ensures
        count_upto(hs, i, h) <= count_upto(hs, j, h),
    decreases j,
{
    if i < j {
        lemma_count_upto_monotone(hs, i, j - 1, h);
    }
}

pub proof fn lemma_count_below_bounds(hs: Seq<int>, upto: int, h: int)
    requires
        upto >= 0,
    ensures
        0 <= count_below(hs, upto, h) <= upto,
    decreases upto,
{
    if upto > 0 {
        lemma_count_below_bounds(hs, upto - 1, h);
    }
}

/// Raising the strict bound one bucket adds exactly that bucket's count.
pub proof fn lemma_count_below_step(hs: Seq<int>, upto: int, h: int)
    requires
        upto >= 0,
    ensures
        count_below(hs, upto, h + 1) == count_below(hs, upto, h) + count_upto(hs, upto, h),
    decreases upto,
{
    if upto > 0 {
        lemma_count_below_step(hs, upto - 1, h);
    }
}

/// When every bucket id is below the bound, the count is everything.
pub proof fn lemma_count_below_all(hs: Seq<int>, upto: int, bound: int)
    requires
        upto >= 0,
        forall|j: int| 0 <= j < upto ==> #[trigger] hs[j] < bound,
    ensures
        count_below(hs, upto, bound) == upto,
    decreases upto,
{
    if upto > 0 {
        lemma_count_below_all(hs, upto - 1, bound);
    }
}

/// No bucket id is negative, so nothing is below zero.
pub proof fn lemma_count_below_zero(hs: Seq<int>, upto: int)
    requires
        upto >= 0,
        forall|j: int| 0 <= j < upto ==> #[trigger] hs[j] >= 0,
    ensures
        count_below(hs, upto, 0) == 0,
    decreases upto,
{
    if upto > 0 {
        lemma_count_below_zero(hs, upto - 1);
    }
}

/// `count_below` grows with the bucket bound.
pub proof fn lemma_count_below_monotone(hs: Seq<int>, upto: int, h0: int, h1: int)
    requires
        upto >= 0,
        h0 <= h1,
    ensures
        count_below(hs, upto, h0) <= count_below(hs, upto, h1),
    decreases upto,
{
    if upto > 0 {
        lemma_count_below_monotone(hs, upto - 1, h0, h1);
    }
}

/// The id `j` appears somewhere in the result buffer.
pub open spec fn contains_id(q: Seq<usize>, j: int) -> bool {
    exists|k: int| 0 <= k < q.len() && q[k] == j
}

/// Extending a buffer at the end keeps every id it already held.
pub proof fn lemma_contains_extend(q1: Seq<usize>, q2: Seq<usize>, j: int)
    requires
        q1.len() <= q2.len(),
        forall|k: int| 0 <= k < q1.len() ==> #[trigger] q2[k] == q1[k],
        contains_id(q1, j),
    ensures
        contains_id(q2, j),
{
    let k = choose|k: int| 0 <= k < q1.len() && q1[k] == j;
    assert(0 <= k < q2.len() && q2[k] == j);
}

/// Lowest cell index overlapping the interval `[c - r, c + r]` on one axis.
pub open spec fn box_lo(spacing: Fx, c: Fx, r: Fx) -> int {
    cell_coord(spacing, Fx { raw: clip(c.raw - r.raw) as i64 })
}

/// Highest cell index overlapping the interval `[c - r, c + r]` on one axis.
pub open spec fn box_hi(spacing: Fx, c: Fx, r: Fx) -> int {
    cell_coord(spacing, Fx { raw: clip(c.raw + r.raw) as i64 })
}

/// The grid cell of `p` lies inside the cell-aligned box of radius `r`
/// around `pos`.
pub open spec fn in_cell_box(spacing: Fx, pos: Vec3, r: Fx, p: Vec3) -> bool {
    &&& box_lo(spacing, pos.x, r) <= cell_coord(spacing, p.x) <= box_hi(spacing, pos.x, r)
    &&& box_lo(spacing, pos.y, r) <= cell_coord(spacing, p.y) <= box_hi(spacing, pos.y, r)
    &&& box_lo(spacing, pos.z, r) <= cell_coord(spacing, p.z) <= box_hi(spacing, pos.z, r)
}

/// One step of the reverse scatter pass: placing index `ii` at the slot
/// just below its bucket's running boundary keeps every bucket boundary,
/// every already-claimed slot and every already-placed index consistent.
#[verifier::rlimit(100)]
pub proof fn lemma_scatter_step(
    hs: Seq<int>,
    ts: int,
    n: int,
    ii: int,
    hpi: int,
    c: int,
    pre_cs: Seq<usize>,
    pre_ce: Seq<usize>,
    cs: Seq<usize>,
    ce: Seq<usize>,
)
    requires
        ts >= 1,
        n == hs.len(),
        n <= usize::MAX,
        pre_ce.len() <= usize::MAX,
        0 <= ii < n,
        0 <= hpi < ts,
        hpi == hs[ii],
        forall|j: int| 0 <= j < n ==> 0 <= #[trigger] hs[j] < ts,
        pre_cs.len() == ts + 1,
        pre_ce.len() >= n,
        1 <= c <= pre_ce.len(),
        c == pre_cs[hpi],
        forall|hh: int|
            0 <= hh < ts ==> (#[trigger] pre_cs[hh]) == count_below(hs, n, hh + 1) - count_upto(
                hs,
                ii,
                hh,
            ),
        forall|hh: int, k: int|
            0 <= hh < ts && (#[trigger] pre_cs[hh]) <= k < count_below(hs, n, hh + 1) ==> 0 <= (
            #[trigger] pre_ce[k]) < ii && hs[pre_ce[k] as int] == hh,
        forall|j: int|
            0 <= j < ii ==> exists|k: int|
                pre_cs[#[trigger] hs[j]] <= k < count_below(hs, n, hs[j] + 1) && pre_ce[k] == j,
        cs == pre_cs.update(hpi, (c - 1) as usize),
        ce == pre_ce.update(c - 1, ii as usize),
    ensures
        forall|hh: int|
            0 <= hh < ts ==> (#[trigger] cs[hh]) == count_below(hs, n, hh + 1) - count_upto(
                hs,
                ii + 1,
                hh,
            ),
        forall|hh: int, k: int|
            0 <= hh < ts && (#[trigger] cs[hh]) <= k < count_below(hs, n, hh + 1) ==> 0 <= (
            #[trigger] ce[k]) < ii + 1 && hs[ce[k] as int] == hh,
        forall|j: int|
            0 <= j < ii + 1 ==> exists|k: int|
                cs[#[trigger] hs[j]] <= k < count_below(hs, n, hs[j] + 1) && ce[k] == j,
{
    lemma_count_below_step(hs, n, hpi);
    lemma_count_below_bounds(hs, n, hpi);
    lemma_count_upto_bounds(hs, ii, hpi);
    lemma_count_upto_monotone(hs, ii + 1, n, hpi);
    assert(count_upto(hs, ii + 1, hpi) == count_upto(hs, ii, hpi) + 1);
    assert(count_below(hs, n, hpi) <= c - 1 < count_below(hs, n, hpi + 1));
    // every bucket boundary matches one more processed index
    assert forall|hh: int| 0 <= hh < ts implies (#[trigger] cs[hh]) == count_below(hs, n, hh + 1)
        - count_upto(hs, ii + 1, hh) by {
        if hh != hpi {
            assert(count_upto(hs, ii + 1, hh) == count_upto(hs, ii, hh));
        }
    }
    // claimed slots hold processed indices of the right bucket
    assert forall|hh: int, k: int|
        0 <= hh < ts && (#[trigger] cs[hh]) <= k < count_below(hs, n, hh + 1) implies 0 <= (
    #[trigger] ce[k]) < ii + 1 && hs[ce[k] as int] == hh by {
        if hh == hpi {
            if k != c - 1 {
                lemma_count_below_bounds(hs, n, hh + 1);
                assert(pre_cs[hh] <= k);
                assert(pre_ce[k] == ce[k]);
            }
        } else {
            lemma_count_below_bounds(hs, n, hh + 1);
            lemma_count_below_step(hs, n, hh);
            lemma_count_upto_bounds(hs, ii, hh);
            lemma_count_upto_monotone(hs, ii + 1, n, hh);
            assert(count_upto(hs, ii + 1, hh) == count_upto(hs, ii, hh));
            assert(count_below(hs, n, hh) <= cs[hh]);
            if hh < hpi {
                lemma_count_below_monotone(hs, n, hh + 1, hpi);
            } else {
                lemma_count_below_monotone(hs, n, hpi + 1, hh);
            }
            assert(k != c - 1);
            assert(pre_ce[k] == ce[k]);
        }
    }
    // each processed index still sits in its bucket
    assert forall|j: int| 0 <= j < ii + 1 implies exists|k: int|
        cs[#[trigger] hs[j]] <= k < count_below(hs, n, hs[j] + 1) && ce[k] == j by {
        if j == ii {
            assert(cs[hs[j]] <= c - 1 < count_below(hs, n, hs[j] + 1) && ce[c - 1] == j);
        } else {
            let hj = hs[j];
            let k = choose|k: int| pre_cs[hj] <= k < count_below(hs, n, hj + 1) && pre_ce[k] == j;
            if hj == hpi {
                lemma_count_below_bounds(hs, n, hpi + 1);
                assert(k >= pre_cs[hpi]);
                assert(k != c - 1);
            } else {
                lemma_count_below_bounds(hs, n, hj + 1);
                lemma_count_below_step(hs, n, hj);
                lemma_count_upto_bounds(hs, ii, hj);
                lemma_count_upto_monotone(hs, ii, n, hj);
                assert(count_below(hs, n, hj) <= pre_cs[hj]);
                if hj < hpi {
                    lemma_count_below_monotone(hs, n, hj + 1, hpi);
                } else {
                    lemma_count_below_monotone(hs, n, hpi + 1, hj);
                }
                assert(k != c - 1);
            }
            assert(cs[hj] <= k < count_below(hs, n, hj + 1) && ce[k] == j);
        }
    }
}

/// The grid index over the most recently indexed position set.
pub struct SpatialHash {
    /// Uniform cell size; fixed at construction, strictly positive.
    pub spacing: Fx,
    /// Number of buckets, fixed at `2 * max_num_objects`.
    pub table_size: usize,
    /// Bucket boundaries: bucket `h` owns entries `cell_start[h] .. cell_start[h + 1]`.
    pub cell_start: Vec<usize>,
    /// Particle indices grouped by bucket.
    pub cell_entries: Vec<usize>,
    /// Result buffer of the most recent `query`.
    pub query_ids: Vec<usize>,
    /// Number of valid entries in `query_ids`.
    pub query_size: usize,
    /// Largest position count the index accepts.
    pub max_num_objects: usize,
    /// Offsets into `adj_ids`, one per particle plus a final sentinel.
    pub first_adj_id: Vec<usize>,
    /// Flat adjacency list built by `query_all`.
    pub adj_ids: Vec<usize>,
    /// Hard cap on the adjacency list; entries past it are dropped.
    pub adj_capacity: usize,
    /// The position set the table was last built from.
    pub indexed: Ghost<Seq<Vec3>>,
}

impl SpatialHash {
    /// The bucket ids of the indexed snapshot.
    pub open spec fn hs(self) -> Seq<int> {
        hashes(self.indexed@, self.spacing, self.table_size as int)
    }

    /// The bucket table correctly indexes the snapshot `indexed`.
    pub open spec fn table_ok(self) -> bool {
        let hs = self.hs();
        let n = self.indexed@.len() as int;
        let ts = self.table_size as int;
        &&& n <= self.max_num_objects
        &&& forall|h: int|
            0 <= h <= ts ==> (#[trigger] self.cell_start@[h]) == count_below(hs, n, h)
        &&& forall|h: int, k: int|
            0 <= h < ts && (#[trigger] count_below(hs, n, h)) <= k < count_below(hs, n, h + 1)
                ==> 0 <= (#[trigger] self.cell_entries@[k]) < n && hs[self.cell_entries@[k] as int]
                == h
        &&& forall|j: int|
            0 <= j < n ==> exists|k: int|
                count_below(hs, n, #[trigger] hs[j]) <= k < count_below(hs, n, hs[j] + 1)
                    && self.cell_entries@[k] == j
    }

    /// Structural well-formedness: fixed shapes and a consistent table.
    pub open spec fn wf(self) -> bool {
        &&& self.spacing.wf()
        &&& self.spacing.raw > 0
        &&& 1 <= self.max_num_objects <= 100000000
        &&& self.table_size == 2 * self.max_num_objects
        &&& self.cell_start@.len() == self.table_size + 1
        &&& self.cell_entries@.len() == self.max_num_objects
        &&& self.first_adj_id@.len() == self.max_num_objects + 1
        &&& self.adj_capacity == 10 * self.max_num_objects
        &&& self.query_size == self.query_ids@.len()
        &&& self.table_ok()
    }

    /// Bucket of the cell with the given (clamped) integer coordinates.
    fn hash_coords(&self, xi: i32, yi: i32, zi: i32) -> (h: usize)
        requires
            self.table_size >= 1,
        ensures
            h as int == hash_cell(self.table_size as int, xi as int, yi as int, zi as int),
            h < self.table_size,
    {
        let m: i32 = xi.wrapping_mul(HASH_MUL_X) ^ yi.wrapping_mul(HASH_MUL_Y) ^ zi.wrapping_mul(
            HASH_MUL_Z,
        );
        let a: u64 = if m < 0 {
            (-(m as i64)) as u64
        } else {
            m as u64
        };
        let h: u64 = a % (self.table_size as u64);
        h as usize
    }

    /// Grid cell index of one coordinate: floor of `c / spacing`, saturated
    /// into the `i32` range.
    fn int_coord(&self, c: Fx) -> (r: i32)
        requires
            self.spacing.wf(),
            self.spacing.raw > 0,
            c.wf(),
        ensures
            r as int == cell_coord(self.spacing, c),
    {
        let q: i64 = if c.raw >= 0 {
            ((c.raw as u64) / (self.spacing.raw as u64)) as i64
        } else {
            let num: u64 = (-c.raw) as u64 + (self.spacing.raw as u64) - 1;
            -((num / (self.spacing.raw as u64)) as i64)
        };
        if q < -2147483648 {
            -2147483648
        } else if q > 2147483647 {
            2147483647
        } else {
            q as i32
        }
    }

    /// Bucket of the cell containing a position.
    fn hash_pos(&self, p: &Vec3) -> (h: usize)
        requires
            self.spacing.wf(),
            self.spacing.raw > 0,
            self.table_size >= 1,
            p.wf(),
        ensures
            h as int == hash_of(self.spacing, self.table_size as int, *p),
            h < self.table_size,
    {
        let xi = self.int_coord(p.x);
        let yi = self.int_coord(p.y);
        let zi = self.int_coord(p.z);
        self.hash_coords(xi, yi, zi)
    }

    /// A fresh index: an empty table over an empty position set.
    pub fn new(spacing: Fx, max_num_objects: usize) -> (r: SpatialHash)
        requires
            spacing.wf(),
            spacing.raw > 0,
            1 <= max_num_objects <= 100000000,
        ensures
            r.wf(),
            r.indexed@.len() == 0,
            r.spacing == spacing,
            r.max_num_objects == max_num_objects,
            r.adj_ids@.len() == 0,
            r.query_ids@.len() == 0,
    {
        let table_size: usize = 2 * max_num_objects;
        let mut cell_start: Vec<usize> = Vec::new();
        let mut i: usize = 0;
        while i < table_size + 1
            invariant
                table_size <= 200000000,
                i <= table_size + 1,
                cell_start@.len() == i,
                forall|k: int| 0 <= k < i ==> (#[trigger] cell_start@[k]) == 0,
            decreases table_size + 1 - i,
        {
            cell_start.push(0);
            i = i + 1;
        }
        let mut cell_entries: Vec<usize> = Vec::new();
        let mut i: usize = 0;
        while i < max_num_objects
            invariant
                i <= max_num_objects,
                cell_entries@.len() == i,
            decreases max_num_objects - i,
        {
            cell_entries.push(0);
            i = i + 1;
        }
        let mut first_adj_id: Vec<usize> = Vec::new();
        let mut i: usize = 0;
        while i < max_num_objects + 1
            invariant
                max_num_objects <= 100000000,
                i <= max_num_objects + 1,
                first_adj_id@.len() == i,
            decreases max_num_objects + 1 - i,
        {
            first_adj_id.push(0);
            i = i + 1;
        }
        let r = SpatialHash {
            spacing,
            table_size,
            cell_start,
            cell_entries,
            query_ids: Vec::new(),
            query_size: 0,
            max_num_objects,
            first_adj_id,
            adj_ids: Vec::new(),
            adj_capacity: 10 * max_num_objects,
            indexed: Ghost(Seq::empty()),
        };
        proof {
            assert forall|h: int| 0 <= h <= r.table_size as int implies (
            #[trigger] r.cell_start@[h]) == count_below(r.hs(), 0, h) by {
                lemma_count_below_bounds(r.hs(), 0, h);
            }
        }
        r
    }

    /// Rebuild the whole index from the given positions: count bucket
    /// occupancy, prefix-sum into bucket boundaries, then scatter the
    /// indices in reverse so each bucket's entries are contiguous (their
    /// order within a bucket is arbitrary).
    pub fn create(&mut self, positions: &Vec<Vec3>)
        requires
            old(self).wf(),
            positions@.len() <= old(self).max_num_objects,
            forall|j: int| 0 <= j < positions@.len() ==> (#[trigger] positions@[j]).wf(),
        ensures
            final(self).wf(),
            final(self).indexed@ == positions@,
            final(self).spacing == old(self).spacing,
            final(self).table_size == old(self).table_size,
            final(self).max_num_objects == old(self).max_num_objects,
            final(self).adj_capacity == old(self).adj_capacity,
            final(self).first_adj_id == old(self).first_adj_id,
            final(self).adj_ids == old(self).adj_ids,
            final(self).query_ids == old(self).query_ids,
            final(self).query_size == old(self).query_size,
    {
        let ghost s = positions@;
        let ghost sp = old(self).spacing;
        let ghost ts = old(self).table_size as int;
        let ghost hs = hashes(s, sp, ts);
        let n = positions.len();

        // clear the counts
        let mut h: usize = 0;
        while h < self.table_size + 1
            invariant
                self.spacing == sp,
                self.table_size == old(self).table_size,
                self.max_num_objects == old(self).max_num_objects,
                self.adj_capacity == old(self).adj_capacity,
                self.first_adj_id == old(self).first_adj_id,
                self.adj_ids == old(self).adj_ids,
                self.query_ids == old(self).query_ids,
                self.query_size == old(self).query_size,
                self.indexed == old(self).indexed,
                self.cell_entries == old(self).cell_entries,
                ts == self.table_size as int,
                ts <= 200000000,
                self.cell_start@.len() == ts + 1,
                h <= ts + 1,
                forall|k: int| 0 <= k < h ==> (#[trigger] self.cell_start@[k]) == 0,
            decreases ts + 1 - h,
        {
            self.cell_start.set(h, 0);
            h = h + 1;
        }

        // count occupancy per bucket
        let mut i: usize = 0;
        while i < n
            invariant
                self.spacing == sp,
                sp.wf(),
                sp.raw > 0,
                self.table_size == old(self).table_size,
                ts == self.table_size as int,
                ts >= 1,
                self.max_num_objects == old(self).max_num_objects,
                self.adj_capacity == old(self).adj_capacity,
                self.first_adj_id == old(self).first_adj_id,
                self.adj_ids == old(self).adj_ids,
                self.query_ids == old(self).query_ids,
                self.query_size == old(self).query_size,
                self.indexed == old(self).indexed,
                self.cell_entries == old(self).cell_entries,
                self.cell_start@.len() == ts + 1,
                s == positions@,
                hs == hashes(s, sp, ts),
                forall|j: int| 0 <= j < s.len() ==> (#[trigger] s[j]).wf(),
                i <= n,
                n == s.len(),
                n <= self.max_num_objects,
                forall|hh: int|
                    0 <= hh < ts ==> (#[trigger] self.cell_start@[hh]) == count_upto(
                        hs,
                        i as int,
                        hh,
                    ),
                self.cell_start@[ts] == 0,
            decreases n - i,
        {
            let hp = self.hash_pos(&positions[i]);
            let c = self.cell_start[hp];
            proof {
                lemma_count_upto_bounds(hs, i as int, hp as int);
                assert(hs[i as int] == hash_of(sp, ts, s[i as int]));
            }
            self.cell_start.set(hp, c + 1);
            i = i + 1;
        }

        // prefix-sum the counts into bucket boundaries
        proof {
            assert forall|j: int| 0 <= j < n as int implies #[trigger] hs[j] >= 0 by {
                assert(hs[j] == hash_of(sp, ts, s[j]));
            }
            lemma_count_below_zero(hs, n as int);
        }
        let mut start: usize = 0;
        let mut h: usize = 0;
        while h < self.table_size
            invariant
                self.spacing == sp,
                self.table_size == old(self).table_size,
                ts == self.table_size as int,
                self.max_num_objects == old(self).max_num_objects,
                self.adj_capacity == old(self).adj_capacity,
                self.first_adj_id == old(self).first_adj_id,
                self.adj_ids == old(self).adj_ids,
                self.query_ids == old(self).query_ids,
                self.query_size == old(self).query_size,
                self.indexed == old(self).indexed,
                self.cell_entries == old(self).cell_entries,
                self.cell_start@.len() == ts + 1,
                h <= ts,
                n == s.len(),
                n <= self.max_num_objects,
                start == count_below(hs, n as int, h as int),
                forall|hh: int|
                    0 <= hh < h ==> (#[trigger] self.cell_start@[hh]) == count_below(
                        hs,
                        n as int,
                        hh + 1,
                    ),
                forall|hh: int|
                    h <= hh < ts ==> (#[trigger] self.cell_start@[hh]) == count_upto(
                        hs,
                        n as int,
                        hh,
                    ),
            decreases ts - h,
        {
            proof {
                lemma_count_below_step(hs, n as int, h as int);
                lemma_count_below_bounds(hs, n as int, h as int + 1);
                lemma_count_below_bounds(hs, n as int, h as int);
                lemma_count_upto_bounds(hs, n as int, h as int);
            }
            start = start + self.cell_start[h];
            self.cell_start.set(h, start);
            h = h + 1;
        }
        proof {
            assert forall|j: int| 0 <= j < n as int implies 0 <= #[trigger] hs[j] < ts by {
                assert(hs[j] == hash_of(sp, ts, s[j]));
            }
            lemma_count_below_all(hs, n as int, ts);
        }
        let guard_index = self.table_size;
        self.cell_start.set(guard_index, start);

        // scatter the indices, walking each bucket's boundary backwards
        let mut i: usize = 0;
        while i < n
            invariant
                self.spacing == sp,
                sp.wf(),
                sp.raw > 0,
                self.table_size == old(self).table_size,
                ts == self.table_size as int,
                ts >= 1,
                self.max_num_objects == old(self).max_num_objects,
                self.adj_capacity == old(self).adj_capacity,
                self.first_adj_id == old(self).first_adj_id,
                self.adj_ids == old(self).adj_ids,
                self.query_ids == old(self).query_ids,
                self.query_size == old(self).query_size,
                self.indexed == old(self).indexed,
                self.cell_start@.len() == ts + 1,
                self.cell_entries@.len() == self.max_num_objects,
                s == positions@,
                hs == hashes(s, sp, ts),
                forall|j: int| 0 <= j < s.len() ==> (#[trigger] s[j]).wf(),
                i <= n,
                n == s.len(),
                n <= self.max_num_objects,
                forall|j: int| 0 <= j < n as int ==> 0 <= #[trigger] hs[j] < ts,
                forall|hh: int|
                    0 <= hh < ts ==> (#[trigger] self.cell_start@[hh]) == count_below(
                        hs,
                        n as int,
                        hh + 1,
                    ) - count_upto(hs, i as int, hh),
                self.cell_start@[ts] == n,
                forall|hh: int, k: int|
                    0 <= hh < ts && (#[trigger] self.cell_start@[hh]) <= k < count_below(
                        hs,
                        n as int,
                        hh + 1,
                    ) ==> 0 <= (#[trigger] self.cell_entries@[k]) < i
                        && hs[self.cell_entries@[k] as int] == hh,
                forall|j: int|
                    0 <= j < i ==> exists|k: int|
                        self.cell_start@[#[trigger] hs[j]] <= k < count_below(
                            hs,
                            n as int,
                            hs[j] + 1,
                        ) && self.cell_entries@[k] == j,
            decreases n - i,
        {
            let hp = self.hash_pos(&positions[i]);
            let ghost ii = i as int;
            let ghost hpi = hp as int;
            proof {
                assert(hs[ii] == hash_of(sp, ts, s[ii]));
                lemma_count_upto_monotone(hs, ii + 1, n as int, hpi);
                lemma_count_upto_bounds(hs, ii, hpi);
                lemma_count_below_step(hs, n as int, hpi);
                lemma_count_below_bounds(hs, n as int, hpi);
                lemma_count_below_bounds(hs, n as int, hpi + 1);
                assert(count_upto(hs, ii + 1, hpi) == count_upto(hs, ii, hpi) + 1);
            }
            let ghost pre_cs = self.cell_start@;
            let ghost pre_ce = self.cell_entries@;
            let c = self.cell_start[hp];
            self.cell_start.set(hp, c - 1);
            self.cell_entries.set(c - 1, i);
            proof {
                lemma_scatter_step(
                    hs,
                    ts,
                    n as int,
                    ii,
                    hpi,
                    c as int,
                    pre_cs,
                    pre_ce,
                    self.cell_start@,
                    self.cell_entries@,
                );
            }
            i = i + 1;
        }

        self.indexed = Ghost(s);
        proof {
            assert(self.hs() == hs);
            assert forall|hh: int| 0 <= hh <= ts implies (#[trigger] self.cell_start@[hh])
                == count_below(hs, n as int, hh) by {
                if hh < ts {
                    lemma_count_below_step(hs, n as int, hh);
                } else {
                    assert forall|j: int| 0 <= j < n as int implies #[trigger] hs[j] < ts by {
                        assert(hs[j] == hash_of(sp, ts, s[j]));
                    }
                    lemma_count_below_all(hs, n as int, ts);
                }
            }
            assert forall|hh: int, k: int|
                0 <= hh < ts && (#[trigger] count_below(hs, n as int, hh)) <= k < count_below(
                    hs,
                    n as int,
                    hh + 1,
                ) implies 0 <= (#[trigger] self.cell_entries@[k]) < n as int
                && hs[self.cell_entries@[k] as int] == hh by {
                lemma_count_below_step(hs, n as int, hh);
                assert(self.cell_start@[hh] == count_below(hs, n as int, hh));
            }
            assert forall|j: int| 0 <= j < n as int implies exists|k: int|
                count_below(hs, n as int, #[trigger] hs[j]) <= k < count_below(
                    hs,
                    n as int,
                    hs[j] + 1,
                ) && self.cell_entries@[k] == j by {
                let hj = hs[j];
                assert(hj == hash_of(sp, ts, s[j]));
                assert(0 <= hj < ts);
                lemma_count_below_step(hs, n as int, hj);
                let k = choose|k: int|
                    self.cell_start@[hj] <= k < count_below(hs, n as int, hj + 1)
                        && self.cell_entries@[k] == j;
                assert(count_below(hs, n as int, hj) <= k < count_below(hs, n as int, hj + 1)
                    && self.cell_entries@[k] == j);
            }
        }
    }

    /// Append the whole contents of bucket `h` to the query result buffer.
    #[verifier::rlimit(60)]
    fn append_bucket(&mut self, h: usize)
        requires
            old(self).wf(),
            h < old(self).table_size,
        ensures
            final(self).wf(),
            same_index(*final(self), *old(self)),
            final(self).query_ids@.len() >= old(self).query_ids@.len(),
            forall|k: int|
                0 <= k < old(self).query_ids@.len() ==> #[trigger] final(self).query_ids@[k]
                    == old(self).query_ids@[k],
            forall|k: int|
                old(self).query_ids@.len() <= k < final(self).query_ids@.len() ==> (
                #[trigger] final(self).query_ids@[k]) < old(self).indexed@.len(),
            forall|j: int|
                0 <= j < old(self).indexed@.len() && old(self).hs()[j] == h as int
                    ==> contains_id(final(self).query_ids@, j),
    {
        let ghost hs = old(self).hs();
        let ghost n = old(self).indexed@.len() as int;
        let ghost ts = old(self).table_size as int;
        let ghost pre_ids = old(self).query_ids@;
        proof {
            lemma_count_below_step(hs, n, h as int);
            lemma_count_upto_bounds(hs, n, h as int);
            lemma_count_below_bounds(hs, n, h as int);
            lemma_count_below_bounds(hs, n, h as int + 1);
        }
        let start = self.cell_start[h];
        let end = self.cell_start[h + 1];
        let mut e = start;
        while e < end
            invariant
                same_index(*self, *old(self)),
                old(self).wf(),
                self.query_size == self.query_ids@.len(),
                hs == old(self).hs(),
                n == old(self).indexed@.len() as int,
                ts == old(self).table_size as int,
                pre_ids == old(self).query_ids@,
                h < ts,
                start == count_below(hs, n, h as int),
                end == count_below(hs, n, h as int + 1),
                start <= e <= end,
                end <= n,
                n <= self.cell_entries@.len(),
                self.query_ids@.len() >= pre_ids.len(),
                forall|k: int|
                    0 <= k < pre_ids.len() ==> #[trigger] self.query_ids@[k] == pre_ids[k],
                forall|k: int|
                    pre_ids.len() <= k < self.query_ids@.len() ==> (
                    #[trigger] self.query_ids@[k]) < n,
                forall|k: int|
                    start <= k < e ==> contains_id(
                        self.query_ids@,
                        #[trigger] self.cell_entries@[k] as int,
                    ),
            decreases end - e,
        {
            let ghost mid_ids = self.query_ids@;
            let id = self.cell_entries[e];
            self.query_ids.push(id);
            self.query_size = self.query_ids.len();
            proof {
                assert(self.query_ids@[mid_ids.len() as int] == id);
                assert forall|k: int| start <= k < e + 1 implies contains_id(
                    self.query_ids@,
                    #[trigger] self.cell_entries@[k] as int,
                ) by {
                    if k < e {
                        lemma_contains_extend(
                            mid_ids,
                            self.query_ids@,
                            self.cell_entries@[k] as int,
                        );
                    } else {
                        assert(contains_id(self.query_ids@, id as int));
                    }
                }
            }
            e = e + 1;
        }
        proof {
            lemma_same_index_wf(*old(self), *self);
            assert forall|j: int| 0 <= j < n && hs[j] == h as int implies contains_id(
                self.query_ids@,
                j,
            ) by {
                let k = choose|k: int|
                    count_below(hs, n, hs[j]) <= k < count_below(hs, n, hs[j] + 1)
                        && old(self).cell_entries@[k] == j;
                assert(self.cell_entries@[k] == j);
                assert(contains_id(self.query_ids@, self.cell_entries@[k] as int));
            }
        }
    }

    /// Collect into `query_ids` the contents of every bucket of every grid
    /// cell overlapping the axis-aligned box of radius `max_dist` around
    /// `pos`.  Every indexed position whose cell lies in that box appears
    /// in the result; unrelated indices may appear as well (bucket
    /// collisions), and an index may appear more than once.
    #[verifier::rlimit(60)]
    pub fn query(&mut self, pos: &Vec3, max_dist: Fx)
        requires
            old(self).wf(),
            pos.wf(),
            max_dist.wf(),
            max_dist.raw >= 0,
        ensures
            final(self).wf(),
            same_index(*final(self), *old(self)),
            final(self).query_size == final(self).query_ids@.len(),
            forall|k: int|
                0 <= k < final(self).query_ids@.len() ==> (#[trigger] final(self).query_ids@[k])
                    < old(self).indexed@.len(),
            forall|j: int|
                0 <= j < old(self).indexed@.len() && in_cell_box(
                    old(self).spacing,
                    *pos,
                    max_dist,
                    old(self).indexed@[j],
                ) ==> contains_id(final(self).query_ids@, j),
    {
        let ghost sp = old(self).spacing;
        let ghost ts = old(self).table_size as int;
        let ghost hs = old(self).hs();
        let ghost n = old(self).indexed@.len() as int;
        let ghost s = old(self).indexed@;
        let ghost cx = Seq::new(s.len(), |j: int| cell_coord(sp, s[j].x));
        let ghost cy = Seq::new(s.len(), |j: int| cell_coord(sp, s[j].y));
        let ghost cz = Seq::new(s.len(), |j: int| cell_coord(sp, s[j].z));

        let x0 = self.int_coord(pos.x.sub(max_dist));
        let y0 = self.int_coord(pos.y.sub(max_dist));
        let z0 = self.int_coord(pos.z.sub(max_dist));
        let x1 = self.int_coord(pos.x.add(max_dist));
        let y1 = self.int_coord(pos.y.add(max_dist));
        let z1 = self.int_coord(pos.z.add(max_dist));

        self.query_ids.clear();
        self.query_size = 0;
        proof {
            lemma_same_index_wf(*old(self), *self);
        }

        let mut xi: i64 = x0 as i64;
        while xi <= x1 as i64
            invariant
                same_index(*self, *old(self)),
                old(self).wf(),
                self.wf(),
                self.query_size == self.query_ids@.len(),
                sp == old(self).spacing,
                ts == old(self).table_size as int,
                hs == old(self).hs(),
                n == old(self).indexed@.len() as int,
                s == old(self).indexed@,
                cx == Seq::new(s.len(), |j: int| cell_coord(sp, s[j].x)),
                cy == Seq::new(s.len(), |j: int| cell_coord(sp, s[j].y)),
                cz == Seq::new(s.len(), |j: int| cell_coord(sp, s[j].z)),
                -2147483648 <= x0 as int <= 2147483647,
                -2147483648 <= x1 as int <= 2147483647,
                x0 as i64 <= xi,
                forall|k: int|
                    0 <= k < self.query_ids@.len() ==> (#[trigger] self.query_ids@[k]) < n,
                forall|j: int|
                    0 <= j < n && x0 as int <= #[trigger] cx[j] <= x1 as int && y0 as int <= cy[j]
                        <= y1 as int && z0 as int <= cz[j] <= z1 as int && cx[j] < xi as int
                        ==> contains_id(self.query_ids@, j),
            decreases x1 as int + 1 - xi,
        {
            let mut yi: i64 = y0 as i64;
            while yi <= y1 as i64
                invariant
                    same_index(*self, *old(self)),
                    old(self).wf(),
                    self.wf(),
                    self.query_size == self.query_ids@.len(),
                    sp == old(self).spacing,
                    ts == old(self).table_size as int,
                    hs == old(self).hs(),
                    n == old(self).indexed@.len() as int,
                    s == old(self).indexed@,
                    cx == Seq::new(s.len(), |j: int| cell_coord(sp, s[j].x)),
                    cy == Seq::new(s.len(), |j: int| cell_coord(sp, s[j].y)),
                    cz == Seq::new(s.len(), |j: int| cell_coord(sp, s[j].z)),
                    x0 as i64 <= xi <= x1 as i64,
                    y0 as i64 <= yi,
                    forall|k: int|
                        0 <= k < self.query_ids@.len() ==> (#[trigger] self.query_ids@[k]) < n,
                    forall|j: int|
                        0 <= j < n && x0 as int <= #[trigger] cx[j] <= x1 as int && y0 as int
                            <= cy[j] <= y1 as int && z0 as int <= cz[j] <= z1 as int && cx[j]
                            < xi as int ==> contains_id(self.query_ids@, j),
                    forall|j: int|
                        0 <= j < n && x0 as int <= #[trigger] cx[j] <= x1 as int && y0 as int
                            <= cy[j] <= y1 as int && z0 as int <= cz[j] <= z1 as int && cx[j]
                            == xi as int && cy[j] < yi as int ==> contains_id(self.query_ids@, j),
                decreases y1 as int + 1 - yi,
            {
                let mut zi: i64 = z0 as i64;
                while zi <= z1 as i64
                    invariant
                        same_index(*self, *old(self)),
                        old(self).wf(),
                        self.wf(),
                        self.query_size == self.query_ids@.len(),
                        sp == old(self).spacing,
                        ts == old(self).table_size as int,
                        hs == old(self).hs(),
                        n == old(self).indexed@.len() as int,
                        s == old(self).indexed@,
                        cx == Seq::new(s.len(), |j: int| cell_coord(sp, s[j].x)),
                        cy == Seq::new(s.len(), |j: int| cell_coord(sp, s[j].y)),
                        cz == Seq::new(s.len(), |j: int| cell_coord(sp, s[j].z)),
                        x0 as i64 <= xi <= x1 as i64,
                        y0 as i64 <= yi <= y1 as i64,
                        z0 as i64 <= zi,
                        forall|k: int|
                            0 <= k < self.query_ids@.len() ==> (#[trigger] self.query_ids@[k]) < n,
                        forall|j: int|
                            0 <= j < n && x0 as int <= #[trigger] cx[j] <= x1 as int && y0 as int
                                <= cy[j] <= y1 as int && z0 as int <= cz[j] <= z1 as int && cx[j]
                                < xi as int ==> contains_id(self.query_ids@, j),
                        forall|j: int|
                            0 <= j < n && x0 as int <= #[trigger] cx[j] <= x1 as int && y0 as int
                                <= cy[j] <= y1 as int && z0 as int <= cz[j] <= z1 as int && cx[j]
                                == xi as int && cy[j] < yi as int ==> contains_id(
                                self.query_ids@,
                                j,
                            ),
                        forall|j: int|
                            0 <= j < n && x0 as int <= #[trigger] cx[j] <= x1 as int && y0 as int
                                <= cy[j] <= y1 as int && z0 as int <= cz[j] <= z1 as int && cx[j]
                                == xi as int && cy[j] == yi as int && cz[j] < zi as int
                                ==> contains_id(self.query_ids@, j),
                    decreases z1 as int + 1 - zi,
                {
                    let h = self.hash_coords(xi as i32, yi as i32, zi as i32);
                    let ghost mid_ids = self.query_ids@;
                    let ghost pre_call = *self;
                    self.append_bucket(h);
                    proof {
                        assert forall|j: int|
                            0 <= j < n && x0 as int <= #[trigger] cx[j] <= x1 as int && y0 as int
                                <= cy[j] <= y1 as int && z0 as int <= cz[j] <= z1 as int && (cx[j]
                                < xi as int || (cx[j] == xi as int && (cy[j] < yi as int || (cy[j]
                                == yi as int && cz[j] < zi as int + 1)))) implies contains_id(
                            self.query_ids@,
                            j,
                        ) by {
                            if cx[j] == xi as int && cy[j] == yi as int && cz[j] == zi as int {
                                assert(hs[j] == hash_of(sp, ts, s[j]));
                                assert(cx[j] == cell_coord(sp, s[j].x));
                                assert(cy[j] == cell_coord(sp, s[j].y));
                                assert(cz[j] == cell_coord(sp, s[j].z));
                                assert(hash_of(sp, ts, s[j]) == hash_cell(
                                    ts,
                                    xi as int,
                                    yi as int,
                                    zi as int,
                                ));
                                assert(pre_call.hs() == hs);
                                assert(pre_call.hs()[j] == h as int);
                                assert(contains_id(self.query_ids@, j));
                            } else {
                                lemma_contains_extend(mid_ids, self.query_ids@, j);
                            }
                        }
                    }
                    zi = zi + 1;
                }
                yi = yi + 1;
            }
            xi = xi + 1;
        }
        proof {
            assert forall|j: int|
                0 <= j < n && in_cell_box(sp, *pos, max_dist, s[j]) implies contains_id(
                self.query_ids@,
                j,
            ) by {
                assert(cx[j] == cell_coord(sp, s[j].x));
                assert(cy[j] == cell_coord(sp, s[j].y));
                assert(cz[j] == cell_coord(sp, s[j].z));
                assert(cx[j] < xi as int);
            }
        }
    }

    /// One adjacency pair `(a, j)` is recorded: some slot of `a`'s CSR range
    /// holds `j`.
    pub open spec fn pair_recorded(self, a: int, j: int) -> bool {
        exists|k: int|
            self.first_adj_id@[a] <= k < self.first_adj_id@[a + 1] && self.adj_ids@[k] == j
    }

    /// Build the whole adjacency list: for every particle `i` in ascending
    /// order, query the box of radius `max_dist` around it and keep every
    /// candidate `j < i` whose squared distance is within `max_dist`
    /// squared.  Each close pair is stored once, at the higher id.  The
    /// list is capped at `adj_capacity`: once full, further pairs of the
    /// frame are silently dropped.
    #[verifier::rlimit(100)]
    pub fn query_all(&mut self, positions: &Vec<Vec3>, max_dist: Fx)
        requires
            old(self).wf(),
            positions@ == old(self).indexed@,
            positions@.len() == old(self).max_num_objects,
            forall|j: int| 0 <= j < positions@.len() ==> (#[trigger] positions@[j]).wf(),
            max_dist.wf(),
            max_dist.raw >= 0,
        ensures
            final(self).wf(),
            final(self).spacing == old(self).spacing,
            final(self).table_size == old(self).table_size,
            final(self).cell_start == old(self).cell_start,
            final(self).cell_entries == old(self).cell_entries,
            final(self).max_num_objects == old(self).max_num_objects,
            final(self).adj_capacity == old(self).adj_capacity,
            final(self).indexed == old(self).indexed,
            final(self).adj_ids@.len() <= final(self).adj_capacity,
            final(self).first_adj_id@[old(self).max_num_objects as int]
                == final(self).adj_ids@.len(),
            forall|a: int|
                0 <= a <= old(self).max_num_objects ==> (#[trigger] final(self).first_adj_id@[a])
                    <= final(self).adj_ids@.len(),
            forall|a: int|
                0 <= a < old(self).max_num_objects ==> (#[trigger] final(self).first_adj_id@[a])
                    <= final(self).first_adj_id@[a + 1],
            forall|a: int, k: int|
                0 <= a < old(self).max_num_objects && (#[trigger] final(self).first_adj_id@[a]) <= k
                    < final(self).first_adj_id@[a + 1] ==> (#[trigger] final(self).adj_ids@[k]) < a
                    && positions@[a].distance_squared_spec(
                    positions@[final(self).adj_ids@[k] as int],
                ).raw <= mul_val(max_dist.raw as int, max_dist.raw as int),
            final(self).adj_ids@.len() < final(self).adj_capacity ==> forall|a: int, j: int|
                0 <= j < a < old(self).max_num_objects && in_cell_box(
                    old(self).spacing,
                    positions@[a],
                    max_dist,
                    positions@[j],
                ) && positions@[a].distance_squared_spec(positions@[j]).raw <= mul_val(
                    max_dist.raw as int,
                    max_dist.raw as int,
                ) ==> final(self).pair_recorded(a, j),
    {
        let ghost sp = old(self).spacing;
        let ghost s = old(self).indexed@;
        let ghost nmax = old(self).max_num_objects as int;
        let r2 = max_dist.mul(max_dist);
        let num = self.max_num_objects;

        self.adj_ids = Vec::new();
        proof {
            lemma_same_index_wf_adj(*old(self), *self);
        }

        let mut i: usize = 0;
        while i < num
            invariant
                self.spacing == old(self).spacing,
                self.table_size == old(self).table_size,
                self.cell_start == old(self).cell_start,
                self.cell_entries == old(self).cell_entries,
                self.max_num_objects == old(self).max_num_objects,
                self.adj_capacity == old(self).adj_capacity,
                self.indexed == old(self).indexed,
                self.wf(),
                old(self).wf(),
                sp == old(self).spacing,
                s == old(self).indexed@,
                s == positions@,
                nmax == old(self).max_num_objects as int,
                num == self.max_num_objects,
                nmax == num as int,
                s.len() == nmax,
                self.first_adj_id@.len() == num + 1,
                forall|j: int| 0 <= j < s.len() ==> (#[trigger] s[j]).wf(),
                max_dist.wf(),
                max_dist.raw >= 0,
                r2.raw == mul_val(max_dist.raw as int, max_dist.raw as int),
                i <= num,
                self.adj_ids@.len() <= self.adj_capacity,
                forall|a: int|
                    0 <= a < i ==> (#[trigger] self.first_adj_id@[a]) <= self.adj_ids@.len(),
                forall|a: int|
                    0 <= a && a + 1 < i ==> (#[trigger] self.first_adj_id@[a])
                        <= self.first_adj_id@[a + 1],
                forall|a: int, k: int|
                    0 <= a < i && (#[trigger] self.first_adj_id@[a]) <= k < (if a + 1 < i {
                        self.first_adj_id@[a + 1] as int
                    } else {
                        self.adj_ids@.len() as int
                    }) ==> (#[trigger] self.adj_ids@[k]) < a && s[a].distance_squared_spec(
                        s[self.adj_ids@[k] as int],
                    ).raw <= r2.raw,
                self.adj_ids@.len() < self.adj_capacity ==> forall|a: int, j: int|
                    0 <= j < a < i && in_cell_box(sp, s[a], max_dist, s[j])
                        && s[a].distance_squared_spec(s[j]).raw <= r2.raw ==> exists|k: int|
                        self.first_adj_id@[a] <= k < (if a + 1 < i {
                            self.first_adj_id@[a + 1] as int
                        } else {
                            self.adj_ids@.len() as int
                        }) && self.adj_ids@[k] == j,
            decreases num - i,
        {
            let base = self.adj_ids.len();
            self.first_adj_id.set(i, base);
            proof {
                lemma_same_index_wf_adj(*old(self), *self);
            }
            self.query(&positions[i], max_dist);
            let ghost pre_first = self.first_adj_id@;
            let ghost pre_adj = self.adj_ids@;
            let ghost qids = self.query_ids@;

            let mut q: usize = 0;
            while q < self.query_size
                invariant
                    self.spacing == old(self).spacing,
                    self.table_size == old(self).table_size,
                    self.cell_start == old(self).cell_start,
                    self.cell_entries == old(self).cell_entries,
                    self.max_num_objects == old(self).max_num_objects,
                    self.adj_capacity == old(self).adj_capacity,
                    self.indexed == old(self).indexed,
                    self.wf(),
                    old(self).wf(),
                    sp == old(self).spacing,
                    s == old(self).indexed@,
                    s == positions@,
                    nmax == old(self).max_num_objects as int,
                    num == self.max_num_objects,
                    nmax == num as int,
                    s.len() == nmax,
                    self.first_adj_id@.len() == num + 1,
                    forall|j: int| 0 <= j < s.len() ==> (#[trigger] s[j]).wf(),
                    max_dist.wf(),
                    max_dist.raw >= 0,
                    r2.raw == mul_val(max_dist.raw as int, max_dist.raw as int),
                    i < num,
                    q <= self.query_size,
                    self.query_ids@ == qids,
                    self.query_size == qids.len(),
                    forall|k: int| 0 <= k < qids.len() ==> (#[trigger] qids[k]) < nmax,
                    self.first_adj_id@ == pre_first,
                    pre_first[i as int] == base,
                    base == pre_adj.len(),
                    self.adj_ids@.len() >= pre_adj.len(),
                    forall|k: int| 0 <= k < pre_adj.len() ==> #[trigger] self.adj_ids@[k] == pre_adj[k],
                    self.adj_ids@.len() <= self.adj_capacity,
                    forall|a: int|
                        0 <= a < i ==> (#[trigger] pre_first[a]) <= base,
                    forall|a: int|
                        0 <= a && a + 1 < i ==> (#[trigger] pre_first[a]) <= pre_first[a + 1],
                    forall|a: int, k: int|
                        0 <= a < i && (#[trigger] pre_first[a]) <= k < (if a + 1 < i {
                            pre_first[a + 1] as int
                        } else {
                            base as int
                        }) ==> (#[trigger] pre_adj[k]) < a && s[a].distance_squared_spec(
                            s[pre_adj[k] as int],
                        ).raw <= r2.raw,
                    pre_adj.len() < self.adj_capacity ==> forall|a: int, j: int|
                        0 <= j < a < i && in_cell_box(sp, s[a], max_dist, s[j])
                            && s[a].distance_squared_spec(s[j]).raw <= r2.raw ==> exists|k: int|
                            pre_first[a] <= k < (if a + 1 < i {
                                pre_first[a + 1] as int
                            } else {
                                base as int
                            }) && pre_adj[k] == j,
                    forall|k: int|
                        base <= k < self.adj_ids@.len() ==> (#[trigger] self.adj_ids@[k])
                            < i as int && s[i as int].distance_squared_spec(
                            s[self.adj_ids@[k] as int],
                        ).raw <= r2.raw,
                    self.adj_ids@.len() < self.adj_capacity ==> forall|qq: int|
                        0 <= qq < q && (#[trigger] qids[qq]) < i as int
                            && s[i as int].distance_squared_spec(s[qids[qq] as int]).raw <= r2.raw
                            ==> exists|k: int|
                            base <= k < self.adj_ids@.len() && self.adj_ids@[k] == qids[qq],
                decreases self.query_size - q,
            {
                let id1 = self.query_ids[q];
                let ghost pre_loop_adj = self.adj_ids@;
                if id1 < i {
                    let dist_sq = positions[i].distance_squared(positions[id1]);
                    if dist_sq.raw <= r2.raw {
                        if self.adj_ids.len() < self.adj_capacity {
                            self.adj_ids.push(id1);
                        }
                    }
                }
                proof {
                    assert forall|qq: int|
                        self.adj_ids@.len() < self.adj_capacity && 0 <= qq < q + 1 && (
                        #[trigger] qids[qq]) < i as int && s[i as int].distance_squared_spec(
                            s[qids[qq] as int],
                        ).raw <= r2.raw implies exists|k: int|
                        base <= k < self.adj_ids@.len() && self.adj_ids@[k] == qids[qq] by {
                        if qq < q {
                            let k = choose|k: int|
                                base <= k < pre_loop_adj.len() && pre_loop_adj[k] == qids[qq];
                            assert(self.adj_ids@[k] == qids[qq]);
                        } else {
                            assert(self.adj_ids@[self.adj_ids@.len() - 1] == qids[qq]);
                        }
                    }
                    lemma_same_index_wf_adj(*old(self), *self);
                }
                q = q + 1;
            }

            proof {
                // the freshly frozen range of particle i is sound, and i's
                // close box-neighbours are all recorded unless the cap hit
                assert forall|a: int, k: int|
                    0 <= a < i as int + 1 && (#[trigger] self.first_adj_id@[a]) <= k < (if a + 1 < i
                        as int + 1 {
                    self.first_adj_id@[a + 1] as int
                } else {
                    self.adj_ids@.len() as int
                }) implies (#[trigger] self.adj_ids@[k]) < a && s[a].distance_squared_spec(
                    s[self.adj_ids@[k] as int],
                ).raw <= r2.raw by {
                    if a < i as int {
                        if a + 1 < i as int {
                            assert(self.adj_ids@[k] == pre_adj[k]);
                        } else {
                            assert(k < base);
                            assert(self.adj_ids@[k] == pre_adj[k]);
                        }
                    }
                }
                assert(self.adj_ids@.len() < self.adj_capacity ==> pre_adj.len()
                    < self.adj_capacity);
                assert forall|a: int, j: int|
                    self.adj_ids@.len() < self.adj_capacity && 0 <= j < a < i as int + 1
                        && in_cell_box(sp, s[a], max_dist, s[j]) && s[a].distance_squared_spec(
                        s[j],
                    ).raw <= r2.raw implies exists|k: int|
                    self.first_adj_id@[a] <= k < (if a + 1 < i as int + 1 {
                        self.first_adj_id@[a + 1] as int
                    } else {
                        self.adj_ids@.len() as int
                    }) && self.adj_ids@[k] == j by {
                    if a < i as int {
                        let k = choose|k: int|
                            pre_first[a] <= k < (if a + 1 < i as int {
                                pre_first[a + 1] as int
                            } else {
                                base as int
                            }) && pre_adj[k] == j;
                        assert(self.adj_ids@[k] == pre_adj[k]);
                        assert(self.first_adj_id@[a] <= k < (if a + 1 < i as int + 1 {
                            self.first_adj_id@[a + 1] as int
                        } else {
                            self.adj_ids@.len() as int
                        }) && self.adj_ids@[k] == j);
                    } else {
                        assert(contains_id(qids, j));
                        let qq = choose|qq: int| 0 <= qq < qids.len() && qids[qq] == j;
                        assert(qids[qq] < i as int);
                        let k = choose|k: int|
                            base <= k < self.adj_ids@.len() && self.adj_ids@[k] == qids[qq];
                        assert(self.first_adj_id@[a] <= k < self.adj_ids@.len()
                            && self.adj_ids@[k] == j);
                    }
                }
                lemma_same_index_wf_adj(*old(self), *self);
            }
            i = i + 1;
        }
        let total = self.adj_ids.len();
        let sentinel = self.max_num_objects;
        self.first_adj_id.set(sentinel, total);
        proof {
            lemma_same_index_wf_adj(*old(self), *self);
            assert forall|a: int, k: int|
                0 <= a < nmax && (#[trigger] self.first_adj_id@[a]) <= k
                    < self.first_adj_id@[a + 1] implies (#[trigger] self.adj_ids@[k]) < a
                && s[a].distance_squared_spec(s[self.adj_ids@[k] as int]).raw <= r2.raw by {
                if a + 1 < nmax {
                } else {
                    assert(self.first_adj_id@[a + 1] == total);
                }
            }
        }
    }
}

/// Two index states share everything but the query result buffer.
pub open spec fn same_index(a: SpatialHash, b: SpatialHash) -> bool {
    &&& a.spacing == b.spacing
    &&& a.table_size == b.table_size
    &&& a.cell_start == b.cell_start
    &&& a.cell_entries == b.cell_entries
    &&& a.max_num_objects == b.max_num_objects
    &&& a.first_adj_id == b.first_adj_id
    &&& a.adj_ids == b.adj_ids
    &&& a.adj_capacity == b.adj_capacity
    &&& a.indexed == b.indexed
}

/// Well-formedness moves across states that differ only in the query
/// buffer, as long as the buffer and its size agree.
#[verifier::rlimit(100)]
pub proof fn lemma_same_index_wf(a: SpatialHash, b: SpatialHash)
    requires
        a.wf(),
        same_index(b, a),
        b.query_size == b.query_ids@.len(),
    ensures
        b.wf(),
{
    let n = a.indexed@.len() as int;
    let ts = a.table_size as int;
    let hs = a.hs();
    assert(b.hs() == hs);
    assert forall|h: int| 0 <= h <= ts implies (#[trigger] b.cell_start@[h]) == count_below(
        hs,
        n,
        h,
    ) by {
        assert(a.cell_start@[h] == count_below(hs, n, h));
    }
    assert forall|h: int, k: int|
        0 <= h < ts && (#[trigger] count_below(hs, n, h)) <= k < count_below(hs, n, h + 1) implies 0
        <= (#[trigger] b.cell_entries@[k]) < n && b.hs()[b.cell_entries@[k] as int] == h by {
        assert(0 <= a.cell_entries@[k] < n && hs[a.cell_entries@[k] as int] == h);
    }
    assert forall|j: int| 0 <= j < n implies exists|k: int|
        count_below(hs, n, #[trigger] b.hs()[j]) <= k < count_below(hs, n, b.hs()[j] + 1)
            && b.cell_entries@[k] == j by {
        assert(hs[j] == b.hs()[j]);
        let k = choose|k: int|
            count_below(hs, n, hs[j]) <= k < count_below(hs, n, hs[j] + 1) && a.cell_entries@[k]
                == j;
        assert(count_below(hs, n, b.hs()[j]) <= k < count_below(hs, n, b.hs()[j] + 1)
            && b.cell_entries@[k] == j);
    }
    assert(b.table_ok());
}

/// Well-formedness also moves across states that differ in the query and
/// adjacency buffers, as long as the offset array keeps its length.
#[verifier::rlimit(100)]
pub proof fn lemma_same_index_wf_adj(a: SpatialHash, b: SpatialHash)
    requires
        a.wf(),
        b.spacing == a.spacing,
        b.table_size == a.table_size,
        b.cell_start == a.cell_start,
        b.cell_entries == a.cell_entries,
        b.max_num_objects == a.max_num_objects,
        b.first_adj_id@.len() == a.first_adj_id@.len(),
        b.adj_capacity == a.adj_capacity,
        b.indexed == a.indexed,
        b.query_size == b.query_ids@.len(),
    ensures
        b.wf(),
{
    let n = a.indexed@.len() as int;
    let ts = a.table_size as int;
    let hs = a.hs();
    assert(b.hs() == hs);
    assert forall|h: int| 0 <= h <= ts implies (#[trigger] b.cell_start@[h]) == count_below(
        hs,
        n,
        h,
    ) by {
        assert(a.cell_start@[h] == count_below(hs, n, h));
    }
    assert forall|h: int, k: int|
        0 <= h < ts && (#[trigger] count_below(hs, n, h)) <= k < count_below(hs, n, h + 1) implies 0
        <= (#[trigger] b.cell_entries@[k]) < n && b.hs()[b.cell_entries@[k] as int] == h by {
        assert(0 <= a.cell_entries@[k] < n && hs[a.cell_entries@[k] as int] == h);
    }
    assert forall|j: int| 0 <= j < n implies exists|k: int|
        count_below(hs, n, #[trigger] b.hs()[j]) <= k < count_below(hs, n, b.hs()[j] + 1)
            && b.cell_entries@[k] == j by {
        assert(hs[j] == b.hs()[j]);
        let k = choose|k: int|
            count_below(hs, n, hs[j]) <= k < count_below(hs, n, hs[j] + 1) && a.cell_entries@[k]
                == j;
        assert(count_below(hs, n, b.hs()[j]) <= k < count_below(hs, n, b.hs()[j] + 1)
            && b.cell_entries@[k] == j);
    }
    assert(b.table_ok());
}

} // verus!
