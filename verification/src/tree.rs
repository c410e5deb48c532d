//! Manifest tree manager: keeps the set of manifests balanced in count and in
//! partition-space locality.
//!
//! Manifests are summarised by partition bounding rectangles. An append
//! selects one manifest to extend (preferring containment, then size, then
//! least area growth) and, when the manifest would grow past the dynamic
//! limit, splits its entries by recursive bisection of the bounding rectangle.

use vstd::multiset::Multiset;
use vstd::prelude::*;

use crate::manifest::{clone_list_entry, ManifestEntry, ManifestListEntry};
use crate::Error;

verus! {

/// We never aim below this many data files per manifest.
pub const MIN_DATAFILES_PER_MANIFEST: usize = 4;

/// `2^k`.
pub open spec fn pow2n(k: nat) -> nat
    decreases k,
{
    if k == 0 {
        1
    } else {
        2 * pow2n((k - 1) as nat)
    }
}

pub proof fn lemma_pow2n_pos(k: nat)
    ensures
        pow2n(k) >= 1,
    decreases k,
{
    if k > 0 {
        lemma_pow2n_pos((k - 1) as nat);
    }
}

pub proof fn lemma_pow2n_increases(j: nat, k: nat)
    requires
        j <= k,
    ensures
        pow2n(j) <= pow2n(k),
    decreases k,
{
    if j < k {
        lemma_pow2n_increases(j, (k - 1) as nat);
        lemma_pow2n_pos((k - 1) as nat);
    }
}

/// The integer square root, rounded down.
pub open spec fn sqrt_floor(n: nat) -> nat
    decreases n,
{
    if n == 0 {
        0
    } else {
        let r = sqrt_floor((n - 1) as nat);
        if (r + 1) * (r + 1) <= n {
            r + 1
        } else {
            r
        }
    }
}

pub proof fn lemma_sqrt_floor_props(n: nat)
    ensures
        sqrt_floor(n) * sqrt_floor(n) <= n,
        n < (sqrt_floor(n) + 1) * (sqrt_floor(n) + 1),
    decreases n,
{
    if n == 0 {
        assert(sqrt_floor(0) == 0);
        assert(0 * 0 <= 0);
        assert(0 < (0 + 1) * (0 + 1)) by (nonlinear_arith);
    } else {
        lemma_sqrt_floor_props((n - 1) as nat);
        let r = sqrt_floor((n - 1) as nat);
        assert(r * r <= n - 1);
        assert(n - 1 < (r + 1) * (r + 1));
        if (r + 1) * (r + 1) <= n {
            assert(sqrt_floor(n) == r + 1);
            assert(n <= (r + 1) * (r + 1));
            assert((r + 1) * (r + 1) < (r + 2) * (r + 2)) by (nonlinear_arith);
            assert(n < (r + 2) * (r + 2));
        } else {
            assert(sqrt_floor(n) == r);
            assert(r * r <= n);
            assert(n < (r + 1) * (r + 1));
        }
    }
}

pub proof fn lemma_sqrt_floor_unique(n: nat, r: nat)
    requires
        r * r <= n,
        n < (r + 1) * (r + 1),
    ensures
        r == sqrt_floor(n),
{
    lemma_sqrt_floor_props(n);
    let s = sqrt_floor(n);
    if r < s {
        assert((r + 1) * (r + 1) <= s * s) by (nonlinear_arith)
            requires
                r + 1 <= s,
        ;
    }
    if s < r {
        assert((s + 1) * (s + 1) <= r * r) by (nonlinear_arith)
            requires
                s + 1 <= r,
        ;
    }
}

/// The base-2 logarithm, rounded down (`0` for inputs below `2`).
pub open spec fn log2_floor(n: nat) -> nat
    decreases n,
{
    if n < 2 {
        0
    } else {
        1 + log2_floor(n / 2)
    }
}

pub proof fn lemma_log2_floor_props(n: nat)
    requires
        n >= 1,
    ensures
        pow2n(log2_floor(n)) <= n,
        n < pow2n(log2_floor(n) + 1),
    decreases n,
{
    if n >= 2 {
        lemma_log2_floor_props(n / 2);
    }
}

/// Computes the integer square root of `n`, rounded down.
pub fn int_sqrt(n: u64) -> (r: u64)
    ensures
        r as nat == sqrt_floor(n as nat),
{
    let mut lo: u64 = 0;
    let mut hi: u64 = 4294967296;
    assert((hi as int) * (hi as int) > n as int) by (nonlinear_arith)
        requires
            hi == 4294967296u64 && n <= u64::MAX,
    ;
    while lo + 1 < hi
        invariant
            lo < hi,
            hi <= 4294967296,
            (lo as int) * (lo as int) <= n as int,
            (hi as int) * (hi as int) > n as int,
        decreases hi - lo,
    {
        let mid: u64 = lo + (hi - lo) / 2;
        proof {
            assert((mid as int) * (mid as int) <= 0x1_0000_0000_0000_0000_0000_0000)
                by (nonlinear_arith)
                requires
                    mid <= 4294967296u64,
            ;
        }
        if (mid as u128) * (mid as u128) <= n as u128 {
            lo = mid;
        } else {
            hi = mid;
        }
    }
    proof {
        lemma_sqrt_floor_unique(n as nat, lo as nat);
    }
    lo
}

/// Computes the base-2 logarithm of `n`, rounded down.
pub fn int_log2(n: u64) -> (r: u32)
    requires
        n >= 1,
    ensures
        r as nat == log2_floor(n as nat),
        r <= 63,
{
    let mut m: u64 = n;
    let mut k: u32 = 0;
    proof {
        assert(pow2n(0) == 1);
        assert((n as nat) * 1 == n as nat) by (nonlinear_arith);
    }
    while m >= 2
        invariant
            m >= 1,
            log2_floor(n as nat) == k as nat + log2_floor(m as nat),
            (m as nat) * pow2n(k as nat) <= n as nat,
            k <= 64,
        decreases m,
    {
        proof {
            assert((m as nat / 2) * (2 * pow2n(k as nat)) <= (m as nat) * pow2n(k as nat))
                by (nonlinear_arith)
                requires
                    m >= 2,
            ;
            if k == 64 {
                lemma_pow2n_increases(64, k as nat);
                assert(pow2n(64) == 0x1_0000_0000_0000_0000) by {
                    reveal_with_fuel(pow2n, 65);
                }
                assert((m as nat) * pow2n(k as nat) >= pow2n(64)) by (nonlinear_arith)
                    requires
                        m as nat >= 1 && pow2n(k as nat) >= pow2n(64),
                ;
            }
        }
        m = m / 2;
        k = k + 1;
    }
    proof {
        assert(pow2n(k as nat) <= (m as nat) * pow2n(k as nat)) by (nonlinear_arith)
            requires
                m as nat >= 1,
        ;
        if k >= 64 {
            lemma_pow2n_increases(64, k as nat);
            assert(pow2n(64) == 0x1_0000_0000_0000_0000) by {
                reveal_with_fuel(pow2n, 65);
            }
        }
    }
    k
}

/// A bounding rectangle in partition-coordinate space: coordinate-wise
/// minima and maxima over a set of partition tuples.
pub struct Rectangle {
    pub min: Vec<i64>,
    pub max: Vec<i64>,
}

/// Cap used when multiplying rectangle extents: the area saturates here
/// rather than growing without bound.
pub open spec fn area_cap() -> int {
    0xffff_ffff_ffff_ffff_ffff_ffff_ffff_ffff
}

impl Rectangle {
    /// Number of partition dimensions.
    pub open spec fn dim(&self) -> nat {
        self.min@.len()
    }

    /// Minima and maxima agree in length and order.
    pub open spec fn wf(&self) -> bool {
        &&& self.min@.len() == self.max@.len()
        &&& forall|i: int| 0 <= i < self.min@.len() ==> self.min@[i] <= self.max@[i]
    }

    /// The point `p` lies inside the rectangle.
    pub open spec fn spec_contains_point(&self, p: Seq<i64>) -> bool {
        &&& p.len() == self.dim()
        &&& forall|i: int| 0 <= i < p.len() ==> self.min@[i] <= p[i] && p[i] <= self.max@[i]
    }

    /// Every point of `o` lies inside `self`.
    pub open spec fn spec_contains(&self, o: &Rectangle) -> bool {
        &&& o.dim() == self.dim()
        &&& forall|i: int|
            0 <= i < self.min@.len() ==> self.min@[i] <= o.min@[i] && o.max@[i] <= self.max@[i]
    }

    /// The area of the rectangle: the product of its extents, saturated at
    /// `area_cap`. Equals the true area whenever that is below the cap.
    pub open spec fn spec_area(&self) -> int {
        area_seq(self.min@, self.max@)
    }

    /// A rectangle covering exactly one point.
    pub fn from_point(p: &Vec<i64>) -> (r: Rectangle)
        ensures
            r.wf(),
            r.min@ == p@,
            r.max@ == p@,
    {
        let min = clone_coords(p);
        let max = clone_coords(p);
        Rectangle { min, max }
    }

    /// Decides whether the point `p` lies inside the rectangle.
    pub fn contains_point(&self, p: &Vec<i64>) -> (r: bool)
        requires
            self.wf(),
        ensures
            r == self.spec_contains_point(p@),
    {
        if p.len() != self.min.len() {
            return false;
        }
        let mut i: usize = 0;
        while i < p.len()
            invariant
                i <= p@.len(),
                p@.len() == self.min@.len() == self.max@.len(),
                forall|j: int| 0 <= j < i ==> self.min@[j] <= p@[j] && p@[j] <= self.max@[j],
            decreases p@.len() - i,
        {
            if p[i] < self.min[i] || p[i] > self.max[i] {
                return false;
            }
            i = i + 1;
        }
        true
    }

    /// Decides whether every point of `o` lies inside `self`.
    pub fn contains(&self, o: &Rectangle) -> (r: bool)
        requires
            self.wf(),
            o.wf(),
        ensures
            r == self.spec_contains(o),
    {
        if o.min.len() != self.min.len() {
            return false;
        }
        let mut i: usize = 0;
        while i < self.min.len()
            invariant
                i <= self.min@.len(),
                self.min@.len() == self.max@.len() == o.min@.len() == o.max@.len(),
                forall|j: int| 0 <= j < i ==> self.min@[j] <= o.min@[j] && o.max@[j] <= self.max@[j],
            decreases self.min@.len() - i,
        {
            if o.min[i] < self.min[i] || o.max[i] > self.max[i] {
                return false;
            }
            i = i + 1;
        }
        true
    }

    /// Widens the rectangle to cover `o` as well: each minimum becomes the
    /// smaller of the two, each maximum the larger.
    pub fn expand(&mut self, o: &Rectangle)
        requires
            old(self).wf(),
            o.wf(),
            o.dim() == old(self).dim(),
        ensures
            final(self).wf(),
            final(self).min@.len() == old(self).min@.len(),
            forall|i: int|
                0 <= i < final(self).min@.len() ==> final(self).min@[i] == spec_min_i64(
                    old(self).min@[i],
                    o.min@[i],
                ) && final(self).max@[i] == spec_max_i64(old(self).max@[i], o.max@[i]),
    {
        let n = self.min.len();
        let mut i: usize = 0;
        while i < n
            invariant
                i <= n,
                n == self.min@.len() == self.max@.len() == o.min@.len() == o.max@.len(),
                old(self).min@.len() == n,
                old(self).max@.len() == n,
                o.wf(),
                forall|j: int| 0 <= j < n ==> old(self).min@[j] <= old(self).max@[j],
                forall|j: int|
                    0 <= j < i ==> self.min@[j] == spec_min_i64(old(self).min@[j], o.min@[j])
                        && self.max@[j] == spec_max_i64(old(self).max@[j], o.max@[j]),
                forall|j: int|
                    i <= j < n ==> self.min@[j] == old(self).min@[j] && self.max@[j] == old(
                        self,
                    ).max@[j],
            decreases n - i,
        {
            if o.min[i] < self.min[i] {
                let v = o.min[i];
                self.min.set(i, v);
            }
            if o.max[i] > self.max[i] {
                let v = o.max[i];
                self.max.set(i, v);
            }
            i = i + 1;
        }
    }

    /// Widens the rectangle to cover the point `p`.
    pub fn expand_with_node(&mut self, p: &Vec<i64>)
        requires
            old(self).wf(),
            p@.len() == old(self).dim(),
        ensures
            final(self).wf(),
            final(self).min@.len() == old(self).min@.len(),
            final(self).spec_contains_point(p@),
            forall|i: int|
                0 <= i < final(self).min@.len() ==> final(self).min@[i] == spec_min_i64(
                    old(self).min@[i],
                    p@[i],
                ) && final(self).max@[i] == spec_max_i64(old(self).max@[i], p@[i]),
    {
        let o = Rectangle::from_point(p);
        self.expand(&o);
    }

    /// A copy of `self` widened to cover `o`.
    pub fn expanded_copy(&self, o: &Rectangle) -> (r: Rectangle)
        requires
            self.wf(),
            o.wf(),
            o.dim() == self.dim(),
        ensures
            r.wf(),
            r.min@.len() == self.min@.len(),
            forall|i: int|
                0 <= i < r.min@.len() ==> r.min@[i] == spec_min_i64(self.min@[i], o.min@[i])
                    && r.max@[i] == spec_max_i64(self.max@[i], o.max@[i]),
    {
        let mut c = Rectangle { min: clone_coords(&self.min), max: clone_coords(&self.max) };
        c.expand(o);
        c
    }

    /// Computes the (saturated) area of the rectangle.
    pub fn area(&self) -> (r: u128)
        requires
            self.wf(),
        ensures
            r as int == self.spec_area(),
    {
        let n = self.min.len();
        let mut acc: u128 = 1;
        let mut i: usize = 0;
        while i < n
            invariant
                i <= n,
                self.wf(),
                n == self.min@.len(),
                acc as int == area_seq_to(self.min@, self.max@, i as int),
            decreases n - i,
        {
            proof {
                lemma_area_seq_bounds(self.min@, self.max@, i as int);
            }
            let e: u128 = (self.max[i] as i128 - self.min[i] as i128) as u128;
            if e == 0 {
                proof {
                    assert(acc as int * 0 == 0) by (nonlinear_arith);
                }
                acc = 0;
            } else if acc > u128::MAX / e {
                proof {
                    lemma_div_mul_cap(acc as int, e as int);
                }
                acc = u128::MAX;
            } else {
                proof {
                    lemma_mul_le_cap(acc as int, e as int);
                }
                acc = acc * e;
            }
            i = i + 1;
        }
        acc
    }

    /// How much the area grows when this rectangle is widened to cover `o`.
    pub open spec fn spec_expansion_cost(&self, o: &Rectangle) -> int {
        area_seq(expanded_min(self.min@, o.min@), expanded_max(self.max@, o.max@))
            - self.spec_area()
    }

    /// Computes the growth in (saturated) area from widening `self` to
    /// cover `o`. Widening never shrinks the area, so the growth is
    /// non-negative.
    pub fn expansion_cost(&self, o: &Rectangle) -> (r: u128)
        requires
            self.wf(),
            o.wf(),
            o.dim() == self.dim(),
        ensures
            r as int == self.spec_expansion_cost(o),
    {
        let expanded = self.expanded_copy(o);
        proof {
            assert(expanded.min@ =~= expanded_min(self.min@, o.min@));
            assert(expanded.max@ =~= expanded_max(self.max@, o.max@));
            lemma_area_seq_bounds(self.min@, self.max@, self.min@.len() as int);
            lemma_area_seq_bounds(expanded.min@, expanded.max@, expanded.min@.len() as int);
            lemma_area_seq_monotone(
                self.min@,
                self.max@,
                expanded.min@,
                expanded.max@,
                self.min@.len() as int,
            );
        }
        let a1: u128 = expanded.area();
        let a0: u128 = self.area();
        a1 - a0
    }
}

/// Coordinate-wise minimum of two coordinate sequences.
pub open spec fn expanded_min(a: Seq<i64>, b: Seq<i64>) -> Seq<i64> {
    Seq::new(a.len(), |i: int| spec_min_i64(a[i], b[i]))
}

/// Coordinate-wise maximum of two coordinate sequences.
pub open spec fn expanded_max(a: Seq<i64>, b: Seq<i64>) -> Seq<i64> {
    Seq::new(a.len(), |i: int| spec_max_i64(a[i], b[i]))
}

/// The product of the extents `max[k] - min[k]` of the first `n` dimensions,
/// saturated at `area_cap`.
pub open spec fn area_seq_to(min: Seq<i64>, max: Seq<i64>, n: int) -> int
    decreases n,
{
    if n <= 0 {
        1
    } else {
        let prev = area_seq_to(min, max, n - 1);
        let e = max[n - 1] - min[n - 1];
        if prev * e > area_cap() {
            area_cap()
        } else {
            prev * e
        }
    }
}

/// The saturated product of all extents.
pub open spec fn area_seq(min: Seq<i64>, max: Seq<i64>) -> int {
    area_seq_to(min, max, min.len() as int)
}

proof fn lemma_area_seq_bounds(min: Seq<i64>, max: Seq<i64>, n: int)
    requires
        min.len() == max.len(),
        n <= min.len(),
        forall|i: int| 0 <= i < min.len() ==> min[i] <= max[i],
    ensures
        forall|k: int| 0 <= k <= n ==> 0 <= #[trigger] area_seq_to(min, max, k) <= area_cap(),
    decreases n,
{
    if n > 0 {
        lemma_area_seq_bounds(min, max, n - 1);
        let prev = area_seq_to(min, max, n - 1);
        let e = max[n - 1] - min[n - 1];
        assert(prev * e >= 0) by (nonlinear_arith)
            requires
                prev >= 0 && e >= 0,
        ;
    }
}

/// The smaller of two values.
pub open spec fn spec_min_i64(a: i64, b: i64) -> i64 {
    if a < b {
        a
    } else {
        b
    }
}

/// The larger of two values.
pub open spec fn spec_max_i64(a: i64, b: i64) -> i64 {
    if a > b {
        a
    } else {
        b
    }
}

/// Copies a coordinate vector.
pub fn clone_coords(p: &Vec<i64>) -> (r: Vec<i64>)
    ensures
        r@ == p@,
{
    let mut out: Vec<i64> = Vec::new();
    let mut i: usize = 0;
    while i < p.len()
        invariant
            i <= p@.len(),
            out@ == p@.take(i as int),
        decreases p@.len() - i,
    {
        out.push(p[i]);
        proof {
            assert(out@ =~= p@.take(i as int + 1));
        }
        i = i + 1;
    }
    proof {
        assert(p@.take(p@.len() as int) =~= p@);
    }
    out
}

proof fn lemma_area_seq_monotone(min1: Seq<i64>, max1: Seq<i64>, min2: Seq<i64>, max2: Seq<i64>, n: int)
    requires
        min1.len() == max1.len() == min2.len() == max2.len(),
        n <= min1.len(),
        forall|i: int| 0 <= i < min1.len() ==> min1[i] <= max1[i],
        forall|i: int| 0 <= i < min1.len() ==> min2[i] <= min1[i] && max1[i] <= max2[i],
    ensures
        area_seq_to(min1, max1, n) <= area_seq_to(min2, max2, n),
    decreases n,
{
    if n > 0 {
        lemma_area_seq_monotone(min1, max1, min2, max2, n - 1);
        lemma_area_seq_bounds(min1, max1, n - 1);
        let p1 = area_seq_to(min1, max1, n - 1);
        let p2 = area_seq_to(min2, max2, n - 1);
        let e1 = max1[n - 1] - min1[n - 1];
        let e2 = max2[n - 1] - min2[n - 1];
        assert(p1 * e1 <= p2 * e2) by (nonlinear_arith)
            requires
                0 <= p1 <= p2 && 0 <= e1 <= e2,
        ;
    }
}

proof fn lemma_div_mul_cap(a: int, e: int)
    requires
        e >= 1,
        a > (0xffff_ffff_ffff_ffff_ffff_ffff_ffff_ffff as int) / e,
    ensures
        a * e > 0xffff_ffff_ffff_ffff_ffff_ffff_ffff_ffff,
{
    let cap = 0xffff_ffff_ffff_ffff_ffff_ffff_ffff_ffff as int;
    assert(a >= cap / e + 1);
    assert((cap / e + 1) * e > cap) by (nonlinear_arith)
        requires
            e >= 1,
    ;
    assert(a * e >= (cap / e + 1) * e) by (nonlinear_arith)
        requires
            e >= 1 && a >= cap / e + 1,
    ;
}

proof fn lemma_mul_le_cap(a: int, e: int)
    requires
        e >= 1,
        a >= 0,
        a <= (0xffff_ffff_ffff_ffff_ffff_ffff_ffff_ffff as int) / e,
    ensures
        a * e <= 0xffff_ffff_ffff_ffff_ffff_ffff_ffff_ffff,
{
    let cap = 0xffff_ffff_ffff_ffff_ffff_ffff_ffff_ffff as int;
    assert((cap / e) * e <= cap) by (nonlinear_arith)
        requires
            e >= 1,
    ;
    assert(a * e <= (cap / e) * e) by (nonlinear_arith)
        requires
            e >= 1 && a <= cap / e,
    ;
}

/// The number a count column contributes: absent counts as zero.
pub open spec fn opt_count(c: Option<u32>) -> int {
    match c {
        Option::Some(x) => x as int,
        Option::None => 0,
    }
}

/// Total number of entries a manifest holds, by its counts.
pub open spec fn mle_total(m: crate::manifest::ManifestListEntryView) -> int {
    opt_count(m.added_files_count) + opt_count(m.existing_files_count) + opt_count(
        m.deleted_files_count,
    )
}

/// Number of live (added or existing) entries a manifest holds, by its counts.
pub open spec fn mle_live(m: crate::manifest::ManifestListEntryView) -> int {
    opt_count(m.added_files_count) + opt_count(m.existing_files_count)
}

/// Sum of `mle_total` over the first `n` manifests.
pub open spec fn total_entries_to(ms: Seq<ManifestListEntry>, n: int) -> int
    decreases n,
{
    if n <= 0 {
        0
    } else {
        total_entries_to(ms, n - 1) + mle_total(ms[n - 1]@)
    }
}

/// Sum of `mle_total` over all manifests of a list.
pub open spec fn total_entries(ms: Seq<ManifestListEntry>) -> int {
    total_entries_to(ms, ms.len() as int)
}

pub proof fn lemma_total_entries_nonneg(ms: Seq<ManifestListEntry>, n: int)
    ensures
        total_entries_to(ms, n) >= 0,
    decreases n,
{
    if n > 0 {
        lemma_total_entries_nonneg(ms, n - 1);
    }
}

/// The lower bounds of a partition summary as a coordinate sequence.
pub open spec fn summary_lowers(s: Seq<crate::manifest::FieldSummary>) -> Seq<i64> {
    s.map_values(|f: crate::manifest::FieldSummary| f.lower_bound)
}

/// The upper bounds of a partition summary as a coordinate sequence.
pub open spec fn summary_uppers(s: Seq<crate::manifest::FieldSummary>) -> Seq<i64> {
    s.map_values(|f: crate::manifest::FieldSummary| f.upper_bound)
}

/// A summary is well formed for `dim` dimensions.
pub open spec fn summary_wf(s: Seq<crate::manifest::FieldSummary>, dim: nat) -> bool {
    s.len() == dim && forall|d: int| 0 <= d < s.len() ==> (#[trigger] s[d]).lower_bound
        <= s[d].upper_bound
}

/// The summary's rectangle contains the rectangle given by `mn`/`mx`.
pub open spec fn summary_contains(
    s: Seq<crate::manifest::FieldSummary>,
    mn: Seq<i64>,
    mx: Seq<i64>,
) -> bool {
    s.len() == mn.len() && forall|d: int|
        0 <= d < s.len() ==> (#[trigger] s[d]).lower_bound <= mn[d] && mx[d] <= s[d].upper_bound
}

/// How much the summary's area grows when widened to cover `mn`/`mx`.
pub open spec fn summary_cost(
    s: Seq<crate::manifest::FieldSummary>,
    mn: Seq<i64>,
    mx: Seq<i64>,
) -> int {
    area_seq(
        expanded_min(summary_lowers(s), mn),
        expanded_max(summary_uppers(s), mx),
    ) - area_seq(summary_lowers(s), summary_uppers(s))
}

/// Whether manifest `a` is at least as good a target as manifest `b` for an
/// append whose new files span `mn`/`mx`: containment is preferred, then the
/// smaller manifest among containing ones, then the smaller area growth,
/// ties broken by the smaller manifest.
pub open spec fn preferred(
    a: crate::manifest::ManifestListEntryView,
    b: crate::manifest::ManifestListEntryView,
    mn: Seq<i64>,
    mx: Seq<i64>,
) -> bool {
    let ca = a.partitions is Some && summary_contains(a.partitions->Some_0, mn, mx);
    let cb = b.partitions is Some && summary_contains(b.partitions->Some_0, mn, mx);
    if ca && cb {
        mle_total(a) <= mle_total(b)
    } else if ca {
        true
    } else if cb {
        false
    } else {
        let costa = summary_cost(a.partitions->Some_0, mn, mx);
        let costb = summary_cost(b.partitions->Some_0, mn, mx);
        costa < costb || (costa == costb && mle_total(a) <= mle_total(b))
    }
}

pub proof fn lemma_preferred_total(
    a: crate::manifest::ManifestListEntryView,
    b: crate::manifest::ManifestListEntryView,
    mn: Seq<i64>,
    mx: Seq<i64>,
)
    ensures
        preferred(a, b, mn, mx) || preferred(b, a, mn, mx),
{
}

pub proof fn lemma_preferred_trans(
    a: crate::manifest::ManifestListEntryView,
    b: crate::manifest::ManifestListEntryView,
    c: crate::manifest::ManifestListEntryView,
    mn: Seq<i64>,
    mx: Seq<i64>,
)
    requires
        preferred(a, b, mn, mx),
        preferred(b, c, mn, mx),
    ensures
        preferred(a, c, mn, mx),
{
}

/// Converts a stored partition summary into its bounding rectangle.
pub fn summary_to_rectangle(s: &Vec<crate::manifest::FieldSummary>) -> (r: Result<Rectangle, Error>)
    ensures
        match r {
            Result::Ok(rect) => {
                &&& summary_wf(s@, s@.len())
                &&& rect.wf()
                &&& rect.min@ == summary_lowers(s@)
                &&& rect.max@ == summary_uppers(s@)
            },
            Result::Err(e) => !summary_wf(s@, s@.len()) && e is InvalidFormat,
        },
{
    let mut min: Vec<i64> = Vec::new();
    let mut max: Vec<i64> = Vec::new();
    let mut i: usize = 0;
    while i < s.len()
        invariant
            i <= s@.len(),
            min@ =~= summary_lowers(s@).take(i as int),
            max@ =~= summary_uppers(s@).take(i as int),
            forall|d: int| 0 <= d < i ==> (#[trigger] s@[d]).lower_bound <= s@[d].upper_bound,
        decreases s@.len() - i,
    {
        if s[i].lower_bound > s[i].upper_bound {
            return Result::Err(
                Error::InvalidFormat(String::from_str("partition summary bounds out of order")),
            );
        }
        min.push(s[i].lower_bound);
        max.push(s[i].upper_bound);
        proof {
            assert(min@ =~= summary_lowers(s@).take(i as int + 1));
            assert(max@ =~= summary_uppers(s@).take(i as int + 1));
        }
        i = i + 1;
    }
    proof {
        assert(summary_lowers(s@).take(s@.len() as int) =~= summary_lowers(s@));
        assert(summary_uppers(s@).take(s@.len() as int) =~= summary_uppers(s@));
    }
    Result::Ok(Rectangle { min, max })
}

/// A manifest chosen to receive the new files, with the total entry count of
/// the whole manifest list it came from.
pub struct SelectedManifest {
    pub manifest: ManifestListEntry,
    pub file_count_all_entries: usize,
}

/// Computes the total entry count of a manifest list.
pub fn count_all_entries(manifests: &Vec<ManifestListEntry>) -> (r: usize)
    requires
        total_entries(manifests@) <= usize::MAX,
    ensures
        r as int == total_entries(manifests@),
{
    let mut sum: u128 = 0;
    let mut i: usize = 0;
    while i < manifests.len()
        invariant
            i <= manifests@.len(),
            sum as int == total_entries_to(manifests@, i as int),
            sum <= i as int * 0x3_0000_0000,
        decreases manifests@.len() - i,
    {
        let m = &manifests[i];
        let a: u64 = match m.added_files_count {
            Option::Some(x) => x as u64,
            Option::None => 0,
        };
        let e: u64 = match m.existing_files_count {
            Option::Some(x) => x as u64,
            Option::None => 0,
        };
        let d: u64 = match m.deleted_files_count {
            Option::Some(x) => x as u64,
            Option::None => 0,
        };
        proof {
            assert(sum + a + e + d <= (i as int + 1) * 0x3_0000_0000) by (nonlinear_arith)
                requires
                    sum <= i as int * 0x3_0000_0000 && a + e + d <= 0x3_0000_0000,
            ;
        }
        sum = sum + a as u128 + e as u128 + d as u128;
        i = i + 1;
    }
    proof {
        lemma_total_entries_nonneg(manifests@, manifests@.len() as int);
    }
    sum as usize
}

/// Computes the total entry count of a manifest list, without a size bound.
pub fn total_entries_of(manifests: &Vec<ManifestListEntry>) -> (r: u128)
    ensures
        r as int == total_entries(manifests@),
{
    let mut sum: u128 = 0;
    let mut i: usize = 0;
    while i < manifests.len()
        invariant
            i <= manifests@.len(),
            sum as int == total_entries_to(manifests@, i as int),
            sum <= i as int * 0x3_0000_0000,
        decreases manifests@.len() - i,
    {
        let m = &manifests[i];
        let a: u64 = match m.added_files_count {
            Option::Some(x) => x as u64,
            Option::None => 0,
        };
        let e: u64 = match m.existing_files_count {
            Option::Some(x) => x as u64,
            Option::None => 0,
        };
        let d: u64 = match m.deleted_files_count {
            Option::Some(x) => x as u64,
            Option::None => 0,
        };
        proof {
            assert(sum + a + e + d <= (i as int + 1) * 0x3_0000_0000) by (nonlinear_arith)
                requires
                    sum <= i as int * 0x3_0000_0000 && a + e + d <= 0x3_0000_0000,
            ;
        }
        sum = sum + a as u128 + e as u128 + d as u128;
        i = i + 1;
    }
    sum
}

/// Selects the manifest with the smallest total file count; the remaining
/// manifests are returned unchanged, in order.
pub fn select_manifest_unpartitioned(manifests: Vec<ManifestListEntry>) -> (r: Result<
    (SelectedManifest, Vec<ManifestListEntry>),
    Error,
>)
    requires
        total_entries(manifests@) <= usize::MAX,
    ensures
        manifests@.len() == 0 <==> r is Err,
        r is Err ==> r->Err_0 is NotFound,
        r is Ok ==> {
            let (sel, rest) = r->Ok_0;
            &&& sel.file_count_all_entries as int == total_entries(manifests@)
            &&& rest@.len() + 1 == manifests@.len()
            &&& exists|i: int|
                {
                    &&& 0 <= i < manifests@.len()
                    &&& #[trigger] sel.manifest@ == manifests@[i]@
                    &&& forall|j: int|
                        0 <= j < manifests@.len() ==> mle_total(sel.manifest@) <= mle_total(
                            #[trigger] manifests@[j]@,
                        )
                    &&& forall|j: int| 0 <= j < i ==> #[trigger] rest@[j]@ == manifests@[j]@
                    &&& forall|j: int|
                        i <= j < rest@.len() ==> #[trigger] rest@[j]@ == manifests@[j + 1]@
                }
        },
{
    if manifests.len() == 0 {
        return Result::Err(
            Error::NotFound(String::from_str("Manifest"), String::from_str("list")),
        );
    }
    let file_count_all_entries = count_all_entries(&manifests);
    let mut best: usize = 0;
    let mut best_total: u64 = mle_total_exec(&manifests[0]);
    let mut i: usize = 1;
    while i < manifests.len()
        invariant
            1 <= i <= manifests@.len(),
            best < i,
            best_total as int == mle_total(manifests@[best as int]@),
            forall|j: int|
                0 <= j < i ==> mle_total(manifests@[best as int]@) <= mle_total(
                    #[trigger] manifests@[j]@,
                ),
        decreases manifests@.len() - i,
    {
        let t = mle_total_exec(&manifests[i]);
        if t < best_total {
            best = i;
            best_total = t;
        }
        i = i + 1;
    }
    let (sel, rest) = extract_at(manifests, best);
    Result::Ok((SelectedManifest { manifest: sel, file_count_all_entries }, rest))
}

/// Computes the total entry count of one manifest.
pub fn mle_total_exec(m: &ManifestListEntry) -> (r: u64)
    ensures
        r as int == mle_total(m@),
{
    let a: u64 = match m.added_files_count {
        Option::Some(x) => x as u64,
        Option::None => 0,
    };
    let e: u64 = match m.existing_files_count {
        Option::Some(x) => x as u64,
        Option::None => 0,
    };
    let d: u64 = match m.deleted_files_count {
        Option::Some(x) => x as u64,
        Option::None => 0,
    };
    a + e + d
}

/// Computes the live (added + existing) entry count of one manifest.
pub fn mle_live_exec(m: &ManifestListEntry) -> (r: u64)
    ensures
        r as int == mle_live(m@),
{
    let a: u64 = match m.added_files_count {
        Option::Some(x) => x as u64,
        Option::None => 0,
    };
    let e: u64 = match m.existing_files_count {
        Option::Some(x) => x as u64,
        Option::None => 0,
    };
    a + e
}

/// Removes the element at `at` from the list, returning it and the rest in
/// order.
fn extract_at(manifests: Vec<ManifestListEntry>, at: usize) -> (r: (
    ManifestListEntry,
    Vec<ManifestListEntry>,
))
    requires
        at < manifests@.len(),
    ensures
        r.0@ == manifests@[at as int]@,
        r.1@.len() + 1 == manifests@.len(),
        forall|j: int| 0 <= j < at ==> #[trigger] r.1@[j]@ == manifests@[j]@,
        forall|j: int| at <= j < r.1@.len() ==> #[trigger] r.1@[j]@ == manifests@[j + 1]@,
{
    let sel = clone_list_entry(&manifests[at]);
    let mut rest: Vec<ManifestListEntry> = Vec::new();
    let mut i: usize = 0;
    while i < manifests.len()
        invariant
            i <= manifests@.len(),
            at < manifests@.len(),
            i <= at ==> rest@.len() == i,
            i > at ==> rest@.len() + 1 == i,
            forall|j: int| 0 <= j < i && j < at ==> #[trigger] rest@[j]@ == manifests@[j]@,
            forall|j: int|
                at <= j && j + 1 < i + 1 && j < rest@.len() ==> #[trigger] rest@[j]@ == manifests@[
                    j + 1
                ]@,
        decreases manifests@.len() - i,
    {
        if i != at {
            rest.push(clone_list_entry(&manifests[i]));
        }
        i = i + 1;
    }
    (sel, rest)
}

/// Selects the manifest to receive files spanning `bounds`: prefer one whose
/// summary already contains `bounds` (the smallest such), else the one whose
/// rectangle grows least, ties broken by the smaller manifest. The remaining
/// manifests are returned unchanged, in order.
pub fn select_manifest_partitioned(manifests: Vec<ManifestListEntry>, bounds: &Rectangle) -> (r:
    Result<(SelectedManifest, Vec<ManifestListEntry>), Error>)
    requires
        bounds.wf(),
        total_entries(manifests@) <= usize::MAX,
    ensures
        r is Err ==> (manifests@.len() == 0 && r->Err_0 is NotFound) || (!(forall|j: int|
            0 <= j < manifests@.len() ==> (#[trigger] manifests@[j]@.partitions) is Some
                && summary_wf(manifests@[j]@.partitions->Some_0, bounds.dim())) && r->Err_0
            is InvalidFormat),
        r is Ok ==> {
            let (sel, rest) = r->Ok_0;
            &&& manifests@.len() > 0
            &&& sel.file_count_all_entries as int == total_entries(manifests@)
            &&& rest@.len() + 1 == manifests@.len()
            &&& exists|i: int|
                {
                    &&& 0 <= i < manifests@.len()
                    &&& #[trigger] sel.manifest@ == manifests@[i]@
                    &&& forall|j: int|
                        0 <= j < manifests@.len() ==> preferred(
                            sel.manifest@,
                            #[trigger] manifests@[j]@,
                            bounds.min@,
                            bounds.max@,
                        )
                    &&& forall|j: int| 0 <= j < i ==> #[trigger] rest@[j]@ == manifests@[j]@
                    &&& forall|j: int|
                        i <= j < rest@.len() ==> #[trigger] rest@[j]@ == manifests@[j + 1]@
                }
        },
{
    if manifests.len() == 0 {
        return Result::Err(
            Error::NotFound(String::from_str("Manifest"), String::from_str("list")),
        );
    }
    let file_count_all_entries = count_all_entries(&manifests);
    let dim = bounds.min.len();

    let mut best: usize = 0;
    let mut best_contains: bool = false;
    let mut best_cost: u128 = 0;
    let mut best_total: u64 = 0;
    let mut i: usize = 0;
    while i < manifests.len()
        invariant
            i <= manifests@.len(),
            manifests@.len() > 0,
            bounds.wf(),
            dim == bounds.dim(),
            i > 0 ==> best < i,
            i > 0 ==> {
                let b = manifests@[best as int]@;
                &&& b.partitions is Some
                &&& summary_wf(b.partitions->Some_0, bounds.dim())
                &&& best_contains == summary_contains(
                    b.partitions->Some_0,
                    bounds.min@,
                    bounds.max@,
                )
                &&& best_cost as int == summary_cost(
                    b.partitions->Some_0,
                    bounds.min@,
                    bounds.max@,
                )
                &&& best_total as int == mle_total(b)
                &&& forall|j: int|
                    0 <= j < i ==> preferred(b, #[trigger] manifests@[j]@, bounds.min@, bounds.max@)
            },
            forall|j: int|
                0 <= j < i ==> (#[trigger] manifests@[j]@.partitions) is Some && summary_wf(
                    manifests@[j]@.partitions->Some_0,
                    bounds.dim(),
                ),
        decreases manifests@.len() - i,
    {
        let m = &manifests[i];
        let summary = match &m.partitions {
            Option::Some(s) => s,
            Option::None => {
                proof {
                    assert(!((manifests@[i as int]@.partitions) is Some));
                }
                return Result::Err(
                    Error::InvalidFormat(String::from_str("manifest without partition summary")),
                );
            },
        };
        if summary.len() != dim {
            proof {
                assert(!summary_wf(manifests@[i as int]@.partitions->Some_0, bounds.dim()));
            }
            return Result::Err(
                Error::InvalidFormat(String::from_str("partition summary dimension mismatch")),
            );
        }
        let rect = match summary_to_rectangle(summary) {
            Result::Ok(rect) => rect,
            Result::Err(e) => {
                proof {
                    assert(!summary_wf(manifests@[i as int]@.partitions->Some_0, bounds.dim()));
                }
                return Result::Err(e);
            },
        };
        let c = rect.contains(bounds);
        let cost = rect.expansion_cost(bounds);
        let t = mle_total_exec(m);
        proof {
            assert(summary_contains(summary@, bounds.min@, bounds.max@) == rect.spec_contains(
                bounds,
            ));
            assert(summary_cost(summary@, bounds.min@, bounds.max@)
                == rect.spec_expansion_cost(bounds));
        }
        let better: bool = if i == 0 {
            true
        } else if c && !best_contains {
            true
        } else if !c && best_contains {
            false
        } else if c && best_contains {
            t < best_total
        } else {
            cost < best_cost || (cost == best_cost && t < best_total)
        };
        let ghost prev = best as int;
        if better {
            best = i;
            best_contains = c;
            best_cost = cost;
            best_total = t;
        }
        proof {
            let mn = bounds.min@;
            let mx = bounds.max@;
            let cand = manifests@[i as int]@;
            let bv = manifests@[best as int]@;
            if better {
                if i > 0 {
                    let oldb = manifests@[prev]@;
                    assert(preferred(cand, oldb, mn, mx));
                    assert forall|j: int| 0 <= j < i + 1 implies preferred(
                        bv,
                        #[trigger] manifests@[j]@,
                        mn,
                        mx,
                    ) by {
                        if j < i {
                            lemma_preferred_trans(cand, oldb, manifests@[j]@, mn, mx);
                        }
                    }
                } else {
                    assert(preferred(bv, cand, mn, mx));
                }
            } else {
                assert(preferred(bv, cand, mn, mx));
            }
        }
        i = i + 1;
    }
    let (sel, rest) = extract_at(manifests, best);
    Result::Ok((SelectedManifest { manifest: sel, file_count_all_entries }, rest))
}

/// The dynamic cap on data files per manifest: the manifest tree stays
/// approximately square when each manifest holds about the square root of the
/// table's file population.
pub open spec fn manifest_limit(existing: nat, new: nat) -> nat {
    MIN_DATAFILES_PER_MANIFEST as nat + sqrt_floor(existing + new)
}

/// How many times the selected manifest must be bisected so that no manifest
/// holds more than `manifest_limit` data files afterwards.
pub open spec fn spec_n_splits(existing: nat, new: nat, selected: nat) -> nat {
    let t = (selected + new) / manifest_limit(existing, new);
    if t == 0 {
        0
    } else {
        log2_floor(t) + 1
    }
}

/// Computes how many times the selected manifest is split for an operation
/// that adds `new_file_count` files, given the table-wide file population and
/// the population of the selected manifest.
pub fn compute_n_splits(
    existing_file_count: usize,
    new_file_count: usize,
    selected_manifest_file_count: usize,
) -> (r: u32)
    requires
        existing_file_count + new_file_count <= u64::MAX,
        selected_manifest_file_count + new_file_count <= u64::MAX,
    ensures
        r as nat == spec_n_splits(
            existing_file_count as nat,
            new_file_count as nat,
            selected_manifest_file_count as nat,
        ),
{
    let total: u64 = existing_file_count as u64 + new_file_count as u64;
    let sqrt: u64 = int_sqrt(total);
    proof {
        lemma_sqrt_floor_props(total as nat);
        assert(sqrt_floor(total as nat) * sqrt_floor(total as nat) <= u64::MAX);
        assert(sqrt_floor(total as nat) <= 0xffff_ffff) by (nonlinear_arith)
            requires
                sqrt_floor(total as nat) * sqrt_floor(total as nat) <= u64::MAX,
        ;
    }
    let limit: u64 = MIN_DATAFILES_PER_MANIFEST as u64 + sqrt;
    let new_manifest_file_count: u64 = selected_manifest_file_count as u64 + new_file_count as u64;
    let quotient: u64 = new_manifest_file_count / limit;
    if quotient == 0 {
        0
    } else {
        int_log2(quotient) + 1
    }
}

/// A coordinate sequence in ascending order.
pub open spec fn sorted_i64(s: Seq<i64>) -> bool {
    forall|i: int, j: int| 0 <= i < j < s.len() ==> s[i] <= s[j]
}

/// Sorts a coordinate vector ascending, keeping its multiset of values.
pub fn sort_i64(v: &Vec<i64>) -> (r: Vec<i64>)
    ensures
        sorted_i64(r@),
        r@.to_multiset() == v@.to_multiset(),
        r@.len() == v@.len(),
{
    broadcast use vstd::seq_lib::group_to_multiset_ensures;

    let mut out: Vec<i64> = Vec::new();
    let mut i: usize = 0;
    while i < v.len()
        invariant
            i <= v@.len(),
            out@.len() == i,
            sorted_i64(out@),
            out@.to_multiset() == v@.take(i as int).to_multiset(),
        decreases v@.len() - i,
    {
        let x = v[i];
        let mut pos: usize = 0;
        while pos < out.len() && out[pos] <= x
            invariant
                pos <= out@.len(),
                forall|j: int| 0 <= j < pos ==> out@[j] <= x,
            decreases out@.len() - pos,
        {
            pos = pos + 1;
        }
        let ghost prev = out@;
        out.insert(pos, x);
        proof {
            assert(sorted_i64(out@)) by {
                assert(forall|k: int| 0 <= k < pos ==> out@[k] == prev[k]);
                assert(out@[pos as int] == x);
                assert(forall|k: int|
                    pos < k < out@.len() ==> out@[k] == prev[k - 1] && prev[k - 1] >= x);
            }
            out@.to_multiset_ensures();
            prev.to_multiset_ensures();
            v@.take(i as int).to_multiset_ensures();
            assert(out@.remove(pos as int) =~= prev);
            assert(prev.to_multiset() =~= out@.to_multiset().remove(x));
            assert(out@[pos as int] == x);
            assert(out@.contains(x));
            assert(out@.to_multiset().count(x) > 0);
            assert(out@.to_multiset() =~= prev.to_multiset().insert(x)) by {
                broadcast use vstd::multiset::group_multiset_axioms;

                assert(forall|y: i64|
                    prev.to_multiset().insert(x).count(y) == #[trigger] out@.to_multiset().count(
                        y,
                    ));
            }
            assert(v@.take(i as int + 1) =~= v@.take(i as int).push(v@[i as int]));
        }
        i = i + 1;
    }
    proof {
        assert(v@.take(v@.len() as int) =~= v@);
    }
    out
}

/// The spec-level records of a sequence of entries.
pub open spec fn entry_views(es: Seq<ManifestEntry>) -> Seq<crate::manifest::ManifestEntryView> {
    crate::manifest::entries_view(es)
}

/// All groups flattened back into one entry sequence.
pub open spec fn groups_flat(gs: Seq<Vec<ManifestEntry>>) -> Seq<ManifestEntry> {
    gs.map_values(|g: Vec<ManifestEntry>| g@).flatten()
}

/// The index of the widest dimension of the rectangle.
pub fn longest_axis(bounds: &Rectangle) -> (r: usize)
    requires
        bounds.wf(),
        bounds.dim() >= 1,
    ensures
        r < bounds.dim(),
{
    let mut best: usize = 0;
    let mut best_extent: u64 = (bounds.max[0] as i128 - bounds.min[0] as i128) as u64;
    let mut d: usize = 1;
    while d < bounds.min.len()
        invariant
            bounds.wf(),
            1 <= d <= bounds.dim(),
            best < d,
        decreases bounds.dim() - d,
    {
        let e: u64 = (bounds.max[d] as i128 - bounds.min[d] as i128) as u64;
        if e > best_extent {
            best = d;
            best_extent = e;
        }
        d = d + 1;
    }
    best
}

/// The median partition value of the entries along `axis`: the middle value
/// of the sorted coordinates.
pub fn median_coord(entries: &Vec<ManifestEntry>, axis: usize) -> (r: i64)
    requires
        entries@.len() > 0,
        forall|i: int|
            0 <= i < entries@.len() ==> axis < (#[trigger] entry_views(
                entries@,
            )[i]).data_file.partition.len(),
    ensures
        exists|i: int|
            0 <= i < entries@.len() && (#[trigger] entry_views(
                entries@,
            )[i]).data_file.partition[axis as int] == r,
{
    broadcast use vstd::seq_lib::group_to_multiset_ensures;

    let mut coords: Vec<i64> = Vec::new();
    let mut i: usize = 0;
    while i < entries.len()
        invariant
            i <= entries@.len(),
            coords@.len() == i,
            forall|i2: int|
                0 <= i2 < entries@.len() ==> axis < (#[trigger] entry_views(
                    entries@,
                )[i2]).data_file.partition.len(),
            forall|j: int|
                0 <= j < i ==> coords@[j] == (#[trigger] entry_views(
                    entries@,
                )[j]).data_file.partition[axis as int],
        decreases entries@.len() - i,
    {
        proof {
            assert(entry_views(entries@)[i as int] == entries@[i as int]@);
        }
        coords.push(entries[i].data_file.partition[axis]);
        i = i + 1;
    }
    let sorted = sort_i64(&coords);
    let mid = (coords.len() - 1) / 2;
    let r = sorted[mid];
    proof {
        assert(sorted@.contains(r)) by {
            assert(sorted@[mid as int] == r);
        }
        assert(sorted@.to_multiset().contains(r));
        assert(coords@.to_multiset().contains(r));
        assert(coords@.contains(r));
        let j = choose|j: int| 0 <= j < coords@.len() && coords@[j] == r;
        assert(entry_views(entries@)[j].data_file.partition[axis as int] == r);
    }
    r
}

/// Splits the entries into those whose coordinate along `axis` is at most
/// `v` (the left side; ties go left) and the rest, keeping order within each
/// side.
pub fn partition_by_coord(entries: Vec<ManifestEntry>, axis: usize, v: i64, Ghost(dim): Ghost<nat>) -> (r: (
    Vec<ManifestEntry>,
    Vec<ManifestEntry>,
))
    requires
        crate::manifest::entries_have_dim(entry_views(entries@), dim),
        axis < dim,
    ensures
        crate::manifest::entries_have_dim(entry_views(r.0@), dim),
        crate::manifest::entries_have_dim(entry_views(r.1@), dim),
        entry_views(r.0@).to_multiset().add(entry_views(r.1@).to_multiset()) == entry_views(
            entries@,
        ).to_multiset(),
        forall|i: int|
            0 <= i < r.0@.len() ==> (#[trigger] entry_views(r.0@)[i]).data_file.partition[
                axis as int
            ] <= v,
        forall|i: int|
            0 <= i < r.1@.len() ==> (#[trigger] entry_views(r.1@)[i]).data_file.partition[
                axis as int
            ] > v,
        r.0@.len() + r.1@.len() == entries@.len(),
{
    broadcast use vstd::seq_lib::group_to_multiset_ensures;

    let ghost all = entries@;
    let mut left: Vec<ManifestEntry> = Vec::new();
    let mut right: Vec<ManifestEntry> = Vec::new();
    proof {
        assert(entry_views(all) == entry_views(entries@));
    }
    let mut rest = entries;
    proof {
        assert(entry_views(left@).to_multiset().add(entry_views(right@).to_multiset())
            =~= Multiset::empty());
        assert(entry_views(all).take(0) =~= Seq::empty());
        assert(entry_views(Seq::<ManifestEntry>::empty()) =~= Seq::empty());
    }
    let ghost i: int = 0;
    while rest.len() > 0
        invariant
            0 <= i <= all.len(),
            rest@ =~= all.skip(i),
            crate::manifest::entries_have_dim(entry_views(all), dim),
            axis < dim,
            crate::manifest::entries_have_dim(entry_views(left@), dim),
            crate::manifest::entries_have_dim(entry_views(right@), dim),
            left@.len() + right@.len() == i,
            entry_views(left@).to_multiset().add(entry_views(right@).to_multiset())
                == entry_views(all.take(i)).to_multiset(),
            forall|k: int|
                0 <= k < left@.len() ==> (#[trigger] entry_views(left@)[k]).data_file.partition[
                    axis as int
                ] <= v,
            forall|k: int|
                0 <= k < right@.len() ==> (#[trigger] entry_views(right@)[k]).data_file.partition[
                    axis as int
                ] > v,
        decreases rest@.len(),
    {
        let e = rest.remove(0);
        proof {
            assert(e == all[i]);
            assert(all.skip(i).remove(0) =~= all.skip(i + 1));
            assert(entry_views(all)[i] == all[i]@);
            assert(e.data_file.partition@.len() == dim);
        }
        let ghost lv = entry_views(left@);
        let ghost rv = entry_views(right@);
        let goes_left = e.data_file.partition[axis] <= v;
        if goes_left {
            left.push(e);
            proof {
                assert(entry_views(left@) =~= lv.push(all[i]@));
                assert(forall|k: int|
                    0 <= k < left@.len() ==> #[trigger] entry_views(left@)[k] == lv.push(
                        all[i]@,
                    )[k]);
            }
        } else {
            right.push(e);
            proof {
                assert(entry_views(right@) =~= rv.push(all[i]@));
                assert(forall|k: int|
                    0 <= k < right@.len() ==> #[trigger] entry_views(right@)[k] == rv.push(
                        all[i]@,
                    )[k]);
            }
        }
        proof {
            broadcast use vstd::multiset::group_multiset_axioms;

            lv.to_multiset_ensures();
            rv.to_multiset_ensures();
            entry_views(all.take(i)).to_multiset_ensures();
            assert(entry_views(all.take(i + 1)) =~= entry_views(all.take(i)).push(all[i]@));
            assert(entry_views(all.take(i)).push(all[i]@).to_multiset() =~= entry_views(
                all.take(i),
            ).to_multiset().insert(all[i]@));
            if goes_left {
                assert(lv.push(all[i]@).to_multiset() =~= lv.to_multiset().insert(all[i]@));
            } else {
                assert(rv.push(all[i]@).to_multiset() =~= rv.to_multiset().insert(all[i]@));
            }
            assert(entry_views(left@).to_multiset().add(entry_views(right@).to_multiset())
                =~= entry_views(all.take(i + 1)).to_multiset());
            i = i + 1;
        }
    }
    proof {
        assert(all.take(all.len() as int) =~= all);
    }
    (left, right)
}

/// Splits the entries of an oversize manifest into `2^n_splits` groups by
/// recursive bisection: along the widest axis of the bounding rectangle, the
/// entries are divided at the median partition value (ties go left), and
/// each side is split further with the rectangle halved at that value. An
/// unpartitioned table is split by position instead.
pub fn split_datafiles(
    entries: Vec<ManifestEntry>,
    bounds: &Rectangle,
    n_splits: u32,
) -> (r: Vec<Vec<ManifestEntry>>)
    requires
        bounds.wf(),
        crate::manifest::entries_have_dim(entry_views(entries@), bounds.dim()),
        pow2n(n_splits as nat) <= usize::MAX,
    ensures
        r@.len() == pow2n(n_splits as nat),
        entry_views(groups_flat(r@)).to_multiset() == entry_views(entries@).to_multiset(),
        forall|g: int|
            0 <= g < r@.len() ==> crate::manifest::entries_have_dim(
                entry_views((#[trigger] r@[g])@),
                bounds.dim(),
            ),
    decreases n_splits,
{
    if n_splits == 0 {
        let mut out: Vec<Vec<ManifestEntry>> = Vec::new();
        let ghost es = entries@;
        out.push(entries);
        proof {
            assert(out@.map_values(|g: Vec<ManifestEntry>| g@) =~= seq![es]);
            seq![es].lemma_flatten_one_element();
            assert(groups_flat(out@) =~= es);
        }
        return out;
    }
    proof {
        lemma_pow2n_increases((n_splits - 1) as nat, n_splits as nat);
    }
    let ghost es = entries@;
    let ghost dim = bounds.dim();
    let (l, rgt, lb, rb) = if bounds.min.len() == 0 {
        let mut rest = entries;
        let mut left: Vec<ManifestEntry> = Vec::new();
        let mid = rest.len() / 2;
        let ghost all = rest@;
        let mut i: usize = 0;
        while i < mid
            invariant
                mid <= all.len(),
                i <= mid,
                left@ =~= all.take(i as int),
                rest@ =~= all.skip(i as int),
            decreases mid - i,
        {
            let e = rest.remove(0);
            proof {
                assert(all.skip(i as int).remove(0) =~= all.skip(i as int + 1));
                assert(all.take(i as int).push(all[i as int]) =~= all.take(i as int + 1));
            }
            left.push(e);
            i = i + 1;
        }
        let lb = Rectangle { min: Vec::new(), max: Vec::new() };
        let rb = Rectangle { min: Vec::new(), max: Vec::new() };
        proof {
            assert(entry_views(left@) + entry_views(rest@) =~= entry_views(all));
            vstd::seq_lib::lemma_multiset_commutative(entry_views(left@), entry_views(rest@));
            assert forall|k: int| 0 <= k < left@.len() implies (#[trigger] entry_views(
                left@,
            )[k]).data_file.partition.len() == dim by {
                assert(entry_views(left@)[k] == left@[k]@);
                assert(left@[k] == all[k]);
                assert(entry_views(all)[k] == all[k]@);
            }
            assert forall|k: int| 0 <= k < rest@.len() implies (#[trigger] entry_views(
                rest@,
            )[k]).data_file.partition.len() == dim by {
                assert(entry_views(rest@)[k] == rest@[k]@);
                assert(rest@[k] == all[k + mid]);
                assert(entry_views(all)[k + mid] == all[k + mid]@);
            }
        }
        (left, rest, lb, rb)
    } else {
        let axis = longest_axis(bounds);
        proof {
            assert(forall|i: int|
                0 <= i < entries@.len() ==> axis < (#[trigger] entry_views(
                    entries@,
                )[i]).data_file.partition.len());
        }
        let v: i64 = if entries.len() == 0 {
            0
        } else {
            median_coord(&entries, axis)
        };
        let vclamped: i64 = if v < bounds.min[axis] {
            bounds.min[axis]
        } else if v > bounds.max[axis] {
            bounds.max[axis]
        } else {
            v
        };
        let (left, right) = partition_by_coord(entries, axis, vclamped, Ghost(dim));
        let mut lb = Rectangle { min: clone_coords(&bounds.min), max: clone_coords(&bounds.max) };
        lb.max.set(axis, vclamped);
        let mut rb = Rectangle { min: clone_coords(&bounds.min), max: clone_coords(&bounds.max) };
        rb.min.set(axis, vclamped);
        (left, right, lb, rb)
    };
    let mut out = split_datafiles(l, &lb, n_splits - 1);
    let mut rgroups = split_datafiles(rgt, &rb, n_splits - 1);
    let ghost lflat = entry_views(groups_flat(out@));
    let ghost rflat = entry_views(groups_flat(rgroups@));
    let ghost lgs = out@;
    let ghost rgs = rgroups@;
    let ghost mid_count = rgroups@.len();
    let mut gi: usize = 0;
    while rgroups.len() > 0
        invariant
            mid_count == rgs.len(),
            mid_count <= usize::MAX,
            gi + rgroups@.len() == mid_count,
            out@ =~= lgs + rgs.take(gi as int),
            rgroups@ =~= rgs.skip(gi as int),
        decreases rgroups@.len(),
    {
        proof {
            assert(rgs.skip(gi as int).len() > 0);
            assert(gi < rgs.len());
        }
        let g = rgroups.remove(0);
        proof {
            let s = rgs.skip(gi as int);
            assert(s[0] == rgs[gi as int]);
            assert forall|k: int| 0 <= k < s.len() - 1 implies #[trigger] s.remove(0)[k] == rgs.skip(
                gi as int + 1,
            )[k] by {
                assert(s.remove(0)[k] == s[k + 1]);
            }
            assert(s.remove(0) =~= rgs.skip(gi as int + 1));
            assert((lgs + rgs.take(gi as int)).push(rgs[gi as int]) =~= lgs + rgs.take(
                gi as int + 1,
            ));
        }
        out.push(g);
        gi = gi + 1;
    }
    proof {
        broadcast use vstd::seq_lib::group_to_multiset_ensures;

        assert(rgs.take(rgs.len() as int) =~= rgs);
        assert(out@ =~= lgs + rgs);
        let lmapped = lgs.map_values(|g: Vec<ManifestEntry>| g@);
        let rmapped = rgs.map_values(|g: Vec<ManifestEntry>| g@);
        assert((lgs + rgs).map_values(|g: Vec<ManifestEntry>| g@) =~= lmapped + rmapped);
        vstd::seq_lib::lemma_flatten_concat(lmapped, rmapped);
        assert(groups_flat(out@) =~= lmapped.flatten() + rmapped.flatten());
        assert(entry_views(lmapped.flatten() + rmapped.flatten()) =~= entry_views(
            lmapped.flatten(),
        ) + entry_views(rmapped.flatten()));
        vstd::seq_lib::lemma_multiset_commutative(
            entry_views(lmapped.flatten()),
            entry_views(rmapped.flatten()),
        );
        assert(entry_views(groups_flat(out@)).to_multiset() =~= entry_views(es).to_multiset());
        assert(out@.len() == pow2n((n_splits - 1) as nat) + pow2n((n_splits - 1) as nat));
    }
    out
}

} // verus!
