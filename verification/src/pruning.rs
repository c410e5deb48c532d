//! Deciding from per-column statistics whether a predicate certainly holds
//! of every row of a data file.
//!
//! The filter operation deletes a file only when the predicate provably
//! matches all of its rows: the column's min/max bounds lie entirely inside
//! the predicate's range and no value is null. A file whose bounds merely
//! straddle the range is kept, as is one without usable statistics.

use vstd::prelude::*;

use crate::manifest::DataFile;

verus! {

/// Comparison operators usable against column statistics.
#[derive(Clone, Copy, Debug, PartialEq, Eq, Structural)]
pub enum CompareOp {
    Eq,
    Lt,
    LtEq,
    Gt,
    GtEq,
}

/// A physical predicate `column <op> value` on an integer-valued column.
#[derive(Clone, Copy, Debug, PartialEq, Eq, Structural)]
pub struct PrunePredicate {
    pub field_id: i32,
    pub op: CompareOp,
    pub value: i64,
}

/// Looks a statistics column up by field id; the latest pair wins.
pub open spec fn stat_lookup_i64(stats: Seq<(i32, i64)>, id: i32) -> Option<i64>
    decreases stats.len(),
{
    if stats.len() == 0 {
        Option::None
    } else if stats.last().0 == id {
        Option::Some(stats.last().1)
    } else {
        stat_lookup_i64(stats.drop_last(), id)
    }
}

/// Looks a count column up by field id; the latest pair wins.
pub open spec fn stat_lookup_u64(stats: Seq<(i32, u64)>, id: i32) -> Option<u64>
    decreases stats.len(),
{
    if stats.len() == 0 {
        Option::None
    } else if stats.last().0 == id {
        Option::Some(stats.last().1)
    } else {
        stat_lookup_u64(stats.drop_last(), id)
    }
}

/// Finds a bound by field id.
pub fn find_stat_i64(stats: &Vec<(i32, i64)>, id: i32) -> (r: Option<i64>)
    ensures
        r == stat_lookup_i64(stats@, id),
{
    let mut i: usize = stats.len();
    proof {
        assert(stats@.take(i as int) =~= stats@);
    }
    while i > 0
        invariant
            i <= stats@.len(),
            stat_lookup_i64(stats@, id) == stat_lookup_i64(stats@.take(i as int), id),
        decreases i,
    {
        proof {
            assert(stats@.take(i as int).last() == stats@[i - 1]);
            assert(stats@.take(i as int).drop_last() =~= stats@.take(i as int - 1));
        }
        if stats[i - 1].0 == id {
            return Option::Some(stats[i - 1].1);
        }
        i = i - 1;
    }
    proof {
        assert(stats@.take(0) =~= Seq::<(i32, i64)>::empty());
    }
    Option::None
}

/// Finds a count by field id.
pub fn find_stat_u64(stats: &Vec<(i32, u64)>, id: i32) -> (r: Option<u64>)
    ensures
        r == stat_lookup_u64(stats@, id),
{
    let mut i: usize = stats.len();
    proof {
        assert(stats@.take(i as int) =~= stats@);
    }
    while i > 0
        invariant
            i <= stats@.len(),
            stat_lookup_u64(stats@, id) == stat_lookup_u64(stats@.take(i as int), id),
        decreases i,
    {
        proof {
            assert(stats@.take(i as int).last() == stats@[i - 1]);
            assert(stats@.take(i as int).drop_last() =~= stats@.take(i as int - 1));
        }
        if stats[i - 1].0 == id {
            return Option::Some(stats[i - 1].1);
        }
        i = i - 1;
    }
    proof {
        assert(stats@.take(0) =~= Seq::<(i32, u64)>::empty());
    }
    Option::None
}

/// Whether the predicate certainly holds of every row of a file with the
/// given column bounds and null count: both bounds must be known, no value
/// may be null, and the whole `[lower, upper]` interval must satisfy the
/// comparison.
pub open spec fn spec_certainly_matches(
    p: PrunePredicate,
    lower: Option<i64>,
    upper: Option<i64>,
    nulls: Option<u64>,
) -> bool {
    &&& lower is Some
    &&& upper is Some
    &&& match nulls {
        Option::Some(n) => n == 0,
        Option::None => true,
    }
    &&& {
        let lo = lower->Some_0;
        let hi = upper->Some_0;
        match p.op {
            CompareOp::Eq => lo == p.value && hi == p.value,
            CompareOp::Lt => hi < p.value,
            CompareOp::LtEq => hi <= p.value,
            CompareOp::Gt => lo > p.value,
            CompareOp::GtEq => lo >= p.value,
        }
    }
}

/// Whether the whole data file certainly matches the predicate, by its
/// statistics.
pub open spec fn spec_prune_file(p: PrunePredicate, f: crate::manifest::DataFileView) -> bool {
    spec_certainly_matches(
        p,
        stat_lookup_i64(f.lower_bounds, p.field_id),
        stat_lookup_i64(f.upper_bounds, p.field_id),
        stat_lookup_u64(f.null_value_counts, p.field_id),
    )
}

/// Decides whether the predicate certainly matches every row of the file.
pub fn prune_file(p: &PrunePredicate, f: &DataFile) -> (r: bool)
    ensures
        r == spec_prune_file(*p, f@),
{
    let lower = find_stat_i64(&f.lower_bounds, p.field_id);
    let upper = find_stat_i64(&f.upper_bounds, p.field_id);
    let nulls = find_stat_u64(&f.null_value_counts, p.field_id);
    let lo = match lower {
        Option::Some(lo) => lo,
        Option::None => {
            return false;
        },
    };
    let hi = match upper {
        Option::Some(hi) => hi,
        Option::None => {
            return false;
        },
    };
    match nulls {
        Option::Some(n) => if n != 0 {
            return false;
        },
        Option::None => {},
    }
    match p.op {
        CompareOp::Eq => lo == p.value && hi == p.value,
        CompareOp::Lt => hi < p.value,
        CompareOp::LtEq => hi <= p.value,
        CompareOp::Gt => lo > p.value,
        CompareOp::GtEq => lo >= p.value,
    }
}

} // verus!
