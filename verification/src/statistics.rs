//! Statistics aggregated from manifest entries: exact row and byte totals
//! over the live entries, and per-column statistics.
//!
//! Folding a column statistic over many files starts from an absent value
//! and absorbs absence, so a table-level column statistic is only known
//! when every contributing file reports it; a single file's statistics are
//! read off its manifest entry directly.

use vstd::prelude::*;

use crate::manifest::{ManifestEntry, ManifestEntryView, Status};
use crate::pruning::{find_stat_i64, find_stat_u64, stat_lookup_i64, stat_lookup_u64};
use crate::schema::Schema;
use crate::Error;

verus! {

/// An aggregate count: known exactly, or absent.
#[derive(Clone, Copy, Debug, PartialEq, Eq, Structural)]
pub enum Precision {
    Exact(u128),
    Absent,
}

/// An aggregate column bound: known exactly, or absent.
#[derive(Clone, Copy, Debug, PartialEq, Eq, Structural)]
pub enum BoundPrecision {
    Exact(i64),
    Absent,
}

/// Per-column aggregate statistics.
#[derive(Clone, Copy, Debug, PartialEq, Eq, Structural)]
pub struct ColumnStatistics {
    pub null_count: Precision,
    pub max_value: BoundPrecision,
    pub min_value: BoundPrecision,
    pub distinct_count: Precision,
}

/// Table- or file-level statistics: row and byte totals plus one column
/// statistic per schema field.
pub struct Statistics {
    pub num_rows: Precision,
    pub total_byte_size: Precision,
    pub column_statistics: Vec<ColumnStatistics>,
}

/// The entries that contribute to statistics: those not marked deleted.
pub open spec fn is_counted(e: ManifestEntryView) -> bool {
    e.status != Status::Deleted
}

/// Total records of the counted entries among the first `n`.
pub open spec fn sum_records(es: Seq<ManifestEntryView>, n: int) -> int
    decreases n,
{
    if n <= 0 {
        0
    } else {
        sum_records(es, n - 1) + if is_counted(es[n - 1]) {
            es[n - 1].data_file.record_count as int
        } else {
            0
        }
    }
}

/// Total bytes of the counted entries among the first `n`.
pub open spec fn sum_bytes(es: Seq<ManifestEntryView>, n: int) -> int
    decreases n,
{
    if n <= 0 {
        0
    } else {
        sum_bytes(es, n - 1) + if is_counted(es[n - 1]) {
            es[n - 1].data_file.file_size_in_bytes as int
        } else {
            0
        }
    }
}

/// Computes the statistics of a set of entries: exact row and byte totals
/// over the entries not marked deleted, and one per-field column statistic.
/// A column statistic folded over many files starts absent and stays
/// absent.
pub fn table_statistics(schema: &Schema, entries: &Vec<ManifestEntry>) -> (r: Statistics)
    ensures
        r.num_rows == Precision::Exact(
            sum_records(
                crate::manifest::entries_view(entries@),
                entries@.len() as int,
            ) as u128,
        ),
        r.total_byte_size == Precision::Exact(
            sum_bytes(crate::manifest::entries_view(entries@), entries@.len() as int) as u128,
        ),
        r.column_statistics@.len() == schema.fields@.len(),
        forall|c: int|
            0 <= c < r.column_statistics@.len() ==> #[trigger] r.column_statistics@[c]
                == (ColumnStatistics {
                null_count: Precision::Absent,
                max_value: BoundPrecision::Absent,
                min_value: BoundPrecision::Absent,
                distinct_count: Precision::Absent,
            }),
{
    let ghost ev = crate::manifest::entries_view(entries@);
    let mut rows: u128 = 0;
    let mut bytes: u128 = 0;
    let mut i: usize = 0;
    while i < entries.len()
        invariant
            i <= entries@.len(),
            ev == crate::manifest::entries_view(entries@),
            rows as int == sum_records(ev, i as int),
            bytes as int == sum_bytes(ev, i as int),
            rows <= i as int * 0xffff_ffff_ffff_ffff,
            bytes <= i as int * 0xffff_ffff_ffff_ffff,
        decreases entries@.len() - i,
    {
        proof {
            assert(ev[i as int] == entries@[i as int]@);
            assert(rows + 0xffff_ffff_ffff_ffff <= (i as int + 1) * 0xffff_ffff_ffff_ffff)
                by (nonlinear_arith)
                requires
                    rows <= i as int * 0xffff_ffff_ffff_ffff,
            ;
            assert(bytes + 0xffff_ffff_ffff_ffff <= (i as int + 1) * 0xffff_ffff_ffff_ffff)
                by (nonlinear_arith)
                requires
                    bytes <= i as int * 0xffff_ffff_ffff_ffff,
            ;
        }
        if !matches!(entries[i].status, Status::Deleted) {
            rows = rows + entries[i].data_file.record_count as u128;
            bytes = bytes + entries[i].data_file.file_size_in_bytes as u128;
        }
        i = i + 1;
    }
    let mut column_statistics: Vec<ColumnStatistics> = Vec::new();
    let mut c: usize = 0;
    while c < schema.fields.len()
        invariant
            c <= schema.fields@.len(),
            column_statistics@.len() == c,
            forall|k: int|
                0 <= k < c ==> #[trigger] column_statistics@[k] == (ColumnStatistics {
                    null_count: Precision::Absent,
                    max_value: BoundPrecision::Absent,
                    min_value: BoundPrecision::Absent,
                    distinct_count: Precision::Absent,
                }),
        decreases schema.fields@.len() - c,
    {
        column_statistics.push(
            ColumnStatistics {
                null_count: Precision::Absent,
                max_value: BoundPrecision::Absent,
                min_value: BoundPrecision::Absent,
                distinct_count: Precision::Absent,
            },
        );
        c = c + 1;
    }
    Statistics { num_rows: Precision::Exact(rows), total_byte_size: Precision::Exact(bytes), column_statistics }
}

/// Reads the statistics of one manifest entry: its exact row and byte
/// counts, and per-field column statistics from the entry's own maps.
pub fn manifest_statistics(schema: &Schema, entry: &ManifestEntry) -> (r: Statistics)
    ensures
        r.num_rows == Precision::Exact(entry.data_file.record_count as u128),
        r.total_byte_size == Precision::Exact(entry.data_file.file_size_in_bytes as u128),
        r.column_statistics@.len() == schema.fields@.len(),
        forall|c: int|
            0 <= c < r.column_statistics@.len() ==> {
                let id = schema@.fields[c].id;
                let cs = #[trigger] r.column_statistics@[c];
                &&& cs.null_count == (match stat_lookup_u64(
                    entry@.data_file.null_value_counts,
                    id,
                ) {
                    Option::Some(x) => Precision::Exact(x as u128),
                    Option::None => Precision::Absent,
                })
                &&& cs.max_value == (match stat_lookup_i64(entry@.data_file.upper_bounds, id) {
                    Option::Some(x) => BoundPrecision::Exact(x),
                    Option::None => BoundPrecision::Absent,
                })
                &&& cs.min_value == (match stat_lookup_i64(entry@.data_file.lower_bounds, id) {
                    Option::Some(x) => BoundPrecision::Exact(x),
                    Option::None => BoundPrecision::Absent,
                })
                &&& cs.distinct_count == (match stat_lookup_u64(
                    entry@.data_file.distinct_counts,
                    id,
                ) {
                    Option::Some(x) => Precision::Exact(x as u128),
                    Option::None => Precision::Absent,
                })
            },
{
    let mut column_statistics: Vec<ColumnStatistics> = Vec::new();
    let mut c: usize = 0;
    while c < schema.fields.len()
        invariant
            c <= schema.fields@.len(),
            column_statistics@.len() == c,
            forall|k: int|
                0 <= k < c ==> {
                    let id = schema@.fields[k].id;
                    let cs = #[trigger] column_statistics@[k];
                    &&& cs.null_count == (match stat_lookup_u64(
                        entry@.data_file.null_value_counts,
                        id,
                    ) {
                        Option::Some(x) => Precision::Exact(x as u128),
                        Option::None => Precision::Absent,
                    })
                    &&& cs.max_value == (match stat_lookup_i64(
                        entry@.data_file.upper_bounds,
                        id,
                    ) {
                        Option::Some(x) => BoundPrecision::Exact(x),
                        Option::None => BoundPrecision::Absent,
                    })
                    &&& cs.min_value == (match stat_lookup_i64(
                        entry@.data_file.lower_bounds,
                        id,
                    ) {
                        Option::Some(x) => BoundPrecision::Exact(x),
                        Option::None => BoundPrecision::Absent,
                    })
                    &&& cs.distinct_count == (match stat_lookup_u64(
                        entry@.data_file.distinct_counts,
                        id,
                    ) {
                        Option::Some(x) => Precision::Exact(x as u128),
                        Option::None => Precision::Absent,
                    })
                },
        decreases schema.fields@.len() - c,
    {
        let id = schema.fields[c].id;
        proof {
            assert(schema@.fields[c as int] == schema.fields@[c as int]@);
        }
        let null_count = match find_stat_u64(&entry.data_file.null_value_counts, id) {
            Option::Some(x) => Precision::Exact(x as u128),
            Option::None => Precision::Absent,
        };
        let max_value = match find_stat_i64(&entry.data_file.upper_bounds, id) {
            Option::Some(x) => BoundPrecision::Exact(x),
            Option::None => BoundPrecision::Absent,
        };
        let min_value = match find_stat_i64(&entry.data_file.lower_bounds, id) {
            Option::Some(x) => BoundPrecision::Exact(x),
            Option::None => BoundPrecision::Absent,
        };
        let distinct_count = match find_stat_u64(&entry.data_file.distinct_counts, id) {
            Option::Some(x) => Precision::Exact(x as u128),
            Option::None => Precision::Absent,
        };
        column_statistics.push(
            ColumnStatistics { null_count, max_value, min_value, distinct_count },
        );
        c = c + 1;
    }
    Statistics {
        num_rows: Precision::Exact(entry.data_file.record_count as u128),
        total_byte_size: Precision::Exact(entry.data_file.file_size_in_bytes as u128),
        column_statistics,
    }
}

/// Statistics of a tabular: defined for a table document (and, through its
/// storage table, for a materialized view); a plain view has none.
pub fn tabular_statistics(
    tabular: &crate::catalog::TabularMetadata,
    schema: &Schema,
    entries: &Vec<ManifestEntry>,
) -> (r: Result<Statistics, Error>)
    ensures
        match r {
            Result::Ok(stats) => {
                &&& !(tabular@ is View)
                &&& stats.num_rows == Precision::Exact(
                    sum_records(
                        crate::manifest::entries_view(entries@),
                        entries@.len() as int,
                    ) as u128,
                )
                &&& stats.total_byte_size == Precision::Exact(
                    sum_bytes(
                        crate::manifest::entries_view(entries@),
                        entries@.len() as int,
                    ) as u128,
                )
                &&& stats.column_statistics@.len() == schema.fields@.len()
            },
            Result::Err(e) => tabular@ is View && e is NotSupported,
        },
{
    match tabular {
        crate::catalog::TabularMetadata::View(_) => Result::Err(
            Error::NotSupported(String::from_str("statistics for views")),
        ),
        _ => Result::Ok(table_statistics(schema, entries)),
    }
}

} // verus!
