//! Conversion of a block of records into typed columns, with metrics.
pub mod builders;
pub mod conversions;
pub mod types;

use crate::schema::{DataType, Field};
use builders::{
    build_column, cell_value_ok, count_kind, failures, split_columns, CellKind, CellValue,
};
use types::{sample_after, views, ColumnMetrics, ERROR_SAMPLE_LIMIT};
use vstd::prelude::*;

verus! {

/// The converted cells of a block, column by column, and each column's
/// metrics. The cells of a floating-point column stay raw text and its
/// metrics stay at zero: those are converted by the caller.
pub struct BlockCells {
    pub columns: Vec<Vec<CellValue>>,
    pub metrics: Vec<ColumnMetrics>,
}

/// The text of column `c` in record `r`; a missing cell reads as empty.
pub open spec fn cell_text(records: Seq<Vec<String>>, c: int, r: int) -> Seq<char> {
    if c < records[r]@.len() {
        records[r]@[c]@
    } else {
        Seq::empty()
    }
}

pub open spec fn column_texts(records: Seq<Vec<String>>, c: int) -> Seq<Seq<char>> {
    Seq::new(records.len(), |r: int| cell_text(records, c, r))
}

/// What `analyze_block` makes of column `c` typed `dtype`.
pub open spec fn column_analyzed(
    records: Seq<Vec<String>>,
    c: int,
    dtype: DataType,
    force_utf8: bool,
    cells: Seq<CellValue>,
    m: ColumnMetrics,
) -> bool {
    let texts = column_texts(records, c);
    &&& cells.len() == records.len()
    &&& m.total_values == records.len()
    &&& m.error_samples.limit == ERROR_SAMPLE_LIMIT
    &&& if dtype == DataType::Float64 {
        &&& forall|r: int|
            0 <= r < records.len() ==> is_text_of(#[trigger] cells[r], texts[r])
        &&& m.total_valid_values == 0
        &&& m.total_null_text == 0
        &&& m.total_conversion_errors == 0
        &&& m.error_samples.kept().len() == 0
    } else {
        &&& forall|r: int|
            0 <= r < records.len() ==> cell_value_ok(dtype, texts[r], force_utf8, #[trigger] cells[r])
        &&& m.total_valid_values == count_kind(dtype, texts, force_utf8, CellKind::Valid)
        &&& m.total_null_text == count_kind(dtype, texts, force_utf8, CellKind::Null)
        &&& m.total_conversion_errors == count_kind(dtype, texts, force_utf8, CellKind::Error)
        &&& m.error_samples.kept() == sample_after(
            Seq::empty(),
            ERROR_SAMPLE_LIMIT as int,
            failures(dtype, texts, force_utf8),
        )
    }
}

/// Convert a block of records to the types of `fields`, counting per column
/// the valid values, null markers and failures. With `force_utf8`, null
/// markers of large text columns stay text.
pub fn analyze_block(records: &Vec<Vec<String>>, fields: &Vec<Field>, force_utf8: bool) -> (b:
    BlockCells)
    ensures
        b.columns@.len() == fields@.len(),
        b.metrics@.len() == fields@.len(),
        forall|c: int|
            #![trigger b.metrics@[c]]
            0 <= c < fields@.len() ==> b.metrics@[c].name@ == fields@[c].name@ && column_analyzed(
                records@,
                c,
                fields@[c].data_type,
                force_utf8,
                b.columns@[c]@,
                b.metrics@[c],
            ),
{
    let texts = split_columns(records, fields.len());
    let total = records.len();
    let mut columns: Vec<Vec<CellValue>> = Vec::new();
    let mut metrics: Vec<ColumnMetrics> = Vec::new();
    let mut c: usize = 0;
    while c < fields.len()
        invariant
            c <= fields@.len(),
            total == records@.len(),
            texts@.len() == fields@.len(),
            forall|k: int| 0 <= k < fields@.len() ==> #[trigger] texts@[k]@.len() == records@.len(),
            forall|k: int, r: int|
                0 <= k < fields@.len() && 0 <= r < records@.len() ==> (#[trigger] texts@[k]@[r])@
                    == cell_text(records@, k, r),
            columns@.len() == c,
            metrics@.len() == c,
            forall|k: int|
                #![trigger metrics@[k]]
                0 <= k < c ==> metrics@[k].name@ == fields@[k].name@ && column_analyzed(
                    records@,
                    k,
                    fields@[k].data_type,
                    force_utf8,
                    columns@[k]@,
                    metrics@[k],
                ),
        decreases fields@.len() - c,
    {
        let dtype = fields[c].data_type;
        let mut m = ColumnMetrics::new(fields[c].name.as_str());
        m.total_values = total;
        let column = &texts[c];
        proof {
            assert(m.error_samples.kept() =~= Seq::<Seq<char>>::empty());
        }
        let cells = if dtype == DataType::Float64 {
            let mut raw: Vec<CellValue> = Vec::new();
            let mut r: usize = 0;
            while r < column.len()
                invariant
                    r <= column@.len(),
                    raw@.len() == r,
                    forall|q: int|
                        0 <= q < r ==> is_text_of(#[trigger] raw@[q], column@[q]@),
                decreases column@.len() - r,
            {
                raw.push(CellValue::Text(column[r].clone()));
                r = r + 1;
            }
            raw
        } else {
            build_column(dtype, column, &mut m, force_utf8)
        };
        proof {
            assert(views(column@) =~= column_texts(records@, c as int)) by {
                assert forall|r: int| 0 <= r < records@.len() implies views(column@)[r]
                    == column_texts(records@, c as int)[r] by {
                    assert(column@[r]@ == cell_text(records@, c as int, r));
                }
            }
        }
        columns.push(cells);
        metrics.push(m);
        c = c + 1;
    }
    BlockCells { columns, metrics }
}

/// The cell holds the raw text `t`.
pub open spec fn is_text_of(cell: CellValue, t: Seq<char>) -> bool {
    match cell {
        CellValue::Text(s) => s@ == t,
        _ => false,
    }
}

} // verus!
