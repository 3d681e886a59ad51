//! Conversion of the cells of one column to values of the column's type,
//! counting valid values, null markers and failures.
use super::conversions::{
    convert_to_bool, convert_to_date32, convert_to_i64, convert_to_timestamp, convert_to_u64,
    lexical_i64, lexical_u64,
};
use super::types::{ColumnMetrics, ConversionResult, sample_after, views};
use crate::schema::DataType;
use crate::text::trim;
use crate::utils::{
    is_null_text, spec_is_null_text, spec_parse_bool, spec_parse_date_ymd, spec_parse_timestamp,
};
use vstd::prelude::*;

verus! {

/// A converted cell.
#[derive(Clone, Debug)]
pub enum CellValue {
    Null,
    Int(i64),
    UInt(u64),
    Bool(bool),
    /// Days since 1970-01-01.
    Day(i32),
    /// Ticks of the column's time unit since the Unix epoch.
    Ticks(i64),
    Text(String),
}

#[derive(Clone, Copy, Debug, PartialEq, Eq, Structural)]
pub enum CellKind {
    Valid,
    Null,
    Error,
}

/// Types whose cells this module converts (floating point is converted elsewhere).
pub open spec fn convertible(dtype: DataType) -> bool {
    dtype != DataType::Float64
}

pub open spec fn kind_from(null: bool, ok: bool) -> CellKind {
    if null {
        CellKind::Null
    } else if ok {
        CellKind::Valid
    } else {
        CellKind::Error
    }
}

/// How a cell of a column of type `dtype` converts. Text columns keep null
/// markers as text when `keep_null_text` (large text only); binary and small
/// text columns always read them as null.
pub open spec fn cell_kind(dtype: DataType, v: Seq<char>, keep_null_text: bool) -> CellKind {
    let null = spec_is_null_text(v);
    match dtype {
        DataType::Int64 => kind_from(null, lexical_i64(trim(v)) is Some),
        DataType::UInt64 => kind_from(null, lexical_u64(trim(v)) is Some),
        DataType::Boolean => kind_from(null, spec_parse_bool(v) is Some),
        DataType::Date32 => kind_from(null, spec_parse_date_ymd(v) is Some),
        DataType::Timestamp(u) => kind_from(null, spec_parse_timestamp(v, u) is Some),
        DataType::Utf8 | DataType::Binary | DataType::LargeBinary | DataType::Float64 => kind_from(
            null,
            true,
        ),
        _ => kind_from(null && !keep_null_text, true),
    }
}

/// The value a cell converts to.
pub open spec fn cell_value_ok(dtype: DataType, v: Seq<char>, keep_null_text: bool, c: CellValue) -> bool {
    if cell_kind(dtype, v, keep_null_text) != CellKind::Valid {
        c is Null
    } else {
        match dtype {
            DataType::Int64 => c == CellValue::Int(lexical_i64(trim(v)).unwrap()),
            DataType::UInt64 => c == CellValue::UInt(lexical_u64(trim(v)).unwrap()),
            DataType::Boolean => c == CellValue::Bool(spec_parse_bool(v).unwrap()),
            DataType::Date32 => c == CellValue::Day(spec_parse_date_ymd(v).unwrap()),
            DataType::Timestamp(u) => c == CellValue::Ticks(spec_parse_timestamp(v, u).unwrap()),
            _ => c matches CellValue::Text(s) && s@ == v,
        }
    }
}

pub open spec fn count_kind(dtype: DataType, vs: Seq<Seq<char>>, keep: bool, k: CellKind) -> nat
    decreases vs.len(),
{
    if vs.len() == 0 {
        0
    } else {
        count_kind(dtype, vs.drop_last(), keep, k) + if cell_kind(dtype, vs.last(), keep) == k {
            1nat
        } else {
            0nat
        }
    }
}

/// The raw values that fail conversion, in order.
pub open spec fn failures(dtype: DataType, vs: Seq<Seq<char>>, keep: bool) -> Seq<Seq<char>>
    decreases vs.len(),
{
    if vs.len() == 0 {
        seq![]
    } else {
        failures(dtype, vs.drop_last(), keep) + if cell_kind(dtype, vs.last(), keep)
            == CellKind::Error {
            seq![vs.last()]
        } else {
            seq![]
        }
    }
}

/// Metrics after the cells `vs` of a column were converted: each cell is
/// counted once as valid, null or failed, and failures are sampled.
pub open spec fn metrics_after(
    old: ColumnMetrics,
    new: ColumnMetrics,
    dtype: DataType,
    vs: Seq<Seq<char>>,
    keep: bool,
) -> bool {
    &&& new.name == old.name
    &&& new.total_values == old.total_values
    &&& new.total_valid_values == old.total_valid_values + count_kind(dtype, vs, keep, CellKind::Valid)
    &&& new.total_null_text == old.total_null_text + count_kind(dtype, vs, keep, CellKind::Null)
    &&& new.total_conversion_errors == old.total_conversion_errors + count_kind(
        dtype,
        vs,
        keep,
        CellKind::Error,
    )
    &&& new.error_samples.limit == old.error_samples.limit
    &&& new.error_samples.kept() == sample_after(
        old.error_samples.kept(),
        old.error_samples.limit as int,
        failures(dtype, vs, keep),
    )
}

pub proof fn lemma_sample_after_append(k: Seq<Seq<char>>, l: int, a: Seq<Seq<char>>, b: Seq<Seq<char>>)
    requires
        l >= 0,
    ensures
        sample_after(sample_after(k, l, a), l, b) == sample_after(k, l, a + b),
{
    if k.len() < l {
        if a.len() <= l - k.len() {
            if b.len() <= l - (k.len() + a.len()) {
                assert(k + a + b =~= k + (a + b));
            } else {
                assert((k + a) + b.take(l - (k.len() + a.len())) =~= k + (a + b).take(l - k.len()));
            }
        } else {
            assert(k + a.take(l - k.len()) =~= k + (a + b).take(l - k.len()));
        }
    }
}

proof fn lemma_single_cell(dtype: DataType, v: Seq<char>, keep: bool)
    ensures
        forall|k: CellKind| #[trigger] count_kind(dtype, seq![v], keep, k) == if cell_kind(dtype, v, keep) == k {
            1nat
        } else {
            0nat
        },
        failures(dtype, seq![v], keep) == if cell_kind(dtype, v, keep) == CellKind::Error {
            seq![v]
        } else {
            Seq::<Seq<char>>::empty()
        },
{
    let vs = seq![v];
    assert(vs.drop_last() =~= Seq::<Seq<char>>::empty());
    assert(failures(dtype, vs.drop_last(), keep) == Seq::<Seq<char>>::empty());
    assert forall|k: CellKind| #[trigger] count_kind(dtype, vs, keep, k) == if cell_kind(dtype, v, keep) == k {
            1nat
        } else {
            0nat
        } by {
        assert(count_kind(dtype, vs.drop_last(), keep, k) == 0);
    }
    assert(failures(dtype, vs, keep) =~= failures(dtype, vs.drop_last(), keep) + if cell_kind(dtype, v, keep) == CellKind::Error {
            seq![v]
        } else {
            seq![]
        });
}

proof fn lemma_sample_after_nothing(k: Seq<Seq<char>>, l: int)
    ensures
        sample_after(k, l, Seq::empty()) == k,
{
    assert(k + Seq::<Seq<char>>::empty() =~= k);
}

/// Record one conversion outcome in `metrics` and return the converted value.
pub fn record_outcome<T>(metrics: &mut ColumnMetrics, r: ConversionResult<T>) -> (out: Option<T>)
    requires
        old(metrics).total_valid_values < usize::MAX,
        old(metrics).total_null_text < usize::MAX,
        old(metrics).total_conversion_errors < usize::MAX,
    ensures
        final(metrics).name == old(metrics).name,
        final(metrics).total_values == old(metrics).total_values,
        final(metrics).error_samples.limit == old(metrics).error_samples.limit,
        match r {
            ConversionResult::Valid(x) => {
                &&& out == Some(x)
                &&& final(metrics).total_valid_values == old(metrics).total_valid_values + 1
                &&& final(metrics).total_null_text == old(metrics).total_null_text
                &&& final(metrics).total_conversion_errors == old(metrics).total_conversion_errors
                &&& final(metrics).error_samples == old(metrics).error_samples
            },
            ConversionResult::ExplicitNull => {
                &&& out is None
                &&& final(metrics).total_valid_values == old(metrics).total_valid_values
                &&& final(metrics).total_null_text == old(metrics).total_null_text + 1
                &&& final(metrics).total_conversion_errors == old(metrics).total_conversion_errors
                &&& final(metrics).error_samples == old(metrics).error_samples
            },
            ConversionResult::ConversionError(raw) => {
                &&& out is None
                &&& final(metrics).total_valid_values == old(metrics).total_valid_values
                &&& final(metrics).total_null_text == old(metrics).total_null_text
                &&& final(metrics).total_conversion_errors == old(metrics).total_conversion_errors
                    + 1
                &&& final(metrics).error_samples.kept() == sample_after(
                    old(metrics).error_samples.kept(),
                    old(metrics).error_samples.limit as int,
                    seq![raw@],
                )
            },
        },
{
    match r {
        ConversionResult::Valid(x) => {
            metrics.total_valid_values = metrics.total_valid_values + 1;
            Some(x)
        },
        ConversionResult::ExplicitNull => {
            metrics.total_null_text = metrics.total_null_text + 1;
            None
        },
        ConversionResult::ConversionError(raw) => {
            metrics.total_conversion_errors = metrics.total_conversion_errors + 1;
            metrics.error_samples.add(raw);
            None
        },
    }
}

/// Convert one cell of a column of type `dtype`, recording the outcome.
pub fn convert_cell(dtype: DataType, v: &String, keep_null_text: bool, metrics: &mut ColumnMetrics) -> (c: CellValue)
    requires
        convertible(dtype),
        old(metrics).total_valid_values < usize::MAX,
        old(metrics).total_null_text < usize::MAX,
        old(metrics).total_conversion_errors < usize::MAX,
    ensures
        cell_value_ok(dtype, v@, keep_null_text, c),
        metrics_after(*old(metrics), *final(metrics), dtype, seq![v@], keep_null_text),
{
    proof {
        lemma_single_cell(dtype, v@, keep_null_text);
        lemma_sample_after_nothing(old(metrics).error_samples.kept(), old(metrics).error_samples.limit as int);
    }
    let s = v.as_str();
    match dtype {
        DataType::Int64 => match record_outcome(metrics, convert_to_i64(s)) {
            Some(x) => CellValue::Int(x),
            None => CellValue::Null,
        },
        DataType::UInt64 => match record_outcome(metrics, convert_to_u64(s)) {
            Some(x) => CellValue::UInt(x),
            None => CellValue::Null,
        },
        DataType::Boolean => match record_outcome(metrics, convert_to_bool(s)) {
            Some(x) => CellValue::Bool(x),
            None => CellValue::Null,
        },
        DataType::Date32 => match record_outcome(metrics, convert_to_date32(s)) {
            Some(x) => CellValue::Day(x),
            None => CellValue::Null,
        },
        DataType::Timestamp(u) => match record_outcome(metrics, convert_to_timestamp(s, u)) {
            Some(x) => CellValue::Ticks(x),
            None => CellValue::Null,
        },
        _ => {
            let keep = match dtype {
                DataType::LargeUtf8 | DataType::Other => keep_null_text,
                _ => false,
            };
            let r = if !keep && is_null_text(s) {
                ConversionResult::ExplicitNull
            } else {
                ConversionResult::Valid(v.clone())
            };
            match record_outcome(metrics, r) {
                Some(x) => CellValue::Text(x),
                None => CellValue::Null,
            }
        },
    }
}

/// Convert the cells of one column; `keep_null_text` keeps null markers of a
/// large text column as text.
pub fn build_column(
    dtype: DataType,
    values: &Vec<String>,
    metrics: &mut ColumnMetrics,
    keep_null_text: bool,
) -> (out: Vec<CellValue>)
    requires
        convertible(dtype),
        old(metrics).total_valid_values + values@.len() <= usize::MAX,
        old(metrics).total_null_text + values@.len() <= usize::MAX,
        old(metrics).total_conversion_errors + values@.len() <= usize::MAX,
    ensures
        out@.len() == values@.len(),
        forall|i: int|
            0 <= i < values@.len() ==> cell_value_ok(dtype, values@[i]@, keep_null_text, #[trigger] out@[i]),
        metrics_after(*old(metrics), *final(metrics), dtype, views(values@), keep_null_text),
{
    let ghost m0 = *metrics;
    let mut out: Vec<CellValue> = Vec::new();
    let mut i: usize = 0;
    proof {
        assert(views(values@).take(0) =~= Seq::<Seq<char>>::empty());
    }
    while i < values.len()
        invariant
            convertible(dtype),
            i <= values@.len(),
            out@.len() == i,
            m0.total_valid_values + values@.len() <= usize::MAX,
            m0.total_null_text + values@.len() <= usize::MAX,
            m0.total_conversion_errors + values@.len() <= usize::MAX,
            forall|j: int|
                0 <= j < i ==> cell_value_ok(dtype, values@[j]@, keep_null_text, #[trigger] out@[j]),
            metrics_after(m0, *metrics, dtype, views(values@).take(i as int), keep_null_text),
            count_kind(dtype, views(values@).take(i as int), keep_null_text, CellKind::Valid)
                + count_kind(dtype, views(values@).take(i as int), keep_null_text, CellKind::Null)
                + count_kind(dtype, views(values@).take(i as int), keep_null_text, CellKind::Error)
                == i,
        decreases values@.len() - i,
    {
        let ghost before = *metrics;
        let ghost pre = views(values@).take(i as int);
        let c = convert_cell(dtype, &values[i], keep_null_text, metrics);
        out.push(c);
        proof {
            let next = views(values@).take(i + 1);
            assert(next.drop_last() =~= pre);
            assert(next.last() == values@[i as int]@);
            lemma_sample_after_append(
                m0.error_samples.kept(),
                m0.error_samples.limit as int,
                failures(dtype, pre, keep_null_text),
                failures(dtype, seq![values@[i as int]@], keep_null_text),
            );
            lemma_single_cell(dtype, values@[i as int]@, keep_null_text);
            assert(failures(dtype, next, keep_null_text) =~= failures(dtype, pre, keep_null_text)
                + failures(dtype, seq![values@[i as int]@], keep_null_text));
        }
        i = i + 1;
    }
    proof {
        assert(views(values@).take(values@.len() as int) =~= views(values@));
    }
    out
}

/// Transpose records into per-column values; a missing cell reads as empty.
pub fn split_columns(records: &Vec<Vec<String>>, column_count: usize) -> (columns: Vec<Vec<String>>)
    ensures
        columns@.len() == column_count,
        forall|c: int|
            0 <= c < column_count ==> #[trigger] columns@[c]@.len() == records@.len(),
        forall|c: int, r: int|
            0 <= c < column_count && 0 <= r < records@.len() ==> (#[trigger] columns@[c]@[r])@ == (
            if c < records@[r]@.len() {
                records@[r]@[c]@
            } else {
                Seq::<char>::empty()
            }),
{
    let mut columns: Vec<Vec<String>> = Vec::new();
    let mut c: usize = 0;
    while c < column_count
        invariant
            c <= column_count,
            columns@.len() == c,
            forall|k: int| 0 <= k < c ==> #[trigger] columns@[k]@.len() == records@.len(),
            forall|k: int, r: int|
                0 <= k < c && 0 <= r < records@.len() ==> (#[trigger] columns@[k]@[r])@ == (if k
                    < records@[r]@.len() {
                    records@[r]@[k]@
                } else {
                    Seq::<char>::empty()
                }),
        decreases column_count - c,
    {
        let mut column: Vec<String> = Vec::new();
        let mut r: usize = 0;
        while r < records.len()
            invariant
                r <= records@.len(),
                column@.len() == r,
                forall|q: int|
                    0 <= q < r ==> (#[trigger] column@[q])@ == (if c < records@[q]@.len() {
                        records@[q]@[c as int]@
                    } else {
                        Seq::<char>::empty()
                    }),
            decreases records@.len() - r,
        {
            if c < records[r].len() {
                column.push(records[r][c].clone());
            } else {
                column.push(String::new());
            }
            r = r + 1;
        }
        columns.push(column);
        c = c + 1;
    }
    columns
}


/// Every converted cell is counted exactly once: as valid, as null, or as a failure.
pub proof fn law_each_cell_counted_once(dtype: DataType, vs: Seq<Seq<char>>, keep: bool)
    ensures
        count_kind(dtype, vs, keep, CellKind::Valid) + count_kind(dtype, vs, keep, CellKind::Null)
            + count_kind(dtype, vs, keep, CellKind::Error) == vs.len(),
    decreases vs.len(),
{
    if vs.len() > 0 {
        law_each_cell_counted_once(dtype, vs.drop_last(), keep);
    }
}

/// Counting block by block gives the file's counts: the cells of two blocks
/// counted apart add up to the cells counted together (in either order, the
/// sum being the same), and the failures of the two follow each other.
pub proof fn law_block_counts_add_up(
    dtype: DataType,
    a: Seq<Seq<char>>,
    b: Seq<Seq<char>>,
    keep: bool,
    k: CellKind,
)
    ensures
        count_kind(dtype, a + b, keep, k) == count_kind(dtype, a, keep, k) + count_kind(
            dtype,
            b,
            keep,
            k,
        ),
        failures(dtype, a + b, keep) == failures(dtype, a, keep) + failures(dtype, b, keep),
    decreases b.len(),
{
    if b.len() == 0 {
        assert(a + b =~= a);
        assert(failures(dtype, a, keep) + Seq::<Seq<char>>::empty() =~= failures(dtype, a, keep));
    } else {
        law_block_counts_add_up(dtype, a, b.drop_last(), keep, k);
        assert((a + b).drop_last() =~= a + b.drop_last());
        assert((a + b).last() == b.last());
        assert(failures(dtype, a + b, keep) =~= failures(dtype, a, keep) + failures(dtype, b, keep));
    }
}

/// A null marker converts to null in a column of any type, except a large
/// text column whose null markers are kept as text.
pub proof fn law_null_markers_are_null(dtype: DataType, v: Seq<char>, keep_null_text: bool)
    requires
        spec_is_null_text(v),
        !(keep_null_text && (dtype == DataType::LargeUtf8 || dtype == DataType::Other)),
    ensures
        cell_kind(dtype, v, keep_null_text) == CellKind::Null,
        forall|c: CellValue| cell_value_ok(dtype, v, keep_null_text, c) <==> c is Null,
{
}

/// With null markers kept, a large text column keeps every cell exactly as
/// read: nothing is converted, nothing becomes null.
pub proof fn law_kept_text_is_raw(v: Seq<char>)
    ensures
        cell_kind(DataType::LargeUtf8, v, true) == CellKind::Valid,
        forall|c: CellValue|
            cell_value_ok(DataType::LargeUtf8, v, true, c) <==> (c matches CellValue::Text(s) && s@
                == v),
{
}

/// Fresh metrics for the columns of a block of `total` records.
pub fn new_block_metrics(fields: &Vec<crate::schema::Field>, total: usize) -> (m: Vec<ColumnMetrics>)
    ensures
        m@.len() == fields@.len(),
        forall|c: int|
            #![trigger m@[c]]
            0 <= c < fields@.len() ==> {
                &&& m@[c].name@ == fields@[c].name@
                &&& m@[c].total_values == total
                &&& m@[c].total_null_text == 0
                &&& m@[c].total_conversion_errors == 0
                &&& m@[c].total_valid_values == 0
                &&& m@[c].error_samples.values@.len() == 0
                &&& m@[c].error_samples.limit == super::types::ERROR_SAMPLE_LIMIT
            },
{
    let mut m: Vec<ColumnMetrics> = Vec::new();
    let mut c: usize = 0;
    while c < fields.len()
        invariant
            c <= fields@.len(),
            m@.len() == c,
            forall|k: int|
                #![trigger m@[k]]
                0 <= k < c ==> {
                    &&& m@[k].name@ == fields@[k].name@
                    &&& m@[k].total_values == total
                    &&& m@[k].total_null_text == 0
                    &&& m@[k].total_conversion_errors == 0
                    &&& m@[k].total_valid_values == 0
                    &&& m@[k].error_samples.values@.len() == 0
                    &&& m@[k].error_samples.limit == super::types::ERROR_SAMPLE_LIMIT
                },
        decreases fields@.len() - c,
    {
        let mut metric = ColumnMetrics::new(fields[c].name.as_str());
        metric.total_values = total;
        m.push(metric);
        c = c + 1;
    }
    m
}

} // verus!
