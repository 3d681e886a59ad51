//! Per-column conversion metrics and the outcome of converting one cell.
use vstd::prelude::*;

verus! {

/// How many failing raw values a column keeps as examples.
pub const ERROR_SAMPLE_LIMIT: usize = 10;

/// The first few raw values that failed conversion, at most `limit` of them.
#[derive(Clone, Debug)]
pub struct ErrorSample {
    pub values: Vec<String>,
    pub limit: usize,
}

/// The raw values kept after `raws` were offered, in order, to a sample that
/// held `kept` and accepts at most `limit`.
pub open spec fn sample_after(kept: Seq<Seq<char>>, limit: int, raws: Seq<Seq<char>>) -> Seq<Seq<char>> {
    if kept.len() >= limit {
        kept
    } else if raws.len() <= limit - kept.len() {
        kept + raws
    } else {
        kept + raws.take(limit - kept.len())
    }
}

pub open spec fn views(v: Seq<String>) -> Seq<Seq<char>> {
    v.map_values(|s: String| s@)
}

impl ErrorSample {
    pub open spec fn kept(self) -> Seq<Seq<char>> {
        views(self.values@)
    }

    pub fn new(limit: usize) -> (s: ErrorSample)
        ensures
            s.values@.len() == 0,
            s.limit == limit,
    {
        ErrorSample { values: Vec::new(), limit }
    }

    /// Keep `value` if fewer than `limit` values are kept.
    pub fn add(&mut self, value: String)
        ensures
            final(self).limit == old(self).limit,
            old(self).values@.len() < old(self).limit ==> final(self).values@ == old(self).values@.push(value),
            old(self).values@.len() >= old(self).limit ==> final(self).values@ == old(self).values@,
            final(self).kept() == sample_after(old(self).kept(), old(self).limit as int, seq![value@]),
    {
        if self.values.len() < self.limit {
            self.values.push(value);
        }
        proof {
            let raws = seq![value@];
            if old(self).values@.len() < old(self).limit {
                assert(views(self.values@) =~= views(old(self).values@) + raws);
            }
        }
    }
}

/// Counts of how the cells of a column converted.
#[derive(Clone, Debug)]
pub struct ColumnMetrics {
    pub name: String,
    pub total_values: usize,
    pub total_null_text: usize,
    pub total_conversion_errors: usize,
    pub total_valid_values: usize,
    pub error_samples: ErrorSample,
}

impl ColumnMetrics {
    pub fn new(name: &str) -> (m: ColumnMetrics)
        ensures
            m.name@ == name@,
            m.total_values == 0,
            m.total_null_text == 0,
            m.total_conversion_errors == 0,
            m.total_valid_values == 0,
            m.error_samples.values@.len() == 0,
            m.error_samples.limit == ERROR_SAMPLE_LIMIT,
    {
        ColumnMetrics {
            name: name.to_owned(),
            total_values: 0,
            total_null_text: 0,
            total_conversion_errors: 0,
            total_valid_values: 0,
            error_samples: ErrorSample::new(ERROR_SAMPLE_LIMIT),
        }
    }
}

/// The outcome of converting one cell.
pub enum ConversionResult<T> {
    Valid(T),
    ExplicitNull,
    ConversionError(String),
}

/// Records that could not be read as CSV.
#[derive(Debug)]
pub struct ErrorCounters {
    pub parse_errors: usize,
}

impl ErrorCounters {
    pub fn new() -> (c: ErrorCounters)
        ensures
            c.parse_errors == 0,
    {
        ErrorCounters { parse_errors: 0 }
    }

    /// Count one more unreadable record (wrapping, as an atomic counter does).
    pub fn record_parse_error(&mut self)
        ensures
            final(self).parse_errors == (if old(self).parse_errors == usize::MAX {
                0
            } else {
                old(self).parse_errors + 1
            }),
    {
        if self.parse_errors == usize::MAX {
            self.parse_errors = 0;
        } else {
            self.parse_errors = self.parse_errors + 1;
        }
    }
}

} // verus!
