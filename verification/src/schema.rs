//! Column type inference: every non-null sampled value is tested against each
//! candidate type and counted; a type is chosen when at least 95% of the
//! observed values support it (80% for timestamps in a column with textual
//! datetimes), in the precedence timestamp, date, boolean, integer, float,
//! then text.
use crate::text::{
    chars_of, float_syntax, is_float_syntax, parse_i128_chars, parse_i128_spec, string_from_chars, trim,
    trimmed,
};
use crate::utils::{
    TimeUnit, UtcInstant, is_null_text, parse_bool, parse_date_ymd, parse_textual_datetime,
    spec_is_null_text, spec_parse_bool, spec_parse_date_ymd, spec_textual_datetime,
};
use vstd::prelude::*;

verus! {

/// Rows sampled for inference unless the whole input is scanned.
pub const SCHEMA_SAMPLE_ROWS: usize = 10_000;

/// Logical column types of the Parquet output.
#[derive(Clone, Copy, Debug, PartialEq, Eq, Structural)]
pub enum DataType {
    Boolean,
    Int64,
    UInt64,
    Float64,
    Date32,
    Timestamp(TimeUnit),
    Utf8,
    LargeUtf8,
    Binary,
    LargeBinary,
    /// Any other type; its values are stored as large text.
    Other,
}

/// A named, typed column of a schema.
#[derive(Clone, Debug)]
pub struct Field {
    pub name: String,
    pub data_type: DataType,
    pub nullable: bool,
}

#[derive(Clone, Copy, Debug, PartialEq, Eq, Structural)]
pub enum TimestampFormat {
    Textual,
    Numeric,
}

/// Counts of how many observed values support each candidate type.
#[derive(Clone, Copy, Debug, PartialEq, Eq, Structural)]
pub struct TypeState {
    pub bool_ok: u64,
    pub date_ok: u64,
    pub int_ok: u64,
    pub float_ok: u64,
    pub min_value: i128,
    pub max_value: i128,
    pub ts_seconds: u64,
    pub ts_millis: u64,
    pub ts_micros: u64,
    pub ts_nanos: u64,
    pub ts_textual: u64,
    pub total_values: u64,
}

// ---------------------------------------------------------------- timestamp units

/// Unit implied by the fractional-second digits of a textual timestamp.
pub open spec fn spec_fractional_unit(nanos: u32) -> TimeUnit {
    if nanos % 1_000_000 == 0 {
        TimeUnit::Millisecond
    } else if nanos % 1_000 == 0 {
        TimeUnit::Microsecond
    } else {
        TimeUnit::Nanosecond
    }
}

/// `i128::abs` as the release build computes it (wrapping at `i128::MIN`).
pub open spec fn wrapping_abs(x: i128) -> int {
    if x == i128::MIN {
        i128::MIN as int
    } else if x < 0 {
        -x
    } else {
        x as int
    }
}

/// Unit implied by the magnitude of an integer epoch: seconds below 10^10,
/// milliseconds below 10^13, microseconds below 10^16, nanoseconds above.
pub open spec fn spec_numeric_unit(x: i128) -> TimeUnit {
    let a = wrapping_abs(x);
    if a < 10_000_000_000 {
        TimeUnit::Second
    } else if a < 10_000_000_000_000 {
        TimeUnit::Millisecond
    } else if a < 10_000_000_000_000_000 {
        TimeUnit::Microsecond
    } else {
        TimeUnit::Nanosecond
    }
}

pub open spec fn spec_detect_timestamp_unit(v: Seq<char>) -> Option<(TimeUnit, TimestampFormat)> {
    let t = trim(v);
    match spec_textual_datetime(t) {
        Some(p) => Some((spec_fractional_unit(p.1), TimestampFormat::Textual)),
        None => match parse_i128_spec(t) {
            Some(x) => Some((spec_numeric_unit(x), TimestampFormat::Numeric)),
            None => None,
        },
    }
}

/// The unit of a textual datetime is the coarsest that holds its fraction of a
/// second exactly: milliseconds when the nanoseconds are whole milliseconds,
/// else microseconds when they are whole microseconds, else nanoseconds.
pub proof fn law_fraction_gets_the_coarsest_exact_unit(nanos: u32)
    ensures
        nanos % 1_000_000 == 0 ==> spec_fractional_unit(nanos) == TimeUnit::Millisecond,
        nanos % 1_000 == 0 && nanos % 1_000_000 != 0 ==> spec_fractional_unit(nanos)
            == TimeUnit::Microsecond,
        nanos % 1_000 != 0 ==> spec_fractional_unit(nanos) == TimeUnit::Nanosecond,
{
}

pub fn fractional_unit(nanos: u32) -> (u: TimeUnit)
    ensures
        u == spec_fractional_unit(nanos),
{
    if nanos % 1_000_000 == 0 {
        TimeUnit::Millisecond
    } else if nanos % 1_000 == 0 {
        TimeUnit::Microsecond
    } else {
        TimeUnit::Nanosecond
    }
}

pub fn numeric_unit(x: i128) -> (u: TimeUnit)
    ensures
        u == spec_numeric_unit(x),
{
    let a: i128 = if x == i128::MIN {
        i128::MIN
    } else if x < 0 {
        -x
    } else {
        x
    };
    if a < 10_000_000_000 {
        TimeUnit::Second
    } else if a < 10_000_000_000_000 {
        TimeUnit::Millisecond
    } else if a < 10_000_000_000_000_000 {
        TimeUnit::Microsecond
    } else {
        TimeUnit::Nanosecond
    }
}

pub fn detect_timestamp_unit(value: &str) -> (r: Option<(TimeUnit, TimestampFormat)>)
    ensures
        r == spec_detect_timestamp_unit(value@),
{
    let t = trimmed(value);
    let text = string_from_chars(t.as_slice());
    let dt: Option<UtcInstant> = parse_textual_datetime(text.as_str());
    match dt {
        Some(d) => Some((fractional_unit(d.nanos), TimestampFormat::Textual)),
        None => match parse_i128_chars(t.as_slice()) {
            Some(x) => Some((numeric_unit(x), TimestampFormat::Numeric)),
            None => None,
        },
    }
}

// ---------------------------------------------------------------- type state

pub open spec fn inc_if(n: u64, b: bool) -> u64 {
    if b {
        (n + 1) as u64
    } else {
        n
    }
}

pub open spec fn min_i128(a: i128, b: i128) -> i128 {
    if a <= b {
        a
    } else {
        b
    }
}

pub open spec fn max_i128(a: i128, b: i128) -> i128 {
    if a >= b {
        a
    } else {
        b
    }
}

/// Confidence threshold 95%, as the exact fraction 19/20.
pub open spec fn confident(ok: u64, total: u64) -> bool {
    ok > 0 && ok * 20 >= (if total == 0 {
        1
    } else {
        total as int
    }) * 19
}

/// Confidence threshold for columns of textual datetimes: 80%, as the exact
/// fraction 4/5.
pub open spec fn timestamp_confident(ok: int, total: u64) -> bool {
    ok > 0 && ok * 5 >= (if total == 0 {
        1
    } else {
        total as int
    }) * 4
}

impl TypeState {
    pub open spec fn initial() -> TypeState {
        TypeState {
            bool_ok: 0,
            date_ok: 0,
            int_ok: 0,
            float_ok: 0,
            min_value: i128::MAX,
            max_value: i128::MIN,
            ts_seconds: 0,
            ts_millis: 0,
            ts_micros: 0,
            ts_nanos: 0,
            ts_textual: 0,
            total_values: 0,
        }
    }

    pub open spec fn ts_total(self) -> int {
        self.ts_seconds + self.ts_millis + self.ts_micros + self.ts_nanos
    }

    /// No counter exceeds the number of observed values.
    pub open spec fn wf(self) -> bool {
        &&& self.bool_ok <= self.total_values
        &&& self.date_ok <= self.total_values
        &&& self.int_ok <= self.total_values
        &&& self.float_ok <= self.total_values
        &&& self.ts_total() <= self.total_values
        &&& self.ts_textual <= self.ts_total()
    }

    /// The counts after a timestamp of `unit` and `format` has been seen.
    pub open spec fn with_timestamp(self, unit: TimeUnit, format: TimestampFormat) -> TypeState {
        let s = TypeState { ts_textual: inc_if(self.ts_textual, format == TimestampFormat::Textual), ..self };
        match unit {
            TimeUnit::Second => TypeState { ts_seconds: (s.ts_seconds + 1) as u64, ..s },
            TimeUnit::Millisecond => TypeState { ts_millis: (s.ts_millis + 1) as u64, ..s },
            TimeUnit::Microsecond => TypeState { ts_micros: (s.ts_micros + 1) as u64, ..s },
            TimeUnit::Nanosecond => TypeState { ts_nanos: (s.ts_nanos + 1) as u64, ..s },
        }
    }

    pub open spec fn with_numeric(self, t: Seq<char>) -> TypeState {
        let s = match parse_i128_spec(t) {
            Some(x) => TypeState {
                int_ok: (self.int_ok + 1) as u64,
                min_value: min_i128(self.min_value, x),
                max_value: max_i128(self.max_value, x),
                ..self
            },
            None => self,
        };
        TypeState { float_ok: inc_if(s.float_ok, float_syntax(t)), ..s }
    }

    pub open spec fn with_temporal(self, t: Seq<char>) -> TypeState {
        let s = TypeState { date_ok: inc_if(self.date_ok, spec_parse_date_ymd(t) is Some), ..self };
        match spec_detect_timestamp_unit(t) {
            Some(p) => s.with_timestamp(p.0, p.1),
            None => s,
        }
    }

    /// The counts after `value` has been observed: nulls are skipped, any other
    /// value is trimmed and tested against every candidate type.
    pub open spec fn observed(self, value: Seq<char>) -> TypeState {
        if spec_is_null_text(value) {
            self
        } else {
            let t = trim(value);
            let s = TypeState {
                total_values: (self.total_values + 1) as u64,
                bool_ok: inc_if(self.bool_ok, spec_parse_bool(t) is Some),
                ..self
            };
            s.with_numeric(t).with_temporal(t)
        }
    }

    pub open spec fn spec_choose_timestamp_unit(self) -> TimeUnit {
        // the last of the maximal counts wins
        let best01 = if self.ts_millis >= self.ts_seconds {
            (TimeUnit::Millisecond, self.ts_millis)
        } else {
            (TimeUnit::Second, self.ts_seconds)
        };
        let best012 = if self.ts_micros >= best01.1 {
            (TimeUnit::Microsecond, self.ts_micros)
        } else {
            best01
        };
        if self.ts_nanos >= best012.1 {
            TimeUnit::Nanosecond
        } else {
            best012.0
        }
    }

    /// A column holding a textual datetime is a timestamp column when at least
    /// 80% of its values are timestamps; one of bare integers only when they
    /// are not confidently integers and at least 95% of them read as epochs.
    pub open spec fn spec_timestamp_type(self) -> Option<DataType> {
        let also_integer = confident(self.int_ok, self.total_values);
        let accepted = if self.ts_textual > 0 {
            timestamp_confident(self.ts_total(), self.total_values)
        } else {
            !also_integer && self.ts_total() > 0 && self.ts_total() * 20 >= (
            if self.total_values == 0 {
                1
            } else {
                self.total_values as int
            }) * 19
        };
        if accepted {
            Some(DataType::Timestamp(self.spec_choose_timestamp_unit()))
        } else {
            None
        }
    }

    pub open spec fn spec_integer_type(self) -> Option<DataType> {
        if !confident(self.int_ok, self.total_values) {
            None
        } else if self.min_value >= i64::MIN && self.max_value <= i64::MAX {
            Some(DataType::Int64)
        } else if self.min_value >= 0 && self.max_value <= u64::MAX {
            Some(DataType::UInt64)
        } else {
            None
        }
    }

    /// The inferred type, in precedence order.
    pub open spec fn spec_finalize(self) -> DataType {
        if self.total_values == 0 {
            DataType::LargeUtf8
        } else if self.spec_timestamp_type() is Some {
            self.spec_timestamp_type().unwrap()
        } else if confident(self.date_ok, self.total_values) {
            DataType::Date32
        } else if confident(self.bool_ok, self.total_values) {
            DataType::Boolean
        } else if self.spec_integer_type() is Some {
            self.spec_integer_type().unwrap()
        } else if confident(self.float_ok, self.total_values) {
            DataType::Float64
        } else {
            DataType::LargeUtf8
        }
    }

    pub fn new() -> (s: TypeState)
        ensures
            s == TypeState::initial(),
            s.wf(),
    {
        TypeState {
            bool_ok: 0,
            date_ok: 0,
            int_ok: 0,
            float_ok: 0,
            min_value: i128::MAX,
            max_value: i128::MIN,
            ts_seconds: 0,
            ts_millis: 0,
            ts_micros: 0,
            ts_nanos: 0,
            ts_textual: 0,
            total_values: 0,
        }
    }

    /// Each non-null value is tested against every candidate type and counted.
    /// No type is eliminated early: a minority of unparseable values must not
    /// veto a type the majority of the column satisfies.
    pub fn observe(&mut self, value: &str)
        requires
            old(self).wf(),
            old(self).total_values < u64::MAX,
        ensures
            *final(self) == old(self).observed(value@),
            final(self).wf(),
    {
        if is_null_text(value) {
            return;
        }
        let tc = trimmed(value);
        let t = string_from_chars(tc.as_slice());
        self.total_values = self.total_values + 1;
        if parse_bool(t.as_str()).is_some() {
            self.bool_ok = self.bool_ok + 1;
        }
        self.observe_numeric(t.as_str());
        self.observe_temporal(t.as_str());
    }

    pub fn observe_numeric(&mut self, t: &str)
        requires
            old(self).wf(),
            old(self).total_values > 0,
            old(self).int_ok < old(self).total_values,
            old(self).float_ok < old(self).total_values,
        ensures
            *final(self) == old(self).with_numeric(t@),
            final(self).total_values == old(self).total_values,
            final(self).int_ok <= old(self).int_ok + 1,
            final(self).float_ok <= old(self).float_ok + 1,
    {
        let tc = chars_of(t);
        if let Some(v) = parse_i128_chars(tc.as_slice()) {
            self.int_ok = self.int_ok + 1;
            if v < self.min_value {
                self.min_value = v;
            }
            if v > self.max_value {
                self.max_value = v;
            }
        }
        if is_float_syntax(tc.as_slice()) {
            self.float_ok = self.float_ok + 1;
        }
    }

    pub fn observe_temporal(&mut self, t: &str)
        requires
            old(self).date_ok < old(self).total_values,
            old(self).ts_total() < old(self).total_values,
            old(self).ts_textual <= old(self).ts_total(),
        ensures
            *final(self) == old(self).with_temporal(t@),
            final(self).total_values == old(self).total_values,
            final(self).date_ok <= old(self).date_ok + 1,
            final(self).ts_total() <= old(self).ts_total() + 1,
            final(self).ts_textual <= final(self).ts_total(),
    {
        if parse_date_ymd(t).is_some() {
            self.date_ok = self.date_ok + 1;
        }
        if let Some((unit, format)) = detect_timestamp_unit(t) {
            self.record_timestamp(unit, format);
        }
    }

    pub fn is_confident(&self, ok: u64) -> (b: bool)
        ensures
            b == confident(ok, self.total_values),
    {
        let total: u128 = if self.total_values == 0 {
            1
        } else {
            self.total_values as u128
        };
        ok > 0 && (ok as u128) * 20 >= total * 19
    }

    fn record_timestamp(&mut self, unit: TimeUnit, format: TimestampFormat)
        requires
            old(self).ts_total() < old(self).total_values,
            old(self).ts_textual <= old(self).ts_total(),
        ensures
            *final(self) == old(self).with_timestamp(unit, format),
    {
        if format == TimestampFormat::Textual {
            self.ts_textual = self.ts_textual + 1;
        }
        match unit {
            TimeUnit::Second => self.ts_seconds = self.ts_seconds + 1,
            TimeUnit::Millisecond => self.ts_millis = self.ts_millis + 1,
            TimeUnit::Microsecond => self.ts_micros = self.ts_micros + 1,
            TimeUnit::Nanosecond => self.ts_nanos = self.ts_nanos + 1,
        }
    }

    pub fn choose_timestamp_unit(&self) -> (u: TimeUnit)
        ensures
            u == self.spec_choose_timestamp_unit(),
    {
        let mut best = TimeUnit::Second;
        let mut best_count = self.ts_seconds;
        if self.ts_millis >= best_count {
            best = TimeUnit::Millisecond;
            best_count = self.ts_millis;
        }
        if self.ts_micros >= best_count {
            best = TimeUnit::Microsecond;
            best_count = self.ts_micros;
        }
        if self.ts_nanos >= best_count {
            best = TimeUnit::Nanosecond;
        }
        best
    }

    pub fn timestamp_type(&self) -> (r: Option<DataType>)
        requires
            self.wf(),
        ensures
            r == self.spec_timestamp_type(),
    {
        let total_ts = self.ts_seconds + self.ts_millis + self.ts_micros + self.ts_nanos;
        let accepted = if self.ts_textual > 0 {
            let total: u128 = if self.total_values == 0 {
                1
            } else {
                self.total_values as u128
            };
            total_ts > 0 && (total_ts as u128) * 5 >= total * 4
        } else {
            !self.is_confident(self.int_ok) && self.is_confident(total_ts)
        };
        if accepted {
            Some(DataType::Timestamp(self.choose_timestamp_unit()))
        } else {
            None
        }
    }

    pub fn integer_type(&self) -> (r: Option<DataType>)
        ensures
            r == self.spec_integer_type(),
    {
        if !self.is_confident(self.int_ok) {
            return None;
        }
        if self.min_value >= i64::MIN as i128 && self.max_value <= i64::MAX as i128 {
            return Some(DataType::Int64);
        }
        if self.min_value >= 0 && self.max_value <= u64::MAX as i128 {
            return Some(DataType::UInt64);
        }
        None
    }

    pub fn finalize(&self) -> (d: DataType)
        requires
            self.wf(),
        ensures
            d == self.spec_finalize(),
    {
        if self.total_values == 0 {
            return DataType::LargeUtf8;
        }
        if let Some(t) = self.timestamp_type() {
            return t;
        }
        if self.is_confident(self.date_ok) {
            return DataType::Date32;
        }
        if self.is_confident(self.bool_ok) {
            return DataType::Boolean;
        }
        if let Some(t) = self.integer_type() {
            return t;
        }
        if self.is_confident(self.float_ok) {
            return DataType::Float64;
        }
        DataType::LargeUtf8
    }
}


// ---------------------------------------------------------------- sampling

/// State of column `c` after the first `n` records (unreadable records are
/// `None` and skipped; values past a record's end are absent).
pub open spec fn column_state(records: Seq<Option<Vec<String>>>, c: int, n: int) -> TypeState
    decreases n,
{
    if n <= 0 {
        TypeState::initial()
    } else {
        let s = column_state(records, c, n - 1);
        match records[n - 1] {
            Some(r) => if 0 <= c < r@.len() {
                s.observed(r@[c]@)
            } else {
                s
            },
            None => s,
        }
    }
}

/// How many records inference reads: all of them on a full scan, else at
/// most `SCHEMA_SAMPLE_ROWS`.
pub open spec fn sampled_rows(len: int, full_scan: bool) -> int {
    if full_scan || len <= SCHEMA_SAMPLE_ROWS {
        len
    } else {
        SCHEMA_SAMPLE_ROWS as int
    }
}

proof fn lemma_column_state_bounded(records: Seq<Option<Vec<String>>>, c: int, n: int)
    requires
        0 <= n <= records.len(),
        n <= u64::MAX,
    ensures
        column_state(records, c, n).wf(),
        column_state(records, c, n).total_values <= n,
    decreases n,
{
    if n > 0 {
        lemma_column_state_bounded(records, c, n - 1);
    }
}

/// Type states of the `column_count` columns over the sampled records.
pub fn sample_column_states(
    records: &Vec<Option<Vec<String>>>,
    column_count: usize,
    full_scan: bool,
) -> (states: Vec<TypeState>)
    ensures
        states@.len() == column_count,
        forall|c: int|
            0 <= c < column_count ==> #[trigger] states@[c] == column_state(
                records@,
                c,
                sampled_rows(records@.len() as int, full_scan),
            ),
{
    let mut states: Vec<TypeState> = Vec::new();
    let mut k: usize = 0;
    while k < column_count
        invariant
            k <= column_count,
            states@.len() == k,
            forall|c: int| 0 <= c < k ==> #[trigger] states@[c] == TypeState::initial(),
        decreases column_count - k,
    {
        states.push(TypeState::new());
        k = k + 1;
    }
    let rlen = records.len();
    let mut i: usize = 0;
    while i < records.len() && (full_scan || i < SCHEMA_SAMPLE_ROWS)
        invariant
            rlen == records@.len(),
            i <= records@.len(),
            full_scan || i <= SCHEMA_SAMPLE_ROWS,
            states@.len() == column_count,
            forall|c: int|
                0 <= c < column_count ==> #[trigger] states@[c] == column_state(records@, c, i as int),
        decreases records@.len() - i,
    {
        match &records[i] {
            None => {},
            Some(record) => {
                let mut j: usize = 0;
                let n = if record.len() < column_count {
                    record.len()
                } else {
                    column_count
                };
                while j < n
                    invariant
                        j <= n,
                        n <= column_count,
                        n <= record@.len(),
                        n == column_count || n == record@.len(),
                        i < records@.len(),
                        rlen == records@.len(),
                        records@[i as int] == Some(*record),
                        states@.len() == column_count,
                        forall|c: int|
                            0 <= c < column_count ==> #[trigger] states@[c] == (if c < j {
                                column_state(records@, c, i + 1)
                            } else {
                                column_state(records@, c, i as int)
                            }),
                    decreases n - j,
                {
                    proof {
                        assert(usize::MAX <= u64::MAX);
                        lemma_column_state_bounded(records@, j as int, i as int);
                    }
                    let mut st = states[j];
                    st.observe(record[j].as_str());
                    states.set(j, st);
                    j = j + 1;
                }
            },
        }
        i = i + 1;
    }
    states
}

/// Type inference fed one record at a time, as a file is read.
pub struct SchemaSampler {
    states: Vec<TypeState>,
    seen: usize,
    full_scan: bool,
    records: Ghost<Seq<Option<Vec<String>>>>,
}

impl SchemaSampler {
    /// The records observed so far (`None` for unreadable ones).
    pub closed spec fn observed(self) -> Seq<Option<Vec<String>>> {
        self.records@
    }

    pub closed spec fn column_count(self) -> int {
        self.states@.len() as int
    }

    pub closed spec fn scans_all(self) -> bool {
        self.full_scan
    }

    pub closed spec fn wf(self) -> bool {
        &&& self.seen == self.records@.len()
        &&& self.full_scan || self.seen <= SCHEMA_SAMPLE_ROWS
        &&& forall|c: int|
            0 <= c < self.states@.len() ==> #[trigger] self.states@[c] == column_state(
                self.records@,
                c,
                self.records@.len() as int,
            )
    }

    pub fn new(column_count: usize, full_scan: bool) -> (s: SchemaSampler)
        ensures
            s.wf(),
            s.column_count() == column_count,
            s.scans_all() == full_scan,
            s.observed() == Seq::<Option<Vec<String>>>::empty(),
    {
        let mut states: Vec<TypeState> = Vec::new();
        let mut k: usize = 0;
        while k < column_count
            invariant
                k <= column_count,
                states@.len() == k,
                forall|c: int| 0 <= c < k ==> #[trigger] states@[c] == TypeState::initial(),
            decreases column_count - k,
        {
            states.push(TypeState::new());
            k = k + 1;
        }
        SchemaSampler { states, seen: 0, full_scan, records: Ghost(Seq::empty()) }
    }

    /// Whether inference reads another record: always on a full scan, else
    /// until `SCHEMA_SAMPLE_ROWS` records were read.
    pub fn wants_more(&self) -> (b: bool)
        requires
            self.wf(),
        ensures
            b == (self.scans_all() || self.observed().len() < SCHEMA_SAMPLE_ROWS),
    {
        self.full_scan || self.seen < SCHEMA_SAMPLE_ROWS
    }

    /// Observe the next record of the file (`None` when it could not be read).
    pub fn observe_record(&mut self, record: Option<Vec<String>>)
        requires
            old(self).wf(),
            old(self).scans_all() || old(self).observed().len() < SCHEMA_SAMPLE_ROWS,
            old(self).observed().len() < usize::MAX,
        ensures
            final(self).wf(),
            final(self).column_count() == old(self).column_count(),
            final(self).scans_all() == old(self).scans_all(),
            final(self).observed() == old(self).observed().push(record),
    {
        let ghost before = self.records@;
        let ghost after = before.push(record);
        let column_count = self.states.len();
        match &record {
            None => {},
            Some(values) => {
                let n = if values.len() < column_count {
                    values.len()
                } else {
                    column_count
                };
                let mut j: usize = 0;
                while j < n
                    invariant
                        j <= n,
                        n <= column_count,
                        n <= values@.len(),
                        n == column_count || n == values@.len(),
                        column_count == self.states@.len(),
                        self.full_scan == old(self).full_scan,
                        self.seen == before.len(),
                        before.len() < usize::MAX,
                        after == before.push(record),
                        record == Some(*values),
                        forall|c: int|
                            0 <= c < column_count ==> #[trigger] self.states@[c] == (if c < j {
                                column_state(after, c, after.len() as int)
                            } else {
                                column_state(before, c, before.len() as int)
                            }),
                    decreases n - j,
                {
                    proof {
                        assert(usize::MAX <= u64::MAX);
                        lemma_column_state_bounded(before, j as int, before.len() as int);
                        lemma_column_state_prefix(after, j as int, before.len() as int);
                        assert(after.take(before.len() as int) =~= before);
                    }
                    let mut st = self.states[j];
                    st.observe(values[j].as_str());
                    self.states.set(j, st);
                    j = j + 1;
                }
            },
        }
        self.seen = self.seen + 1;
        self.records = Ghost(after);
        proof {
            assert forall|c: int| 0 <= c < column_count implies #[trigger] self.states@[c]
                == column_state(after, c, after.len() as int) by {
                lemma_column_state_prefix(after, c, before.len() as int);
                assert(after.take(before.len() as int) =~= before);
            }
        }
    }

    /// The fields named after `column_names`, typed from the observed records.
    pub fn fields(&self, column_names: &Vec<String>) -> (fields: Vec<Field>)
        requires
            self.wf(),
            column_names@.len() == self.column_count(),
        ensures
            fields@.len() == column_names@.len(),
            forall|c: int|
                0 <= c < column_names@.len() ==> {
                    &&& #[trigger] fields@[c].name@ == column_names@[c]@
                    &&& fields@[c].nullable
                    &&& fields@[c].data_type == column_state(
                        self.observed(),
                        c,
                        self.observed().len() as int,
                    ).spec_finalize()
                },
    {
        let mut fields: Vec<Field> = Vec::new();
        let mut c: usize = 0;
        while c < column_names.len()
            invariant
                self.wf(),
                column_names@.len() == self.column_count(),
                c <= column_names@.len(),
                fields@.len() == c,
                forall|k: int|
                    #![trigger fields@[k]]
                    0 <= k < c ==> {
                        &&& fields@[k].name@ == column_names@[k]@
                        &&& fields@[k].nullable
                        &&& fields@[k].data_type == column_state(
                            self.records@,
                            k,
                            self.records@.len() as int,
                        ).spec_finalize()
                    },
            decreases column_names@.len() - c,
        {
            proof {
                assert(usize::MAX <= u64::MAX);
                lemma_column_state_bounded(self.records@, c as int, self.records@.len() as int);
            }
            let dtype = self.states[c].finalize();
            let name: String = column_names[c].clone();
            fields.push(Field { name, data_type: dtype, nullable: true });
            assert(fields@[c as int].name@ == column_names@[c as int]@);
            c = c + 1;
        }
        fields
    }
}

/// Feeding a file's records one by one, as long as the sampler wants more,
/// types every column as inference over the whole file does.
pub proof fn law_streaming_inference_agrees(
    sampler: SchemaSampler,
    records: Seq<Option<Vec<String>>>,
    c: int,
)
    requires
        sampler.wf(),
        sampler.observed() == records.take(sampled_rows(records.len() as int, sampler.scans_all())),
    ensures
        column_state(sampler.observed(), c, sampler.observed().len() as int) == column_state(
            records,
            c,
            sampled_rows(records.len() as int, sampler.scans_all()),
        ),
{
    let n = sampled_rows(records.len() as int, sampler.scans_all());
    lemma_column_state_prefix(records, c, n);
}

/// The state of a column after `n` records depends only on those records.
proof fn lemma_column_state_prefix(records: Seq<Option<Vec<String>>>, c: int, n: int)
    requires
        0 <= n <= records.len(),
    ensures
        column_state(records, c, n) == column_state(records.take(n), c, n),
    decreases n,
{
    if n > 0 {
        lemma_column_state_prefix(records, c, n - 1);
        lemma_column_state_prefix(records.take(n), c, n - 1);
        assert(records.take(n).take(n - 1) =~= records.take(n - 1));
    }
}

/// Fields named after `column_names`, each typed by inference over its column.
pub fn infer_fields(
    column_names: &Vec<String>,
    records: &Vec<Option<Vec<String>>>,
    full_scan: bool,
) -> (fields: Vec<Field>)
    ensures
        fields@.len() == column_names@.len(),
        forall|c: int|
            0 <= c < column_names@.len() ==> {
                &&& #[trigger] fields@[c].name@ == column_names@[c]@
                &&& fields@[c].nullable
                &&& fields@[c].data_type == column_state(
                    records@,
                    c,
                    sampled_rows(records@.len() as int, full_scan),
                ).spec_finalize()
            },
{
    let total = records.len();
    let states = sample_column_states(records, column_names.len(), full_scan);
    let mut fields: Vec<Field> = Vec::new();
    let mut c: usize = 0;
    while c < column_names.len()
        invariant
            c <= column_names@.len(),
            total == records@.len(),
            states@.len() == column_names@.len(),
            fields@.len() == c,
            forall|k: int|
                0 <= k < column_names@.len() ==> #[trigger] states@[k] == column_state(
                    records@,
                    k,
                    sampled_rows(records@.len() as int, full_scan),
                ),
            forall|k: int|
                #![trigger fields@[k]]
                0 <= k < c ==> {
                    &&& fields@[k].name@ == column_names@[k]@
                    &&& fields@[k].nullable
                    &&& fields@[k].data_type == states@[k].spec_finalize()
                },
        decreases column_names@.len() - c,
    {
        proof {
            lemma_column_state_bounded(
                records@,
                c as int,
                sampled_rows(records@.len() as int, full_scan),
            );
        }
        let dtype = states[c].finalize();
        let name: String = column_names[c].clone();
        fields.push(Field { name, data_type: dtype, nullable: true });
        assert(fields@[c as int].name@ == column_names@[c as int]@);
        c = c + 1;
    }
    fields
}

/// Every column retyped as large text, nullable (inference disabled).
pub fn force_schema_to_utf8(schema: &Vec<Field>) -> (r: Vec<Field>)
    ensures
        r@.len() == schema@.len(),
        forall|c: int|
            0 <= c < schema@.len() ==> {
                &&& #[trigger] r@[c].name@ == schema@[c].name@
                &&& r@[c].data_type == DataType::LargeUtf8
                &&& r@[c].nullable
            },
{
    let mut r: Vec<Field> = Vec::new();
    let mut c: usize = 0;
    while c < schema.len()
        invariant
            c <= schema@.len(),
            r@.len() == c,
            forall|k: int|
                #![trigger r@[k]]
                0 <= k < c ==> {
                    &&& r@[k].name@ == schema@[k].name@
                    &&& r@[k].data_type == DataType::LargeUtf8
                    &&& r@[k].nullable
                },
        decreases schema@.len() - c,
    {
        let name: String = schema[c].name.clone();
        r.push(Field { name, data_type: DataType::LargeUtf8, nullable: true });
        assert(r@[c as int].name@ == schema@[c as int].name@);
        c = c + 1;
    }
    r
}

/// The same columns and types, every one nullable.
pub fn make_schema_all_nullable(schema: &Vec<Field>) -> (r: Vec<Field>)
    ensures
        r@.len() == schema@.len(),
        forall|c: int|
            0 <= c < schema@.len() ==> {
                &&& #[trigger] r@[c].name@ == schema@[c].name@
                &&& r@[c].data_type == schema@[c].data_type
                &&& r@[c].nullable
            },
{
    let mut r: Vec<Field> = Vec::new();
    let mut c: usize = 0;
    while c < schema.len()
        invariant
            c <= schema@.len(),
            r@.len() == c,
            forall|k: int|
                #![trigger r@[k]]
                0 <= k < c ==> {
                    &&& r@[k].name@ == schema@[k].name@
                    &&& r@[k].data_type == schema@[k].data_type
                    &&& r@[k].nullable
                },
        decreases schema@.len() - c,
    {
        let name: String = schema[c].name.clone();
        r.push(Field { name, data_type: schema[c].data_type, nullable: true });
        assert(r@[c as int].name@ == schema@[c as int].name@);
        c = c + 1;
    }
    r
}

// ---------------------------------------------------------------- laws

/// Inference does not depend on the order of the values it observes:
/// observing `a` then `b` counts exactly what observing `b` then `a` counts.
#[verifier::spinoff_prover]
#[verifier::rlimit(40)]
pub proof fn law_observation_order_irrelevant(s: TypeState, a: Seq<char>, b: Seq<char>)
    requires
        s.wf(),
        s.total_values + 2 <= u64::MAX,
    ensures
        s.observed(a).observed(b) == s.observed(b).observed(a),
{
    let x = s.observed(a).observed(b);
    let y = s.observed(b).observed(a);
    if !spec_is_null_text(a) && !spec_is_null_text(b) {
        assert(x.total_values == y.total_values);
        assert(x.bool_ok == y.bool_ok);
        assert(x.int_ok == y.int_ok);
        assert(x.float_ok == y.float_ok);
        assert(x.min_value == y.min_value);
        assert(x.max_value == y.max_value);
        assert(x.date_ok == y.date_ok);
        assert(x.ts_textual == y.ts_textual);
        assert(x.ts_seconds == y.ts_seconds);
        assert(x.ts_millis == y.ts_millis);
        assert(x.ts_micros == y.ts_micros);
        assert(x.ts_nanos == y.ts_nanos);
    }
}

/// A column whose sampled values are all null markers is inferred as text.
pub proof fn law_all_null_column_is_text(records: Seq<Option<Vec<String>>>, c: int, n: int)
    requires
        0 <= n <= records.len(),
        forall|i: int|
            0 <= i < n ==> match #[trigger] records[i] {
                Some(r) => 0 <= c < r@.len() ==> spec_is_null_text(r@[c]@),
                None => true,
            },
    ensures
        column_state(records, c, n) == TypeState::initial(),
        column_state(records, c, n).spec_finalize() == DataType::LargeUtf8,
    decreases n,
{
    if n > 0 {
        law_all_null_column_is_text(records, c, n - 1);
    }
}

/// Values that fail to parse as the majority type are tolerated: when at
/// least 95% of the observed values are integers in the `i64` range (and the
/// column is neither confidently temporal nor boolean), the column is `Int64`.
pub proof fn law_integer_majority_is_int64(s: TypeState)
    requires
        s.wf(),
        s.total_values > 0,
        s.int_ok * 20 >= s.total_values * 19,
        i64::MIN <= s.min_value,
        s.max_value <= i64::MAX,
        s.ts_textual == 0,
        !confident(s.date_ok, s.total_values),
        !confident(s.bool_ok, s.total_values),
    ensures
        s.spec_finalize() == DataType::Int64,
{
}

/// A column whose values include a textual datetime is a timestamp column as
/// soon as at least 80% of its observed values are timestamps.
pub proof fn law_textual_timestamps_at_threshold(s: TypeState)
    requires
        s.wf(),
        s.total_values > 0,
        s.ts_textual > 0,
        s.ts_total() * 5 >= s.total_values * 4,
    ensures
        s.spec_finalize() == DataType::Timestamp(s.spec_choose_timestamp_unit()),
{
}

/// Below the thresholds a type is never chosen: if fewer than 80% of the
/// observed values are timestamps and fewer than 95% support any other
/// candidate type, the column stays text.
pub proof fn law_below_threshold_is_text(s: TypeState)
    requires
        s.wf(),
        s.total_values > 0,
        s.ts_total() * 5 < s.total_values * 4,
        s.date_ok * 20 < s.total_values * 19,
        s.bool_ok * 20 < s.total_values * 19,
        s.int_ok * 20 < s.total_values * 19,
        s.float_ok * 20 < s.total_values * 19,
    ensures
        s.spec_finalize() == DataType::LargeUtf8,
{
}

} // verus!
