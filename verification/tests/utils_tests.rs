use convert_to_parquet::schema::numeric_unit;
use convert_to_parquet::analysis::conversions::{convert_to_i64, parsed_outcome};
use convert_to_parquet::analysis::types::ConversionResult;
use convert_to_parquet::utils::{datetime_in_unit, epoch_days_from_ce, UtcInstant};
use convert_to_parquet::utils::{
    all_distinct, all_numeric, choose_delimiter, detect_header, compression_of, error, generate_column_names,
    has_pure_text, is_null_text, looks_like_identifier, parse_bool, parse_date_ymd,
    parse_textual_datetime, parse_timestamp, parse_timestamp_ms, path, repeats_first_line,
    strip_compression_ext, success, value_type_score, warning, Compression, TimeUnit,
};

fn strings(v: &[&str]) -> Vec<String> {
    v.iter().map(|s| s.to_string()).collect()
}

#[test]
fn test_is_null_text() {
    assert!(is_null_text(""));
    assert!(is_null_text(" "));
    assert!(is_null_text("NULL"));
    assert!(is_null_text("NaN"));
    assert!(!is_null_text("0"));
    assert!(!is_null_text("false"));
}

#[test]
fn null_markers_in_any_case_and_padding() {
    for v in ["null", " None ", "N/A", "na", "ND", "nr", "-", "--", "\t\n"] {
        assert!(is_null_text(v), "{v:?}");
    }
    for v in ["nul", "---", "n / a", "x"] {
        assert!(!is_null_text(v), "{v:?}");
    }
}

#[test]
fn test_parse_bool() {
    assert_eq!(parse_bool("true"), Some(true));
    assert_eq!(parse_bool("FALSE"), Some(false));
    assert_eq!(parse_bool("1"), Some(true));
    assert_eq!(parse_bool("0"), Some(false));
    assert_eq!(parse_bool("yes"), Some(true));
    assert_eq!(parse_bool("no"), Some(false));
    assert_eq!(parse_bool("maybe"), None);
}

#[test]
fn parse_bool_short_forms() {
    assert_eq!(parse_bool(" T "), Some(true));
    assert_eq!(parse_bool("On"), Some(true));
    assert_eq!(parse_bool("off"), Some(false));
    assert_eq!(parse_bool("n"), Some(false));
    assert_eq!(parse_bool("2"), None);
}

#[test]
fn test_parse_date_ymd() {
    let d1 = parse_date_ymd("1970-01-01").unwrap();
    let d2 = parse_date_ymd("02/01/1970").unwrap();
    assert_eq!(d1, 0);
    assert_eq!(d2, 1);
    assert!(parse_date_ymd("invalid").is_none());
}

#[test]
fn parse_date_formats_and_epoch_offset() {
    assert_eq!(parse_date_ymd("2019-06-05"), Some(18052));
    assert_eq!(parse_date_ymd("  2019-06-05 "), Some(18052));
    // day-first wins over month-first
    assert_eq!(parse_date_ymd("05/06/2019"), Some(18052));
    // only month-first fits
    assert_eq!(parse_date_ymd("12/31/1969"), Some(-1));
    assert_eq!(parse_date_ymd(""), None);
}

#[test]
fn test_parse_timestamp_ms() {
    let t1 = parse_timestamp_ms("1970-01-01 00:00:01").unwrap();
    assert_eq!(t1, 1_000);
    let t2 = parse_timestamp_ms("1000000000").unwrap();
    assert_eq!(t2, 1_000_000_000_000);
    assert!(parse_timestamp_ms("invalid").is_none());
}

#[test]
fn test_parse_timestamp_preserves_sub_millisecond_precision() {
    assert_eq!(
        parse_timestamp("1700000000123456", TimeUnit::Microsecond),
        Some(1_700_000_000_123_456)
    );
    assert_eq!(
        parse_timestamp("2024-01-01T00:00:00.123456Z", TimeUnit::Microsecond),
        Some(1_704_067_200_123_456)
    );
    assert_eq!(
        parse_timestamp("2024-01-01T00:00:00.123456789Z", TimeUnit::Nanosecond),
        Some(1_704_067_200_123_456_789)
    );
    assert_eq!(
        parse_timestamp("1700000000", TimeUnit::Second),
        Some(1_700_000_000)
    );
}

#[test]
fn integer_epochs_outside_window_are_rejected() {
    // below 2001-09-09 in seconds and not large enough for milliseconds
    assert_eq!(parse_timestamp("999999999", TimeUnit::Second), None);
    // a millisecond epoch truncated to seconds
    assert_eq!(parse_timestamp("1700000000999", TimeUnit::Second), Some(1_700_000_000));
    assert_eq!(parse_timestamp("-1700000000", TimeUnit::Second), None);
    assert_eq!(parse_timestamp("", TimeUnit::Second), None);
}

#[test]
fn textual_datetime_with_offset_is_utc() {
    let inst = parse_textual_datetime("2024-01-01 01:00:00+01:00").unwrap();
    assert_eq!(inst.seconds, 1_704_067_200);
    assert_eq!(inst.nanos, 0);
    let naive = parse_textual_datetime("01/01/2024 00:00:00").unwrap();
    assert_eq!(naive.seconds, 1_704_067_200);
    assert!(parse_textual_datetime(" 2024-01-01T00:00:00Z").is_none());
}

#[test]
fn strip_compression_extensions() {
    assert_eq!(strip_compression_ext("data.csv.gz"), "data.csv");
    assert_eq!(strip_compression_ext("data.parquet.zst"), "data.parquet");
    assert_eq!(strip_compression_ext("data.csv.gz.bz2"), "data.csv");
    assert_eq!(strip_compression_ext("dir/data.CSV.GZ"), "data.CSV");
    assert_eq!(strip_compression_ext("data.csv"), "data.csv");
}

#[test]
fn compression_by_extension() {
    assert_eq!(compression_of("a.csv.gz"), Compression::Gzip);
    assert_eq!(compression_of("a.csv.GZIP"), Compression::Gzip);
    assert_eq!(compression_of("a.zst"), Compression::Zstd);
    assert_eq!(compression_of("a.bz2"), Compression::Bzip2);
    assert_eq!(compression_of("a.lzma"), Compression::Xz);
    assert_eq!(compression_of("a.csv"), Compression::Plain);
}

#[test]
fn generated_column_names() {
    assert_eq!(generate_column_names(0), Vec::<String>::new());
    assert_eq!(generate_column_names(3), strings(&["col_0", "col_1", "col_2"]));
    assert_eq!(generate_column_names(11)[10], "col_10");
}

#[test]
fn delimiter_choice() {
    assert_eq!(choose_delimiter(&strings(&["a;b;c", "1;2;3"])), b';');
    assert_eq!(choose_delimiter(&strings(&["a,b", "1,2"])), b',');
    assert_eq!(choose_delimiter(&strings(&["a\tb", "1\t2"])), b'\t');
    // nothing found gives the comma; a tie goes to the later candidate
    assert_eq!(choose_delimiter(&strings(&["abc", "def"])), b',');
    assert_eq!(choose_delimiter(&strings(&["a,b;c"])), b';');
    assert_eq!(choose_delimiter(&Vec::new()), b',');
}

#[test]
fn delimiter_looks_only_at_first_lines() {
    let mut lines = vec!["a,b".to_string(); 20];
    for _ in 0..30 {
        lines.push("x;y;z;w".to_string());
    }
    assert_eq!(choose_delimiter(&lines), b',');
}

#[test]
fn value_scores() {
    assert_eq!(value_type_score(""), 0);
    assert_eq!(value_type_score("42"), 10);
    assert_eq!(value_type_score("3.5e2"), 10);
    assert_eq!(value_type_score("inf"), 10);
    assert_eq!(value_type_score("yes"), 8);
    assert_eq!(value_type_score("2024-06-16"), 10);
    assert_eq!(value_type_score("2024-06-16T10:00:00Z"), 10);
    assert_eq!(value_type_score("name"), 0);
}

#[test]
fn identifiers() {
    assert!(looks_like_identifier("name"));
    assert!(looks_like_identifier(" unit (m/s) "));
    assert!(looks_like_identifier("café"));
    assert!(!looks_like_identifier(""));
    assert!(!looks_like_identifier("a,b"));
    assert!(!looks_like_identifier(&"x".repeat(65)));
    assert!(looks_like_identifier(&"x".repeat(64)));
}

#[test]
fn header_line_flags() {
    assert!(has_pure_text(&strings(&["a1", "name"])));
    assert!(!has_pure_text(&strings(&["a1", "2"])));
    assert!(all_numeric(&strings(&["1", " ", "-7"])));
    assert!(!all_numeric(&strings(&["1", "x"])));
    assert!(all_distinct(&strings(&["a", "b", "c"])));
    assert!(!all_distinct(&strings(&["a", "b", "a"])));
    assert!(repeats_first_line(&strings(&["x", "b"]), &strings(&["a", "b"])));
    assert!(!repeats_first_line(&strings(&["", "c"]), &strings(&["", "b"])));
}

#[test]
fn plain_styling_without_colors() {
    assert_eq!(error("boom", false), "boom");
    assert_eq!(warning("careful", false), "careful");
    assert_eq!(success("done", false), "done");
    assert_eq!(path("/tmp/x", false), "/tmp/x");
}

#[test]
fn colored_styling_wraps_or_keeps() {
    let e = error("boom", true);
    assert!(e == "boom" || e == "\u{1b}[1;31mboom\u{1b}[0m", "{e:?}");
    let w = warning("careful", true);
    assert!(w == "careful" || w == "\u{1b}[33mcareful\u{1b}[0m", "{w:?}");
}

fn lines_of(text: &str) -> (Vec<String>, Vec<Vec<String>>) {
    let mut rows: Vec<Vec<String>> = text
        .lines()
        .map(|l| l.split(',').map(|v| v.to_string()).collect())
        .collect();
    let first = rows.remove(0);
    (first, rows)
}

#[test]
fn test_detect_header_single_line_identifiers() {
    let (first, rest) = lines_of("name,age,city\n");
    assert!(detect_header(&first, &rest));
}

#[test]
fn test_detect_header_single_line_data() {
    let (first, rest) = lines_of("1,2,3\n");
    assert!(!detect_header(&first, &rest));
}

#[test]
fn test_detect_header_typed_data_below_header() {
    let (first, rest) = lines_of("a,b\n1,2\n3,4\n");
    assert!(detect_header(&first, &rest));
}

#[test]
fn header_when_first_line_is_much_longer() {
    // "identifier,description" over short text values: long first line.
    let (first, rest) = lines_of("identifier,description\nx,y\nz,w\n");
    assert!(detect_header(&first, &rest));
}

#[test]
fn no_header_when_lines_look_alike() {
    let (first, rest) = lines_of("alpha,beta\ngamma,delta\nepsilon,zeta\n");
    assert!(!detect_header(&first, &rest));
}

#[test]
fn no_values_means_no_header() {
    assert!(!detect_header(&Vec::new(), &vec![strings(&["1"])]));
}

#[test]
fn epoch_days_and_instants() {
    assert_eq!(epoch_days_from_ce(719_163), Some(0));
    assert_eq!(epoch_days_from_ce(719_164), Some(1));
    assert_eq!(epoch_days_from_ce(1), Some(1 - 719_163));
    let t = UtcInstant { seconds: 1, nanos: 123_456_789 };
    assert_eq!(datetime_in_unit(t, TimeUnit::Second), Some(1));
    assert_eq!(datetime_in_unit(t, TimeUnit::Millisecond), Some(1_123));
    assert_eq!(datetime_in_unit(t, TimeUnit::Microsecond), Some(1_123_456));
    assert_eq!(datetime_in_unit(t, TimeUnit::Nanosecond), Some(1_123_456_789));
    let far = UtcInstant { seconds: i64::MAX / 10, nanos: 0 };
    assert_eq!(datetime_in_unit(far, TimeUnit::Nanosecond), None);
}

#[test]
fn outcomes_from_parse_results() {
    assert!(matches!(parsed_outcome("12", Some(12i64)), ConversionResult::Valid(12)));
    assert!(matches!(parsed_outcome::<i64>("x", None), ConversionResult::ConversionError(s) if s == "x"));
    assert!(matches!(convert_to_i64(" 42 "), ConversionResult::Valid(42)));
    assert!(matches!(convert_to_i64("n/a"), ConversionResult::ExplicitNull));
    assert!(matches!(convert_to_i64("4.2"), ConversionResult::ConversionError(s) if s == "4.2"));
}

#[test]
fn leap_seconds_and_instants_before_the_epoch() {
    let leap = UtcInstant { seconds: 10, nanos: 1_500_000_000 };
    assert_eq!(datetime_in_unit(leap, TimeUnit::Second), Some(10));
    assert_eq!(datetime_in_unit(leap, TimeUnit::Millisecond), Some(11_500));
    let before = UtcInstant { seconds: -1, nanos: 500_000_000 };
    assert_eq!(datetime_in_unit(before, TimeUnit::Nanosecond), Some(-500_000_000));
    assert_eq!(datetime_in_unit(before, TimeUnit::Millisecond), Some(-500));
}

#[test]
fn stripping_compression_twice_changes_nothing() {
    for name in ["data.csv.gz", "data.parquet.zst", "x.tar.XZ.bz2", "plain", "a.gz", ".gz"] {
        let once = strip_compression_ext(name);
        assert_eq!(strip_compression_ext(&once), once);
    }
    assert_eq!(strip_compression_ext("x.tar.XZ.bz2"), "x.tar");
}

#[test]
fn epoch_magnitude_picks_the_unit() {
    assert_eq!(numeric_unit(9_999_999_999), TimeUnit::Second);
    assert_eq!(numeric_unit(50_000_000_000), TimeUnit::Millisecond);
    assert_eq!(numeric_unit(-50_000_000_000), TimeUnit::Millisecond);
    assert_eq!(numeric_unit(9_999_999_999_999), TimeUnit::Millisecond);
    assert_eq!(numeric_unit(10_000_000_000_000), TimeUnit::Microsecond);
    assert_eq!(numeric_unit(10_000_000_000_000_000), TimeUnit::Nanosecond);
    assert_eq!(numeric_unit(i128::MIN), TimeUnit::Second);
}
