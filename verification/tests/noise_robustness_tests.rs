use convert_to_parquet::utils::TimeUnit;
use convert_to_parquet::schema::{infer_fields, DataType};

/// `valid` copies of `good`, then `noise` copies of `bad`, single column `a`.
fn noisy_column(good: &str, valid: usize, bad: &str, noise: usize) -> Vec<Option<Vec<String>>> {
    let mut rows = Vec::new();
    for _ in 0..valid {
        rows.push(Some(vec![good.to_string()]));
    }
    for _ in 0..noise {
        rows.push(Some(vec![bad.to_string()]));
    }
    rows
}

fn inferred(rows: &Vec<Option<Vec<String>>>) -> DataType {
    let fields = infer_fields(&vec!["a".to_string()], rows, true);
    assert_eq!(fields.len(), 1);
    assert_eq!(fields[0].name, "a");
    fields[0].data_type
}

#[test]
fn test_int_tolerates_minority_noise() {
    assert_eq!(inferred(&noisy_column("42", 990, "boom", 10)), DataType::Int64);
}

#[test]
fn test_float_tolerates_minority_noise() {
    assert_eq!(inferred(&noisy_column("3.14", 990, "boom", 10)), DataType::Float64);
}

#[test]
fn test_bool_tolerates_minority_noise() {
    assert_eq!(inferred(&noisy_column("true", 990, "boom", 10)), DataType::Boolean);
}

#[test]
fn test_date_tolerates_minority_noise() {
    assert_eq!(inferred(&noisy_column("2024-06-16", 990, "boom", 10)), DataType::Date32);
}

#[test]
fn test_majority_noise_falls_back_to_text() {
    assert_eq!(inferred(&noisy_column("42", 400, "boom", 600)), DataType::LargeUtf8);
}

#[test]
fn test_threshold_boundary_just_below_falls_back_to_text() {
    assert_eq!(inferred(&noisy_column("42", 940, "boom", 60)), DataType::LargeUtf8);
}

#[test]
fn test_threshold_boundary_exactly_at_floor_is_typed() {
    assert_eq!(inferred(&noisy_column("42", 950, "boom", 50)), DataType::Int64);
}

#[test]
fn unreadable_rows_are_skipped() {
    let mut rows = noisy_column("42", 10, "boom", 0);
    rows.push(None);
    assert_eq!(inferred(&rows), DataType::Int64);
}

#[test]
fn all_null_column_is_text() {
    assert_eq!(inferred(&noisy_column("NULL", 5, "", 5)), DataType::LargeUtf8);
}

use convert_to_parquet::schema::{SchemaSampler, SCHEMA_SAMPLE_ROWS};

#[test]
fn streaming_sampler_matches_whole_inference() {
    let rows = noisy_column("2024-06-16", 30, "x", 1);
    let mut sampler = SchemaSampler::new(1, false);
    for row in rows.clone() {
        assert!(sampler.wants_more());
        sampler.observe_record(row);
    }
    let fields = sampler.fields(&vec!["a".to_string()]);
    assert_eq!(fields[0].data_type, inferred(&rows));
    assert_eq!(fields[0].data_type, DataType::Date32);
}

#[test]
fn sampling_stops_at_the_limit() {
    let mut sampler = SchemaSampler::new(1, false);
    for _ in 0..SCHEMA_SAMPLE_ROWS {
        sampler.observe_record(Some(vec!["1".to_string()]));
    }
    assert!(!sampler.wants_more());
    let mut full = SchemaSampler::new(1, true);
    for _ in 0..SCHEMA_SAMPLE_ROWS {
        full.observe_record(Some(vec!["1".to_string()]));
    }
    assert!(full.wants_more());
}

#[test]
fn only_the_sample_decides_without_full_scan() {
    // 10 000 integers, then text: the text is past the sample.
    let mut rows = noisy_column("7", SCHEMA_SAMPLE_ROWS, "word", 2000);
    let sampled = infer_fields(&vec!["a".to_string()], &rows, false);
    assert_eq!(sampled[0].data_type, DataType::Int64);
    let full = infer_fields(&vec!["a".to_string()], &rows, true);
    assert_eq!(full[0].data_type, DataType::LargeUtf8);
    rows.truncate(1);
    assert_eq!(inferred(&rows), DataType::Int64);
}

#[test]
fn value_order_does_not_change_the_type() {
    let mut rows = noisy_column("42", 96, "boom", 4);
    let forward = inferred(&rows);
    rows.reverse();
    assert_eq!(inferred(&rows), forward);
    assert_eq!(forward, DataType::Int64);
}

#[test]
fn textual_timestamps_need_only_four_in_five() {
    // 17 of 20 (85%) valid textual timestamps clear the 80% threshold.
    assert_eq!(
        inferred(&noisy_column("2024-01-01 00:00:00", 17, "boom", 3)),
        DataType::Timestamp(TimeUnit::Millisecond)
    );
    // Exactly 80% is enough; 75% is not.
    assert_eq!(
        inferred(&noisy_column("2024-01-01 00:00:00", 16, "boom", 4)),
        DataType::Timestamp(TimeUnit::Millisecond)
    );
    assert_eq!(
        inferred(&noisy_column("2024-01-01 00:00:00", 15, "boom", 5)),
        DataType::LargeUtf8
    );
}
