use convert_to_parquet::analysis::types::{ColumnMetrics, ErrorSample};
use convert_to_parquet::conversion::{merge_metrics, BlockBuilder};

fn record(i: usize) -> Vec<String> {
    vec![i.to_string()]
}

#[test]
fn blocks_keep_every_record_in_order() {
    let mut builder = BlockBuilder::new(3);
    let mut blocks = Vec::new();
    for i in 0..8 {
        if let Some(block) = builder.push(record(i)) {
            blocks.push(block);
        }
    }
    if let Some(block) = builder.finish() {
        blocks.push(block);
    }
    let indices: Vec<usize> = blocks.iter().map(|(i, _)| *i).collect();
    assert_eq!(indices, vec![0, 1, 2]);
    let sizes: Vec<usize> = blocks.iter().map(|(_, b)| b.len()).collect();
    assert_eq!(sizes, vec![3, 3, 2]);
    let all: Vec<String> = blocks.into_iter().flat_map(|(_, b)| b).map(|r| r[0].clone()).collect();
    let expected: Vec<String> = (0..8).map(|i| i.to_string()).collect();
    assert_eq!(all, expected);
}

#[test]
fn exact_multiple_leaves_nothing_pending() {
    let mut builder = BlockBuilder::new(2);
    assert!(builder.push(record(0)).is_none());
    assert!(builder.push(record(1)).is_some());
    assert!(builder.finish().is_none());
}

fn metrics(name: &str, values: usize, nulls: usize, errors: usize, samples: &[&str]) -> ColumnMetrics {
    let mut m = ColumnMetrics::new(name);
    m.total_values = values;
    m.total_null_text = nulls;
    m.total_conversion_errors = errors;
    m.total_valid_values = values - nulls - errors;
    for s in samples {
        m.error_samples.add(s.to_string());
    }
    m
}

#[test]
fn merged_metrics_add_counts_and_samples() {
    let global = vec![metrics("a", 10, 1, 2, &["x", "y"]), metrics("b", 10, 0, 0, &[])];
    let block = vec![metrics("a", 5, 0, 1, &["z"])];
    let merged = merge_metrics(&global, &block);
    assert_eq!(merged.len(), 2);
    assert_eq!(merged[0].name, "a");
    assert_eq!(merged[0].total_values, 15);
    assert_eq!(merged[0].total_null_text, 1);
    assert_eq!(merged[0].total_conversion_errors, 3);
    assert_eq!(merged[0].total_valid_values, 11);
    assert_eq!(merged[0].error_samples.values, vec!["x", "y", "z"]);
    assert_eq!(merged[1].total_values, 10);
}

#[test]
fn error_sample_keeps_the_first_values() {
    let mut s = ErrorSample::new(2);
    s.add("a".to_string());
    s.add("b".to_string());
    s.add("c".to_string());
    assert_eq!(s.values, vec!["a", "b"]);
    assert_eq!(s.limit, 2);
}

use convert_to_parquet::conversion::ReorderBuffer;

#[test]
fn blocks_released_in_index_order() {
    let mut buffer: ReorderBuffer<&str> = ReorderBuffer::new();
    assert!(buffer.insert(2, "c").is_empty());
    assert!(buffer.insert(1, "b").is_empty());
    assert_eq!(buffer.insert(0, "a"), vec!["a", "b", "c"]);
    assert_eq!(buffer.insert(3, "d"), vec!["d"]);
    assert!(buffer.insert(5, "f").is_empty());
    assert_eq!(buffer.insert(4, "e"), vec!["e", "f"]);
}
