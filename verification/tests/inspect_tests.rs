use convert_to_parquet::inspect::{aggregate_column_usage, is_parquet, ChunkUsage};

#[test]
fn test_is_parquet_detection() {
    assert!(is_parquet("data.parquet"));
    assert!(is_parquet("DATA.PARQUET"));
    assert!(!is_parquet("data.csv"));
    assert!(!is_parquet("data"));
}

fn chunk(compressed: i64, uncompressed: i64, nulls: Option<u64>) -> ChunkUsage {
    ChunkUsage { compressed, uncompressed, null_count: nulls }
}

#[test]
fn usage_sums_over_row_groups() {
    let names = vec!["id".to_string(), "name".to_string()];
    let groups = vec![
        vec![chunk(10, 20, Some(1)), chunk(5, 6, Some(0))],
        vec![chunk(1, 2, Some(2)), chunk(7, 8, None)],
    ];
    let usage = aggregate_column_usage(&names, &groups);
    assert_eq!(usage.len(), 2);
    assert_eq!(usage[0].name, "id");
    assert_eq!(usage[0].compressed_bytes, 11);
    assert_eq!(usage[0].uncompressed_bytes, 22);
    assert_eq!(usage[0].null_count, Some(3));
    assert_eq!(usage[1].compressed_bytes, 12);
    assert_eq!(usage[1].null_count, None);
}

#[test]
fn usage_of_a_file_without_row_groups() {
    let usage = aggregate_column_usage(&vec!["a".to_string()], &Vec::new());
    assert_eq!(usage[0].compressed_bytes, 0);
    assert_eq!(usage[0].null_count, Some(0));
}
