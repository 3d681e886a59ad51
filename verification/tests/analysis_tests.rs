use convert_to_parquet::analysis::builders::CellValue;
use convert_to_parquet::analysis::types::ERROR_SAMPLE_LIMIT;
use convert_to_parquet::analysis::{analyze_block, BlockCells};
use convert_to_parquet::schema::{DataType, Field};

fn single_column(values: &[&str]) -> Vec<Vec<String>> {
    values.iter().map(|v| vec![v.to_string()]).collect()
}

fn field(name: &str, data_type: DataType) -> Field {
    Field { name: name.to_string(), data_type, nullable: true }
}

fn analyze(values: &[&str], data_type: DataType) -> BlockCells {
    analyze_block(&single_column(values), &vec![field("a", data_type)], false)
}

#[test]
fn test_i64_overflow_via_analysis() {
    let result = analyze(&["9223372036854775808"], DataType::Int64);
    let m = &result.metrics[0];
    assert_eq!(m.total_conversion_errors, 1);
    assert_eq!(m.total_valid_values, 0);
}

#[test]
fn test_u64_negative_via_analysis() {
    let result = analyze(&["-1"], DataType::UInt64);
    let m = &result.metrics[0];
    assert_eq!(m.total_conversion_errors, 1);
}

#[test]
fn test_explicit_null() {
    let result = analyze(&["NULL"], DataType::Int64);
    let m = &result.metrics[0];
    assert_eq!(m.total_null_text, 1);
    assert_eq!(m.total_valid_values, 0);
}

#[test]
fn noisy_cells_become_null_and_are_sampled() {
    let mut values: Vec<&str> = vec!["7"; 990];
    values.extend(vec!["boom"; 10]);
    let result = analyze(&values, DataType::Int64);
    let m = &result.metrics[0];
    assert_eq!(m.total_values, 1000);
    assert_eq!(m.total_valid_values, 990);
    assert_eq!(m.total_conversion_errors, 10);
    assert_eq!(m.total_null_text, 0);
    assert_eq!(m.error_samples.values.len(), ERROR_SAMPLE_LIMIT);
    let cells = &result.columns[0];
    assert_eq!(cells.len(), 1000);
    assert!(cells[..990].iter().all(|c| matches!(c, CellValue::Int(7))));
    assert!(cells[990..].iter().all(|c| matches!(c, CellValue::Null)));
}

#[test]
fn typed_cells_per_column() {
    let records = vec![
        vec!["1".to_string(), "true".to_string(), "2024-06-16".to_string(), "x".to_string()],
        vec!["".to_string(), "no".to_string(), "1970-01-02".to_string()],
    ];
    let fields = vec![
        field("n", DataType::UInt64),
        field("b", DataType::Boolean),
        field("d", DataType::Date32),
        field("t", DataType::LargeUtf8),
    ];
    let result = analyze_block(&records, &fields, false);
    assert_eq!(result.columns.len(), 4);
    assert!(matches!(result.columns[0][0], CellValue::UInt(1)));
    assert!(matches!(result.columns[0][1], CellValue::Null));
    assert!(matches!(result.columns[1][0], CellValue::Bool(true)));
    assert!(matches!(result.columns[1][1], CellValue::Bool(false)));
    assert!(matches!(result.columns[2][1], CellValue::Day(1)));
    assert!(matches!(&result.columns[3][0], CellValue::Text(s) if s == "x"));
    // A missing cell reads as empty, which is a null marker.
    assert!(matches!(result.columns[3][1], CellValue::Null));
    assert_eq!(result.metrics[3].total_null_text, 1);
    assert_eq!(result.metrics[0].name, "n");
}

#[test]
fn force_utf8_keeps_null_markers_as_text() {
    let result = analyze_block(&single_column(&["NULL"]), &vec![field("a", DataType::LargeUtf8)], true);
    assert!(matches!(&result.columns[0][0], CellValue::Text(s) if s == "NULL"));
    assert_eq!(result.metrics[0].total_valid_values, 1);
}

#[test]
fn float_columns_stay_raw() {
    let result = analyze(&["3.5", "x"], DataType::Float64);
    assert!(matches!(&result.columns[0][0], CellValue::Text(s) if s == "3.5"));
    assert!(matches!(&result.columns[0][1], CellValue::Text(s) if s == "x"));
    assert_eq!(result.metrics[0].total_conversion_errors, 0);
    assert_eq!(result.metrics[0].total_values, 2);
}
