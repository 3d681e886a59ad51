use convert_to_parquet::xlsx::{
    backend_for, is_spreadsheet, sanitize_sheet_name, width_from_dimensions, Backend, Dimensions,
    RowAssembler,
};

fn collect_stream(dimensions: Dimensions, cells: Vec<(u32, u32, &str)>) -> Vec<String> {
    let mut assembler = RowAssembler::new(dimensions);
    let mut lines = Vec::new();
    for (r, c, v) in cells {
        for row in assembler.accept(r, c, v.to_string()) {
            lines.push(row.join(","));
        }
    }
    if let Some(row) = assembler.finish() {
        lines.push(row.join(","));
    }
    lines
}

#[test]
fn width_from_dimensions_basic() {
    let d = Dimensions { start: (0, 0), end: (10, 4) };
    assert_eq!(width_from_dimensions(d), 5);
}

#[test]
fn width_from_dimensions_single_column() {
    let d = Dimensions { start: (0, 3), end: (10, 3) };
    assert_eq!(width_from_dimensions(d), 1);
}

#[test]
fn backend_for_known_extensions() {
    assert!(matches!(backend_for("a.xlsx"), Backend::Xlsx));
    assert!(matches!(backend_for("a.xlsm"), Backend::Xlsx));
    assert!(matches!(backend_for("a.xlsb"), Backend::Xlsb));
    assert!(matches!(backend_for("a.xls"), Backend::NonStreaming));
    assert!(matches!(backend_for("a.ods"), Backend::NonStreaming));
}

#[test]
fn stream_cells_keeps_leading_and_middle_empty_rows() {
    let d = Dimensions { start: (0, 0), end: (2, 1) };
    let lines = collect_stream(d, vec![(2, 1, "v")]);
    assert_eq!(lines, vec![",", ",", ",v"]);
}

#[test]
fn stream_cells_handles_column_offset() {
    let d = Dimensions { start: (0, 2), end: (1, 3) };
    let lines = collect_stream(d, vec![(0, 2, "a"), (0, 3, "b"), (1, 3, "d")]);
    assert_eq!(lines, vec!["a,b", ",d"]);
}

#[test]
fn stream_cells_empty_sheet_writes_nothing() {
    let d = Dimensions { start: (0, 0), end: (0, 0) };
    let lines = collect_stream(d, vec![]);
    assert!(lines.is_empty());
}

#[test]
fn spreadsheet_extensions() {
    assert!(is_spreadsheet("book.XLSX"));
    assert!(is_spreadsheet("b.ods"));
    assert!(!is_spreadsheet("b.csv"));
    assert!(!is_spreadsheet("xlsx"));
}

#[test]
fn sheet_names_become_file_names() {
    assert_eq!(sanitize_sheet_name("Q1/Q2: sales"), "Q1_Q2_ sales");
    assert_eq!(sanitize_sheet_name("  Data  "), "Data");
}

#[test]
fn sanitized_names_are_safe_and_stable() {
    for name in [" Q1/Q2: sales ", "a<b>c", "tab\there", "\u{7f}x\u{1}", "  ", "ok"] {
        let r = sanitize_sheet_name(name);
        assert!(!r.chars().any(|c| "/\\:*?\"<>|\0".contains(c) || c.is_control()));
        assert_eq!(r.trim(), r);
        assert!(r.chars().count() <= name.chars().count());
        assert_eq!(sanitize_sheet_name(&r), r);
    }
    assert_eq!(sanitize_sheet_name(" Q1/Q2: sales "), "Q1_Q2_ sales");
}
