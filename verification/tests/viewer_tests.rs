use convert_to_parquet::export::ExportFormat;
use convert_to_parquet::tui::{
    column_widths, truncate, ViewerAction, ViewerKey, ViewerState, CELL_MAX,
};

#[test]
fn long_cells_are_cut_with_an_ellipsis() {
    let long = "x".repeat(50);
    let shown = truncate(&long);
    assert_eq!(shown.chars().count(), CELL_MAX);
    assert!(shown.ends_with('…'));
    assert_eq!(truncate("short"), "short");
    assert_eq!(truncate(&"é".repeat(40)), "é".repeat(40));
}

#[test]
fn widths_follow_the_widest_cell() {
    let columns = vec!["id".to_string(), "description".to_string()];
    let rows = vec![
        vec!["12345".to_string(), "a".to_string()],
        vec!["1".to_string()],
    ];
    let widths = column_widths(&columns, &rows);
    assert_eq!(widths, vec![5, 11]);
    let narrow = column_widths(&vec!["a".to_string()], &Vec::new());
    assert_eq!(narrow, vec![3]);
}

#[test]
fn navigation_is_clamped() {
    let mut s = ViewerState::new(3, 2);
    assert_eq!(s.handle_key(ViewerKey::Up), ViewerAction::Stay);
    assert_eq!(s.selected, 0);
    s.handle_key(ViewerKey::PageDown);
    assert_eq!(s.selected, 2);
    s.handle_key(ViewerKey::Char('k'));
    assert_eq!(s.selected, 1);
    s.handle_key(ViewerKey::End);
    assert_eq!(s.selected, 2);
    s.handle_key(ViewerKey::Home);
    assert_eq!(s.selected, 0);
    s.handle_key(ViewerKey::Right);
    s.handle_key(ViewerKey::Char('l'));
    assert_eq!(s.col_offset, 1);
    s.handle_key(ViewerKey::Left);
    assert_eq!(s.col_offset, 0);
}

#[test]
fn quit_and_export_keys() {
    let mut s = ViewerState::new(10, 1);
    assert_eq!(s.handle_key(ViewerKey::Char('q')), ViewerAction::Quit);
    assert_eq!(s.handle_key(ViewerKey::Esc), ViewerAction::Quit);
    assert_eq!(s.handle_key(ViewerKey::Char('c')), ViewerAction::Export(ExportFormat::Csv));
    assert_eq!(s.handle_key(ViewerKey::Char('x')), ViewerAction::Export(ExportFormat::Xlsx));
    assert_eq!(s.handle_key(ViewerKey::Char('z')), ViewerAction::Stay);
}
