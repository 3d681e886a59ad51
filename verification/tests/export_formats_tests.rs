use convert_to_parquet::cli::requested_export;
use convert_to_parquet::export::ExportFormat;

#[test]
fn test_export_format_metadata_unique() {
    let exts: Vec<_> = ExportFormat::ALL.iter().map(|f| f.extension()).collect();
    let keys: Vec<_> = ExportFormat::ALL.iter().map(|f| f.hotkey()).collect();
    assert_eq!(exts, ["csv", "jsonl", "json", "xlsx"]);
    for key in &keys {
        assert!(!"hjkl".contains(*key));
    }
    let mut deduped = keys.clone();
    deduped.sort_unstable();
    deduped.dedup();
    assert_eq!(deduped.len(), keys.len());
}

#[test]
fn hotkeys_lead_back_to_their_format() {
    for f in ExportFormat::ALL {
        assert_eq!(ExportFormat::from_hotkey(f.hotkey()), Some(f));
    }
    assert_eq!(ExportFormat::from_hotkey('z'), None);
    assert_eq!(ExportFormat::from_hotkey('q'), None);
}

#[test]
fn labels() {
    let labels: Vec<_> = ExportFormat::ALL.iter().map(|f| f.label()).collect();
    assert_eq!(labels, ["CSV", "JSONL", "JSON", "XLSX"]);
}

#[test]
fn requested_export_flags() {
    assert_eq!(requested_export(true, false), Some(ExportFormat::Csv));
    assert_eq!(requested_export(false, true), Some(ExportFormat::Jsonl));
    assert_eq!(requested_export(true, true), Some(ExportFormat::Csv));
    assert_eq!(requested_export(false, false), None);
}
