use convert_to_parquet::cli::{is_glob_pattern, output_is_directory, parse_delimiter, stdin_requested};

#[test]
fn delimiter_arguments() {
    assert_eq!(parse_delimiter("\\t"), b'\t');
    assert_eq!(parse_delimiter("\t"), b'\t');
    assert_eq!(parse_delimiter(";"), b';');
    assert_eq!(parse_delimiter("|"), b'|');
    assert_eq!(parse_delimiter(","), b',');
    assert_eq!(parse_delimiter("#x"), b'#');
    assert_eq!(parse_delimiter(""), b',');
}

#[test]
fn glob_patterns() {
    assert!(is_glob_pattern("data/*.csv"));
    assert!(is_glob_pattern("file?.csv"));
    assert!(is_glob_pattern("[ab].csv"));
    assert!(!is_glob_pattern("plain.csv"));
}

#[test]
fn stdin_selection() {
    assert!(stdin_requested(&vec!["-".to_string()], true));
    assert!(stdin_requested(&Vec::new(), false));
    assert!(!stdin_requested(&Vec::new(), true));
    assert!(!stdin_requested(&vec!["a.csv".to_string()], false));
}

#[test]
fn output_directories() {
    assert!(output_is_directory(2, "out"));
    assert!(output_is_directory(1, "out/"));
    assert!(!output_is_directory(1, "out.parquet"));
    assert!(!output_is_directory(1, ""));
    // A trailing platform separator counts too.
    let native = format!("out{}", std::path::MAIN_SEPARATOR);
    assert!(output_is_directory(1, &native));
}

use convert_to_parquet::cli::{
    build_output_path, input_kind, plan_command, resolve_output, resolve_output_dir,
    sheet_file_names, sheet_output_paths, sorted_unique, stdin_output_path, Command, InputKind,
};
use convert_to_parquet::export::ExportFormat;

fn args(v: &[&str]) -> Vec<String> {
    v.iter().map(|s| s.to_string()).collect()
}

#[test]
fn command_precedence() {
    let files = args(&["a.csv"]);
    assert_eq!(plan_command(true, true, true, false, &files, true), Command::Manual);
    assert_eq!(
        plan_command(false, true, true, false, &files, true),
        Command::ViewSchema("a.csv".to_string())
    );
    assert_eq!(plan_command(false, true, false, false, &Vec::new(), true), Command::MissingSchemaInput);
    assert_eq!(
        plan_command(false, false, true, false, &files, true),
        Command::Export(ExportFormat::Csv)
    );
    assert_eq!(
        plan_command(false, false, false, true, &files, true),
        Command::Export(ExportFormat::Jsonl)
    );
    assert_eq!(plan_command(false, false, false, false, &args(&["-"]), true), Command::Stdin);
    assert_eq!(plan_command(false, false, false, false, &Vec::new(), false), Command::Stdin);
    assert_eq!(plan_command(false, false, false, false, &files, false), Command::Files);
}

#[test]
fn inputs_by_extension() {
    assert_eq!(input_kind("x.parquet"), InputKind::Parquet);
    assert_eq!(input_kind("x.XLSX"), InputKind::Spreadsheet);
    assert_eq!(input_kind("x.ndjson"), InputKind::Json);
    assert_eq!(input_kind("x.tsv"), InputKind::Csv);
    assert_eq!(input_kind("noext"), InputKind::Csv);
}

#[test]
fn inputs_sorted_without_duplicates() {
    let sorted = sorted_unique(&args(&["b.csv", "a.csv", "b.csv", "B.csv", "a.csv.gz", "a"]));
    assert_eq!(sorted, args(&["B.csv", "a", "a.csv", "a.csv.gz", "b.csv"]));
    assert!(sorted_unique(&Vec::new()).is_empty());
}

#[test]
fn output_beside_input() {
    assert_eq!(build_output_path("dir/data.csv", "parquet"), "dir/data.parquet");
    // Compression extensions are stripped from the file name; the directory stays.
    assert_eq!(build_output_path("dir/data.csv.gz", "parquet"), "dir/data.parquet");
    assert_eq!(build_output_path("data.csv", "parquet"), "./data.parquet");
    assert_eq!(build_output_path("in/x.parquet", "jsonl"), "in/x.jsonl");
    assert_eq!(build_output_path("logs/data.csv.gz", "parquet"), "logs/data.parquet");
    assert_eq!(build_output_path("a/b/t.JSON.XZ.gz", "csv"), "a/b/t.csv");
    assert_eq!(resolve_output("logs/data.csv.gz", &None, false, "parquet"), "logs/data.parquet");
}

#[test]
fn output_flag_file_or_directory() {
    assert_eq!(resolve_output("a/b.csv", &None, false, "parquet"), "a/b.parquet");
    assert_eq!(resolve_output("a/b.csv", &Some("out.parquet".to_string()), false, "parquet"), "out.parquet");
    assert_eq!(resolve_output("a/b.csv", &Some("out/".to_string()), false, "parquet"), "out/b.parquet");
    assert_eq!(resolve_output("a/b.csv", &Some("out".to_string()), true, "csv"), "out/b.csv");
}

#[test]
fn sheet_outputs() {
    assert_eq!(resolve_output_dir(&None, false), ".");
    assert_eq!(resolve_output_dir(&Some("x/y.parquet".to_string()), false), "x");
    assert_eq!(resolve_output_dir(&Some("y.parquet".to_string()), false), ".");
    assert_eq!(resolve_output_dir(&Some("dir".to_string()), true), "dir");
    assert_eq!(
        sheet_output_paths(".", "book", &args(&["Q1/2"])),
        args(&["./book__Q1_2.parquet"])
    );
    assert_eq!(
        sheet_output_paths("out/", "book", &args(&["a"])),
        args(&["out/book__a.parquet"])
    );
}

#[test]
fn sheets_with_the_same_safe_name_get_distinct_files() {
    // "a<b" and "a|b" both sanitize to "a_b": the second is numbered.
    assert_eq!(
        sheet_output_paths(".", "book", &args(&["a<b", "a|b"])),
        args(&["./book__a_b.parquet", "./book__a_b_2.parquet"])
    );
    // A numbered name already taken by a real sheet moves on to the next number.
    assert_eq!(
        sheet_file_names(&args(&["a_b", "a_b_2", "a<b", "a|b", " a_b "])),
        args(&["a_b", "a_b_2", "a_b_3", "a_b_4", "a_b_5"])
    );
    assert_eq!(sheet_file_names(&args(&["x", "y"])), args(&["x", "y"]));
    assert!(sheet_file_names(&Vec::new()).is_empty());
}

#[test]
fn stdin_output() {
    assert_eq!(stdin_output_path(&None), "stdin.parquet");
    assert_eq!(stdin_output_path(&Some("o.parquet".to_string())), "o.parquet");
}
