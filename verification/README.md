# convert_to_parquet

Converts CSV/TSV, JSON/JSON Lines and spreadsheets to Parquet, and Parquet
back to CSV, JSON Lines, JSON or XLSX, with an interactive viewer for Parquet
files.

## Layout

- `src/` — the library, verified with Verus: delimiter and header detection,
  cell parsing (null markers, booleans, dates, timestamps), type inference,
  per-cell conversion with metrics, block cutting and ordered release,
  JSON record extraction and flattening, spreadsheet row layout, output path
  rules, command dispatch and the viewer's navigation. Calls into `chrono`,
  `lexical-core`, `serde_json`, `colored` and `std::path` go through small
  trusted wrappers whose contracts name what the call returns.
- `app/` — the program around the library: argument parsing (clap), file and
  terminal I/O, threads, Arrow/Parquet reading and writing, calamine, the
  ratatui viewer, and the floating-point parts (float cells, sizes and rates
  shown with decimals).
- `tests/` — tests of the library on concrete values.
