//! Command-line decisions: the delimiter override, the requested export,
//! glob patterns, standard input and output directories.
use crate::export::ExportFormat;
use crate::inspect::{is_parquet, spec_is_parquet};
use crate::analysis::types::views;
use crate::json::{contains_string, is_json, spec_is_json};
use crate::paths::{
    is_plain_component, is_separator_char, is_verbatim_path, opt_view, path_file_name,
    path_file_stem, path_join, path_parent, std_is_separator, std_path_file_name,
    std_path_file_stem, std_path_join, std_path_parent,
};
use crate::text::{chars_of, string_from_chars};
use crate::utils::{
    decimal, lemma_decimal_digits, lemma_decimal_injective, push_decimal, spec_strip_compression_ext,
    strip_compression_ext,
};
use crate::xlsx::{
    is_file_name_safe, is_spreadsheet, law_sanitize_sheet_name, sanitize_sheet_name,
    spec_is_spreadsheet, spec_sanitize_sheet_name,
};
use vstd::prelude::*;
use vstd::relations::injective_on;
use vstd::set_lib::{lemma_int_range, lemma_len_subset, lemma_map_size, set_int_range};

verus! {

/// The delimiter byte a `--delimiter` argument names: `,` `;` `|`, a tab
/// (written as a tab or as `\t`), else the first byte of the argument, else `,`.
pub open spec fn spec_parse_delimiter(s: Seq<char>, bytes: Seq<u8>) -> u8 {
    if s == seq!['\\', 't'] || s == seq!['\t'] {
        9
    } else if s == seq![','] {
        44
    } else if s == seq![';'] {
        59
    } else if s == seq!['|'] {
        124
    } else if bytes.len() > 0 {
        bytes[0]
    } else {
        44
    }
}

pub fn parse_delimiter(s: &str) -> (d: u8)
    ensures
        d == spec_parse_delimiter(s@, vstd::utf8::encode_utf8(s@)),
{
    let cs = chars_of(s);
    if (cs.len() == 2 && cs[0] == '\\' && cs[1] == 't') || (cs.len() == 1 && cs[0] == '\t') {
        assert(cs@ =~= seq!['\\', 't'] || cs@ =~= seq!['\t']);
        return 9;
    }
    if cs.len() == 1 && cs[0] == ',' {
        assert(cs@ =~= seq![',']);
        return 44;
    }
    if cs.len() == 1 && cs[0] == ';' {
        assert(cs@ =~= seq![';']);
        return 59;
    }
    if cs.len() == 1 && cs[0] == '|' {
        assert(cs@ =~= seq!['|']);
        return 124;
    }
    let bytes = s.as_bytes();
    if bytes.len() > 0 {
        bytes[0]
    } else {
        44
    }
}

/// The export the flags ask for; `--to-csv` wins over `--to-jsonl`.
pub fn requested_export(to_csv: bool, to_jsonl: bool) -> (r: Option<ExportFormat>)
    ensures
        r == if to_csv {
            Some(ExportFormat::Csv)
        } else if to_jsonl {
            Some(ExportFormat::Jsonl)
        } else {
            None::<ExportFormat>
        },
{
    if to_csv {
        return Some(ExportFormat::Csv);
    }
    if to_jsonl {
        return Some(ExportFormat::Jsonl);
    }
    None
}

/// An input argument with `*`, `?` or `[` is expanded as a glob pattern.
pub fn is_glob_pattern(input: &str) -> (b: bool)
    ensures
        b == (input@.contains('*') || input@.contains('?') || input@.contains('[')),
{
    let cs = chars_of(input);
    let mut i: usize = 0;
    while i < cs.len()
        invariant
            i <= cs@.len(),
            cs@ == input@,
            forall|j: int| 0 <= j < i ==> (#[trigger] cs@[j]) != '*' && cs@[j] != '?' && cs@[j] != '[',
        decreases cs@.len() - i,
    {
        let c = cs[i];
        if c == '*' || c == '?' || c == '[' {
            return true;
        }
        i = i + 1;
    }
    false
}

/// Standard input is read for an explicit `-`, or with no argument when
/// standard input is redirected.
pub fn stdin_requested(inputs: &Vec<String>, stdin_is_terminal: bool) -> (b: bool)
    ensures
        b == ((inputs@.len() == 1 && inputs@[0]@ == seq!['-']) || (inputs@.len() == 0
            && !stdin_is_terminal)),
{
    if inputs.len() == 1 {
        let cs = chars_of(inputs[0].as_str());
        if cs.len() == 1 && cs[0] == '-' {
            assert(cs@ =~= seq!['-']);
            return true;
        }
        return false;
    }
    inputs.len() == 0 && !stdin_is_terminal
}

/// `--output` names a directory when several inputs are converted or when it
/// ends with a path separator.
pub fn output_is_directory(input_count: usize, output: &str) -> (b: bool)
    ensures
        b == (input_count > 1 || ends_with_separator(output@)),
{
    if input_count > 1 {
        return true;
    }
    ends_with_path_separator(output)
}

// ---------------------------------------------------------------- dispatch

/// What a run of the program does, decided from its flags and arguments.
#[derive(Clone, Debug, PartialEq, Eq)]
pub enum Command {
    /// Print the manual page.
    Manual,
    /// Show the schema of the named Parquet file.
    ViewSchema(String),
    /// `--view-schema` was given without a file: an error.
    MissingSchemaInput,
    /// Convert the Parquet inputs to another format.
    Export(ExportFormat),
    /// Convert what standard input holds.
    Stdin,
    /// Convert or inspect the input files.
    Files,
}

pub open spec fn spec_plan_command(
    man: bool,
    view_schema: bool,
    to_csv: bool,
    to_jsonl: bool,
    inputs: Seq<String>,
    stdin_is_terminal: bool,
) -> Command {
    if man {
        Command::Manual
    } else if view_schema {
        if inputs.len() > 0 {
            Command::ViewSchema(inputs[0])
        } else {
            Command::MissingSchemaInput
        }
    } else if to_csv {
        Command::Export(ExportFormat::Csv)
    } else if to_jsonl {
        Command::Export(ExportFormat::Jsonl)
    } else if (inputs.len() == 1 && inputs[0]@ == seq!['-']) || (inputs.len() == 0
        && !stdin_is_terminal) {
        Command::Stdin
    } else {
        Command::Files
    }
}

/// The action for the flags `--man`, `--view-schema`, `--to-csv`, `--to-jsonl`,
/// the input arguments, and whether standard input is a terminal, in that
/// order of precedence.
pub fn plan_command(
    man: bool,
    view_schema: bool,
    to_csv: bool,
    to_jsonl: bool,
    inputs: &Vec<String>,
    stdin_is_terminal: bool,
) -> (c: Command)
    ensures
        match (c, spec_plan_command(man, view_schema, to_csv, to_jsonl, inputs@, stdin_is_terminal)) {
            (Command::ViewSchema(a), Command::ViewSchema(b)) => a@ == b@,
            (a, b) => a == b,
        },
{
    if man {
        return Command::Manual;
    }
    if view_schema {
        if inputs.len() > 0 {
            return Command::ViewSchema(inputs[0].clone());
        }
        return Command::MissingSchemaInput;
    }
    match requested_export(to_csv, to_jsonl) {
        Some(format) => {
            return Command::Export(format);
        },
        None => {},
    }
    if stdin_requested(inputs, stdin_is_terminal) {
        return Command::Stdin;
    }
    Command::Files
}

/// How an input file is handled, by its extension.
#[derive(Clone, Copy, Debug, PartialEq, Eq, Structural)]
pub enum InputKind {
    Parquet,
    Spreadsheet,
    Json,
    Csv,
}

pub open spec fn spec_input_kind(path: Seq<char>) -> InputKind {
    if spec_is_parquet(path) {
        InputKind::Parquet
    } else if spec_is_spreadsheet(path) {
        InputKind::Spreadsheet
    } else if spec_is_json(path) {
        InputKind::Json
    } else {
        InputKind::Csv
    }
}

/// Parquet files are inspected, spreadsheets and JSON converted by their own
/// readers, anything else read as delimited text.
pub fn input_kind(path: &str) -> (k: InputKind)
    ensures
        k == spec_input_kind(path@),
{
    if is_parquet(path) {
        InputKind::Parquet
    } else if is_spreadsheet(path) {
        InputKind::Spreadsheet
    } else if is_json(path) {
        InputKind::Json
    } else {
        InputKind::Csv
    }
}

// ---------------------------------------------------------------- input lists

/// `a` sorts strictly before `b` in the order of `str`: character by
/// character on code points, a proper prefix first (for UTF-8 text this is
/// the byte order that `Ord` for `str` uses).
pub open spec fn lex_lt(a: Seq<char>, b: Seq<char>) -> bool
    decreases a.len(),
{
    if a.len() == 0 {
        b.len() > 0
    } else if b.len() == 0 {
        false
    } else if a[0] != b[0] {
        (a[0] as int) < (b[0] as int)
    } else {
        lex_lt(a.drop_first(), b.drop_first())
    }
}

pub proof fn lemma_lex_irreflexive(a: Seq<char>)
    ensures
        !lex_lt(a, a),
    decreases a.len(),
{
    if a.len() > 0 {
        lemma_lex_irreflexive(a.drop_first());
    }
}

pub proof fn lemma_lex_total(a: Seq<char>, b: Seq<char>)
    ensures
        a == b || lex_lt(a, b) || lex_lt(b, a),
        !(lex_lt(a, b) && lex_lt(b, a)),
    decreases a.len(),
{
    if a.len() > 0 && b.len() > 0 {
        if a[0] == b[0] {
            lemma_lex_total(a.drop_first(), b.drop_first());
            if a.drop_first() == b.drop_first() {
                assert(a =~= seq![a[0]] + a.drop_first());
                assert(b =~= seq![b[0]] + b.drop_first());
            }
        } else {
            assert((a[0] as int) != (b[0] as int));
        }
    } else if a.len() == 0 && b.len() == 0 {
        assert(a =~= b);
    }
}

pub proof fn lemma_lex_transitive(a: Seq<char>, b: Seq<char>, c: Seq<char>)
    requires
        lex_lt(a, b),
        lex_lt(b, c),
    ensures
        lex_lt(a, c),
    decreases a.len(),
{
    if a.len() > 0 && b.len() > 0 && c.len() > 0 && a[0] == b[0] && b[0] == c[0] {
        lemma_lex_transitive(a.drop_first(), b.drop_first(), c.drop_first());
    } else if a.len() > 0 && b.len() > 0 && c.len() > 0 {
        assert((a[0] as int) != (c[0] as int) || a[0] == c[0]);
    }
}

/// `x` is the text of some element of `v`.
pub open spec fn holds_text(v: Seq<String>, x: Seq<char>) -> bool {
    exists|i: int| 0 <= i < v.len() && (#[trigger] v[i])@ == x
}

pub open spec fn strictly_sorted(v: Seq<String>) -> bool {
    forall|i: int, j: int| 0 <= i < j < v.len() ==> lex_lt(v[i]@, v[j]@)
}

fn lex_less(a: &str, b: &str) -> (r: bool)
    ensures
        r == lex_lt(a@, b@),
{
    let x = chars_of(a);
    let y = chars_of(b);
    let mut i: usize = 0;
    assert(a@.skip(0) =~= a@ && b@.skip(0) =~= b@);
    while i < x.len() && i < y.len() && x[i] == y[i]
        invariant
            i <= x@.len(),
            i <= y@.len(),
            x@ == a@,
            y@ == b@,
            lex_lt(a@, b@) == lex_lt(a@.skip(i as int), b@.skip(i as int)),
        decreases x@.len() - i,
    {
        proof {
            let xs = a@.skip(i as int);
            let ys = b@.skip(i as int);
            assert(xs.drop_first() =~= a@.skip(i + 1));
            assert(ys.drop_first() =~= b@.skip(i + 1));
        }
        i = i + 1;
    }
    if i == x.len() {
        i < y.len()
    } else if i == y.len() {
        false
    } else {
        x[i] < y[i]
    }
}

/// The input list in order, each name once, as `sort` then `dedup` leave it.
pub fn sorted_unique(files: &Vec<String>) -> (r: Vec<String>)
    ensures
        strictly_sorted(r@),
        forall|x: Seq<char>| holds_text(r@, x) <==> holds_text(files@, x),
{
    let mut r: Vec<String> = Vec::new();
    let mut i: usize = 0;
    while i < files.len()
        invariant
            i <= files@.len(),
            strictly_sorted(r@),
            forall|x: Seq<char>| holds_text(r@, x) <==> holds_text(files@.take(i as int), x),
        decreases files@.len() - i,
    {
        let f = &files[i];
        let mut p: usize = 0;
        while p < r.len() && lex_less(r[p].as_str(), f.as_str())
            invariant
                p <= r@.len(),
                forall|q: int| 0 <= q < p ==> lex_lt((#[trigger] r@[q])@, f@),
            decreases r@.len() - p,
        {
            p = p + 1;
        }
        let ghost before = r@;
        let dup = p < r.len() && r[p] == *f;
        if !dup {
            r.insert(p, f.clone());
            proof {
                assert forall|a: int, b: int| 0 <= a < b < r@.len() implies lex_lt(r@[a]@, r@[b]@) by {
                    if p < before.len() {
                        lemma_lex_total(before[p as int]@, f@);
                    }
                    if a < p && b > p {
                        assert(lex_lt(before[a]@, f@));
                        if b - 1 > p {
                            lemma_lex_transitive(f@, before[p as int]@, before[b - 1]@);
                        }
                    } else if a == p && b > p + 1 {
                        lemma_lex_transitive(f@, before[p as int]@, before[b - 1]@);
                    }
                }
            }
        }
        proof {
            let pre = files@.take(i as int);
            let post = files@.take(i + 1);
            assert(post =~= pre.push(*f));
            assert forall|x: Seq<char>| holds_text(r@, x) <==> holds_text(post, x) by {
                if holds_text(post, x) {
                    let k = choose|k: int| 0 <= k < post.len() && (#[trigger] post[k])@ == x;
                    if k < pre.len() {
                        assert(pre[k] == post[k]);
                        assert(holds_text(before, x));
                        let m = choose|m: int| 0 <= m < before.len() && (#[trigger] before[m])@ == x;
                        if dup {
                            assert(r@[m]@ == x);
                        } else if m < p {
                            assert(r@[m] == before[m]);
                        } else {
                            assert(r@[m + 1] == before[m]);
                        }
                    } else {
                        if dup {
                            assert(r@[p as int]@ == x);
                        } else {
                            assert(r@[p as int]@ == x);
                        }
                    }
                }
                if holds_text(r@, x) {
                    let m = choose|m: int| 0 <= m < r@.len() && (#[trigger] r@[m])@ == x;
                    if dup {
                        assert(holds_text(before, x));
                    } else if m < p {
                        assert(r@[m] == before[m]);
                        assert(holds_text(before, x));
                    } else if m == p {
                        assert(post[i as int] == *f);
                    } else {
                        assert(r@[m] == before[m - 1]);
                        assert(holds_text(before, x));
                    }
                    if holds_text(before, x) {
                        assert(holds_text(pre, x));
                        let k = choose|k: int| 0 <= k < pre.len() && (#[trigger] pre[k])@ == x;
                        assert(post[k] == pre[k]);
                    }
                }
            }
        }
        i = i + 1;
    }
    assert(files@.take(files@.len() as int) =~= files@);
    r
}

// ---------------------------------------------------------------- output paths

pub open spec fn or_empty(o: Option<Seq<char>>) -> Seq<char> {
    match o {
        Some(t) => t,
        None => Seq::empty(),
    }
}

/// The directory part of `p`, `.` when it has none.
pub open spec fn dir_or_current(p: Seq<char>) -> Seq<char> {
    match std_path_parent(p) {
        Some(d) => if d.len() > 0 {
            d
        } else {
            seq!['.']
        },
        None => seq!['.'],
    }
}

/// The path ends with `/` or with this platform's separator.
pub open spec fn ends_with_separator(p: Seq<char>) -> bool {
    p.len() > 0 && std_is_separator(p.last())
}

/// Beside the input, named after it without compression extensions and
/// with `ext` for extension: `dir/data.csv.gz` gives `dir/data.<ext>`.
pub open spec fn spec_build_output_path(input: Seq<char>, ext: Seq<char>) -> Seq<char> {
    let stripped = spec_strip_compression_ext(or_empty(std_path_file_name(input)));
    std_path_join(
        dir_or_current(input),
        or_empty(std_path_file_stem(stripped)) + seq!['.'] + ext,
    )
}

fn concat(a: &str, b: &str) -> (r: String)
    ensures
        r@ == a@ + b@,
{
    let mut cs = chars_of(a);
    let mut more = chars_of(b);
    cs.append(&mut more);
    string_from_chars(cs.as_slice())
}

fn text_or_empty(o: Option<String>) -> (r: String)
    ensures
        r@ == or_empty(opt_view(o)),
{
    match o {
        Some(t) => t,
        None => String::new(),
    }
}

fn ends_with_path_separator(p: &str) -> (b: bool)
    ensures
        b == ends_with_separator(p@),
{
    let cs = chars_of(p);
    cs.len() > 0 && is_separator_char(cs[cs.len() - 1])
}

fn current_dir_text() -> (r: String)
    ensures
        r@ == seq!['.'],
{
    let cs: Vec<char> = vec!['.'];
    assert(cs@ =~= seq!['.']);
    string_from_chars(cs.as_slice())
}

pub fn build_output_path(input: &str, ext: &str) -> (r: String)
    ensures
        r@ == spec_build_output_path(input@, ext@),
{
    let stripped = strip_compression_ext(text_or_empty(path_file_name(input)).as_str());
    let dir = match path_parent(input) {
        Some(d) => if d.as_str().is_empty() {
            current_dir_text()
        } else {
            d
        },
        None => current_dir_text(),
    };
    let base = text_or_empty(path_file_stem(stripped.as_str()));
    let dot: Vec<char> = vec!['.'];
    assert(dot@ =~= seq!['.']);
    let dot = string_from_chars(dot.as_slice());
    let name = concat(concat(base.as_str(), dot.as_str()).as_str(), ext);
    path_join(dir.as_str(), name.as_str())
}

/// Where the output for `input` goes: `--output` names the file, or the
/// directory that receives the default name (when it is a directory or ends
/// with a separator); without `--output`, beside the input.
pub open spec fn spec_resolve_output(
    input: Seq<char>,
    output: Option<Seq<char>>,
    output_is_dir: bool,
    ext: Seq<char>,
) -> Seq<char> {
    match output {
        None => spec_build_output_path(input, ext),
        Some(out) => if output_is_dir || ends_with_separator(out) {
            std_path_join(out, or_empty(std_path_file_name(spec_build_output_path(input, ext))))
        } else {
            out
        },
    }
}

/// `output_is_dir` tells whether `--output` names an existing directory.
pub fn resolve_output(input: &str, output: &Option<String>, output_is_dir: bool, ext: &str) -> (r:
    String)
    ensures
        r@ == spec_resolve_output(input@, opt_view(*output), output_is_dir, ext@),
{
    match output {
        None => build_output_path(input, ext),
        Some(out) => {
            if output_is_dir || ends_with_path_separator(out.as_str()) {
                let default = build_output_path(input, ext);
                let name = text_or_empty(path_file_name(default.as_str()));
                path_join(out.as_str(), name.as_str())
            } else {
                out.clone()
            }
        },
    }
}

/// The directory that receives the Parquet files of a spreadsheet's sheets:
/// `--output` when it is a directory, else its parent, else `.`.
pub open spec fn spec_resolve_output_dir(output: Option<Seq<char>>, output_is_dir: bool) -> Seq<char> {
    match output {
        Some(out) => if output_is_dir || ends_with_separator(out) {
            out
        } else {
            dir_or_current(out)
        },
        None => seq!['.'],
    }
}

pub fn resolve_output_dir(output: &Option<String>, output_is_dir: bool) -> (r: String)
    ensures
        r@ == spec_resolve_output_dir(opt_view(*output), output_is_dir),
{
    match output {
        Some(out) => {
            if output_is_dir || ends_with_path_separator(out.as_str()) {
                out.clone()
            } else {
                match path_parent(out.as_str()) {
                    Some(d) => if d.as_str().is_empty() {
                        current_dir_text()
                    } else {
                        d
                    },
                    None => current_dir_text(),
                }
            }
        },
        None => current_dir_text(),
    }
}

/// `<base>_<k>`: a name that was taken, numbered.
pub open spec fn numbered(base: Seq<char>, k: nat) -> Seq<char> {
    base + seq!['_'] + decimal(k)
}

/// The first number from `k` on, below `bound`, whose numbered name is free;
/// `bound` when there is none before it.
pub open spec fn first_free_number(taken: Seq<Seq<char>>, base: Seq<char>, k: nat, bound: nat) -> nat
    decreases bound - k,
{
    if k >= bound || !taken.contains(numbered(base, k)) {
        k
    } else {
        first_free_number(taken, base, k + 1, bound)
    }
}

/// The file name a sheet gets once the names in `taken` are handed out: its
/// sanitized name `base` when free, else `base_2`, `base_3`, ..., the first free.
pub open spec fn unique_name(taken: Seq<Seq<char>>, base: Seq<char>) -> Seq<char> {
    if !taken.contains(base) {
        base
    } else {
        numbered(base, first_free_number(taken, base, 2, taken.len() + 2))
    }
}

/// Names for the sheets of one workbook, in sheet order, each sheet's
/// sanitized name made unique against the names before it.
pub open spec fn spec_sheet_names(sheets: Seq<Seq<char>>) -> Seq<Seq<char>>
    decreases sheets.len(),
{
    if sheets.len() == 0 {
        Seq::empty()
    } else {
        let before = spec_sheet_names(sheets.drop_last());
        before.push(unique_name(before, spec_sanitize_sheet_name(sheets.last())))
    }
}

/// The Parquet file for a sheet named `name`: `<dir>/<stem>__<name>.parquet`.
pub open spec fn spec_sheet_file_path(dir: Seq<char>, stem: Seq<char>, name: Seq<char>) -> Seq<char> {
    std_path_join(dir, sheet_file_name(stem, name))
}

pub open spec fn sheet_file_name(stem: Seq<char>, name: Seq<char>) -> Seq<char> {
    stem + seq!['_', '_'] + name + seq!['.', 'p', 'a', 'r', 'q', 'u', 'e', 't']
}

/// The Parquet files of the sheets of one workbook, one per sheet, in order.
pub open spec fn spec_sheet_output_paths(dir: Seq<char>, stem: Seq<char>, sheets: Seq<Seq<char>>) -> Seq<
    Seq<char>,
> {
    spec_sheet_names(sheets).map_values(|n: Seq<char>| spec_sheet_file_path(dir, stem, n))
}

pub open spec fn all_distinct_text(s: Seq<Seq<char>>) -> bool {
    forall|i: int, j: int| 0 <= i < j < s.len() ==> s[i] != s[j]
}

proof fn lemma_numbered_injective(base: Seq<char>, j: nat, k: nat)
    requires
        numbered(base, j) == numbered(base, k),
    ensures
        j == k,
{
    let n = base.len() + 1;
    assert(numbered(base, j).subrange(n as int, numbered(base, j).len() as int) =~= decimal(j));
    assert(numbered(base, k).subrange(n as int, numbered(base, k).len() as int) =~= decimal(k));
    lemma_decimal_injective(j, k);
}

/// Among `taken.len() + 1` distinct numbered names, one is not taken.
proof fn lemma_some_number_free(taken: Seq<Seq<char>>, base: Seq<char>)
    requires
        forall|j: nat| 2 <= j < taken.len() + 2 ==> taken.contains(#[trigger] numbered(base, j)),
    ensures
        !taken.contains(numbered(base, (taken.len() + 2) as nat)),
{
    if taken.contains(numbered(base, (taken.len() + 2) as nat)) {
        let lo: int = 2;
        let hi: int = taken.len() as int + 3;
        let f = |j: int| numbered(base, j as nat);
        let xs = set_int_range(lo, hi);
        lemma_int_range(lo, hi);
        assert(injective_on(f, xs)) by {
            assert forall|a: int, b: int|
                xs.contains(a) && xs.contains(b) && #[trigger] f(a) == #[trigger] f(b) implies a == b by {
                lemma_numbered_injective(base, a as nat, b as nat);
            }
        }
        lemma_map_size(xs, xs.map(f), f);
        assert(xs.map(f).subset_of(taken.to_set())) by {
            assert forall|x: Seq<char>| xs.map(f).contains(x) implies taken.to_set().contains(x) by {
                let a = choose|a: int| xs.contains(a) && f(a) == x;
                if a < taken.len() + 2 {
                    assert(taken.contains(numbered(base, a as nat)));
                }
            }
        }
        taken.lemma_cardinality_of_set();
        lemma_len_subset(xs.map(f), taken.to_set());
    }
}

proof fn lemma_numbered_safe(base: Seq<char>, k: nat)
    requires
        forall|i: int| 0 <= i < base.len() ==> is_file_name_safe(#[trigger] base[i]),
    ensures
        forall|i: int|
            0 <= i < numbered(base, k).len() ==> is_file_name_safe(#[trigger] numbered(base, k)[i]),
{
    lemma_decimal_digits(k);
    assert forall|i: int| 0 <= i < numbered(base, k).len() implies is_file_name_safe(
        #[trigger] numbered(base, k)[i],
    ) by {
        if i < base.len() {
            assert(numbered(base, k)[i] == base[i]);
        } else if i > base.len() {
            assert(numbered(base, k)[i] == decimal(k)[i - base.len() - 1]);
        }
    }
}

fn numbered_exec(base: &str, k: usize) -> (r: String)
    ensures
        r@ == numbered(base@, k as nat),
{
    let mut cs = chars_of(base);
    cs.push('_');
    push_decimal(k, &mut cs);
    assert(cs@ =~= numbered(base@, k as nat));
    string_from_chars(cs.as_slice())
}

fn unique_name_exec(taken: &Vec<String>, base: String) -> (r: String)
    requires
        taken@.len() + 2 <= usize::MAX,
        forall|i: int| 0 <= i < base@.len() ==> is_file_name_safe(#[trigger] base@[i]),
    ensures
        r@ == unique_name(views(taken@), base@),
        !views(taken@).contains(r@),
        forall|i: int| 0 <= i < r@.len() ==> is_file_name_safe(#[trigger] r@[i]),
{
    let ghost t = views(taken@);
    if !contains_string(taken, &base) {
        return base;
    }
    let bound = taken.len() + 2;
    let mut k: usize = 2;
    loop
        invariant
            2 <= k <= bound,
            bound == taken@.len() + 2,
            t == views(taken@),
            t.contains(base@),
            forall|i: int| 0 <= i < base@.len() ==> is_file_name_safe(#[trigger] base@[i]),
            first_free_number(t, base@, k as nat, bound as nat) == first_free_number(t, base@, 2, bound as nat),
            forall|j: nat| 2 <= j < k ==> t.contains(#[trigger] numbered(base@, j)),
        decreases bound - k,
    {
        let cand = numbered_exec(base.as_str(), k);
        if k >= bound || !contains_string(taken, &cand) {
            proof {
                lemma_numbered_safe(base@, k as nat);
                assert(t.len() == taken@.len());
                assert(first_free_number(t, base@, k as nat, bound as nat) == k as nat);
                if k >= bound {
                    lemma_some_number_free(t, base@);
                }
            }
            return cand;
        }
        k = k + 1;
    }
}

/// File names for the sheets of one workbook: each sheet's sanitized name,
/// numbered when an earlier sheet already took it, so that no two are equal.
pub fn sheet_file_names(sheets: &Vec<String>) -> (names: Vec<String>)
    requires
        sheets@.len() + 2 <= usize::MAX,
    ensures
        views(names@) == spec_sheet_names(views(sheets@)),
        all_distinct_text(views(names@)),
        forall|k: int, i: int|
            0 <= k < names@.len() && 0 <= i < names@[k]@.len() ==> is_file_name_safe(
                #[trigger] names@[k]@[i],
            ),
{
    let mut names: Vec<String> = Vec::new();
    let mut i: usize = 0;
    while i < sheets.len()
        invariant
            i <= sheets@.len(),
            sheets@.len() + 2 <= usize::MAX,
            views(names@) == spec_sheet_names(views(sheets@).take(i as int)),
            all_distinct_text(views(names@)),
            forall|k: int, j: int|
                0 <= k < names@.len() && 0 <= j < names@[k]@.len() ==> is_file_name_safe(
                    #[trigger] names@[k]@[j],
                ),
        decreases sheets@.len() - i,
    {
        proof {
            lemma_sheet_names_len(views(sheets@).take(i as int));
            law_sanitize_sheet_name(sheets@[i as int]@);
        }
        let base = sanitize_sheet_name(sheets[i].as_str());
        let name = unique_name_exec(&names, base);
        let ghost before = views(names@);
        names.push(name);
        proof {
            assert(views(sheets@).take(i + 1).drop_last() =~= views(sheets@).take(i as int));
            assert(views(names@) =~= before.push(name@));
            assert forall|a: int, b: int| 0 <= a < b < views(names@).len() implies views(names@)[a]
                != views(names@)[b] by {
                if b == before.len() {
                    assert(before.contains(before[a]));
                }
            }
        }
        i = i + 1;
    }
    assert(views(sheets@).take(sheets@.len() as int) =~= views(sheets@));
    names
}

proof fn lemma_sheet_names_len(sheets: Seq<Seq<char>>)
    ensures
        spec_sheet_names(sheets).len() == sheets.len(),
    decreases sheets.len(),
{
    if sheets.len() > 0 {
        lemma_sheet_names_len(sheets.drop_last());
    }
}

/// No separator or drive-prefix character (`/`, `\\`, `:`) in the text.
pub open spec fn has_no_path_syntax(s: Seq<char>) -> bool {
    forall|i: int| 0 <= i < s.len() ==> s[i] != '/' && s[i] != '\\' && s[i] != ':'
}

/// The Parquet file of each sheet of a workbook: `<dir>/<stem>__<name>.parquet`,
/// with the names of `sheet_file_names`. Two sheets never share a file when
/// the stem holds no path syntax and `dir` is not a verbatim Windows path.
pub fn sheet_output_paths(dir: &str, stem: &str, sheets: &Vec<String>) -> (r: Vec<String>)
    requires
        sheets@.len() + 2 <= usize::MAX,
    ensures
        views(r@) == spec_sheet_output_paths(dir@, stem@, views(sheets@)),
        has_no_path_syntax(stem@) && !is_verbatim_path(dir@) ==> all_distinct_text(views(r@)),
{
    let names = sheet_file_names(sheets);
    let mut r: Vec<String> = Vec::new();
    let sep: Vec<char> = vec!['_', '_'];
    let suffix: Vec<char> = vec!['.', 'p', 'a', 'r', 'q', 'u', 'e', 't'];
    assert(sep@ =~= seq!['_', '_']);
    assert(suffix@ =~= seq!['.', 'p', 'a', 'r', 'q', 'u', 'e', 't']);
    let sep = string_from_chars(sep.as_slice());
    let suffix = string_from_chars(suffix.as_slice());
    let ghost ns = views(names@);
    let ghost plain = has_no_path_syntax(stem@) && !is_verbatim_path(dir@);
    let mut i: usize = 0;
    while i < names.len()
        invariant
            i <= names@.len(),
            ns == views(names@),
            sep@ == seq!['_', '_'],
            suffix@ == seq!['.', 'p', 'a', 'r', 'q', 'u', 'e', 't'],
            plain == (has_no_path_syntax(stem@) && !is_verbatim_path(dir@)),
            forall|k: int, j: int|
                0 <= k < names@.len() && 0 <= j < names@[k]@.len() ==> is_file_name_safe(
                    #[trigger] names@[k]@[j],
                ),
            r@.len() == i,
            forall|k: int| 0 <= k < i ==> (#[trigger] r@[k])@ == spec_sheet_file_path(dir@, stem@, ns[k]),
            plain ==> forall|k: int|
                0 <= k < i ==> join_forms(dir@, sheet_file_name(stem@, ns[k]), (#[trigger] r@[k])@),
        decreases names@.len() - i,
    {
        let name = concat(
            concat(concat(stem, sep.as_str()).as_str(), names[i].as_str()).as_str(),
            suffix.as_str(),
        );
        assert(name@ =~= sheet_file_name(stem@, ns[i as int]));
        proof {
            if plain {
                lemma_sheet_file_name_plain(stem@, ns[i as int]);
            }
        }
        let p = path_join(dir, name.as_str());
        r.push(p);
        i = i + 1;
    }
    proof {
        assert(views(r@) =~= spec_sheet_output_paths(dir@, stem@, views(sheets@)));
        if plain {
            assert forall|a: int, b: int| 0 <= a < b < views(r@).len() implies views(r@)[a]
                != views(r@)[b] by {
                if views(r@)[a] == views(r@)[b] {
                    let x = sheet_file_name(stem@, ns[a]);
                    let y = sheet_file_name(stem@, ns[b]);
                    assert(join_forms(dir@, x, r@[a]@));
                    assert(join_forms(dir@, y, r@[b]@));
                    lemma_sheet_file_name_plain(stem@, ns[a]);
                    lemma_sheet_file_name_plain(stem@, ns[b]);
                    lemma_join_forms_injective(dir@, x, y, r@[a]@);
                    lemma_sheet_file_name_injective(stem@, ns[a], ns[b]);
                }
            }
        }
    }
    r
}

/// `p` is `dir` followed by `x`, with at most one separator between them.
spec fn join_forms(dir: Seq<char>, x: Seq<char>, p: Seq<char>) -> bool {
    ||| p == dir + x
    ||| p == dir + seq!['/'] + x
    ||| p == dir + seq!['\\'] + x
}

proof fn lemma_sheet_file_name_plain(stem: Seq<char>, name: Seq<char>)
    requires
        has_no_path_syntax(stem),
        forall|i: int| 0 <= i < name.len() ==> is_file_name_safe(#[trigger] name[i]),
    ensures
        is_plain_component(sheet_file_name(stem, name)),
{
    let f = sheet_file_name(stem, name);
    assert(f.len() >= 10);
    assert forall|i: int| 0 <= i < f.len() implies f[i] != '/' && f[i] != '\\' && f[i] != ':' by {
        if i < stem.len() {
            assert(f[i] == stem[i]);
        } else if stem.len() + 2 <= i < stem.len() + 2 + name.len() {
            assert(f[i] == name[i - stem.len() - 2]);
            assert(is_file_name_safe(name[i - stem.len() - 2]));
        }
    }
}

proof fn lemma_join_forms_injective(dir: Seq<char>, x: Seq<char>, y: Seq<char>, p: Seq<char>)
    requires
        is_plain_component(x),
        is_plain_component(y),
        join_forms(dir, x, p),
        join_forms(dir, y, p),
    ensures
        x == y,
{
    let t = p.subrange(dir.len() as int, p.len() as int);
    if p == dir + x {
        assert(t =~= x);
    } else if p == dir + seq!['/'] + x {
        assert(t =~= seq!['/'] + x);
    } else {
        assert(t =~= seq!['\\'] + x);
    }
    if p == dir + y {
        assert(t =~= y);
    } else if p == dir + seq!['/'] + y {
        assert(t =~= seq!['/'] + y);
    } else {
        assert(t =~= seq!['\\'] + y);
    }
    assert(x[0] != '/' && x[0] != '\\');
    assert(y[0] != '/' && y[0] != '\\');
    if t == x || t == y {
        assert(t[0] != '/' && t[0] != '\\');
    } else {
        assert(x =~= t.drop_first());
        assert(y =~= t.drop_first());
    }
}

proof fn lemma_sheet_file_name_injective(stem: Seq<char>, a: Seq<char>, b: Seq<char>)
    requires
        sheet_file_name(stem, a) == sheet_file_name(stem, b),
    ensures
        a == b,
{
    let n: int = stem.len() as int + 2;
    assert(sheet_file_name(stem, a).len() == n + a.len() + 8);
    assert(sheet_file_name(stem, b).len() == n + b.len() + 8);
    assert(a.len() == b.len());
    assert(sheet_file_name(stem, a).subrange(n, n + a.len() as int) =~= a);
    assert(sheet_file_name(stem, b).subrange(n, n + b.len() as int) =~= b);
}

/// Output of a conversion from standard input: `--output`, else `stdin.parquet`.
pub open spec fn spec_stdin_output_path(output: Option<Seq<char>>) -> Seq<char> {
    match output {
        Some(out) => out,
        None => seq!['s', 't', 'd', 'i', 'n', '.', 'p', 'a', 'r', 'q', 'u', 'e', 't'],
    }
}

pub fn stdin_output_path(output: &Option<String>) -> (r: String)
    ensures
        r@ == spec_stdin_output_path(opt_view(*output)),
{
    match output {
        Some(out) => out.clone(),
        None => {
            let cs: Vec<char> = vec!['s', 't', 'd', 'i', 'n', '.', 'p', 'a', 'r', 'q', 'u', 'e', 't'];
            assert(cs@ =~= seq!['s', 't', 'd', 'i', 'n', '.', 'p', 'a', 'r', 'q', 'u', 'e', 't']);
            string_from_chars(cs.as_slice())
        },
    }
}

} // verus!
