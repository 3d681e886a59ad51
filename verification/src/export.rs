//! Target formats of the conversion back from Parquet, with the file
//! extension, label and viewer hotkey of each.
use vstd::prelude::*;

verus! {

/// Target format for inverse conversion from Parquet.
#[derive(Clone, Copy, Debug, PartialEq, Eq, Structural)]
pub enum ExportFormat {
    Csv,
    Jsonl,
    Json,
    Xlsx,
}

impl ExportFormat {
    /// All formats, in menu order.
    pub const ALL: [ExportFormat; 4] = [
        ExportFormat::Csv,
        ExportFormat::Jsonl,
        ExportFormat::Json,
        ExportFormat::Xlsx,
    ];

    pub open spec fn spec_extension(self) -> Seq<char> {
        match self {
            ExportFormat::Csv => seq!['c', 's', 'v'],
            ExportFormat::Jsonl => seq!['j', 's', 'o', 'n', 'l'],
            ExportFormat::Json => seq!['j', 's', 'o', 'n'],
            ExportFormat::Xlsx => seq!['x', 'l', 's', 'x'],
        }
    }

    pub open spec fn spec_label(self) -> Seq<char> {
        match self {
            ExportFormat::Csv => seq!['C', 'S', 'V'],
            ExportFormat::Jsonl => seq!['J', 'S', 'O', 'N', 'L'],
            ExportFormat::Json => seq!['J', 'S', 'O', 'N'],
            ExportFormat::Xlsx => seq!['X', 'L', 'S', 'X'],
        }
    }

    pub open spec fn spec_hotkey(self) -> char {
        match self {
            ExportFormat::Csv => 'c',
            ExportFormat::Jsonl => 'n',
            ExportFormat::Json => 'o',
            ExportFormat::Xlsx => 'x',
        }
    }

    /// The format whose hotkey is `key`, searched in menu order.
    pub open spec fn spec_from_hotkey(key: char) -> Option<ExportFormat> {
        if key == 'c' {
            Some(ExportFormat::Csv)
        } else if key == 'n' {
            Some(ExportFormat::Jsonl)
        } else if key == 'o' {
            Some(ExportFormat::Json)
        } else if key == 'x' {
            Some(ExportFormat::Xlsx)
        } else {
            None
        }
    }

    pub fn extension(self) -> (r: &'static str)
        ensures
            r@ == self.spec_extension(),
    {
        let r = match self {
            ExportFormat::Csv => "csv",
            ExportFormat::Jsonl => "jsonl",
            ExportFormat::Json => "json",
            ExportFormat::Xlsx => "xlsx",
        };
        proof {
            reveal_strlit("csv");
            reveal_strlit("jsonl");
            reveal_strlit("json");
            reveal_strlit("xlsx");
        }
        r
    }

    pub fn label(self) -> (r: &'static str)
        ensures
            r@ == self.spec_label(),
    {
        let r = match self {
            ExportFormat::Csv => "CSV",
            ExportFormat::Jsonl => "JSONL",
            ExportFormat::Json => "JSON",
            ExportFormat::Xlsx => "XLSX",
        };
        proof {
            reveal_strlit("CSV");
            reveal_strlit("JSONL");
            reveal_strlit("JSON");
            reveal_strlit("XLSX");
        }
        r
    }

    /// Single-key mnemonic used by the interactive viewer (no navigation conflict).
    pub fn hotkey(self) -> (c: char)
        ensures
            c == self.spec_hotkey(),
    {
        match self {
            ExportFormat::Csv => 'c',
            ExportFormat::Jsonl => 'n',
            ExportFormat::Json => 'o',
            ExportFormat::Xlsx => 'x',
        }
    }

    pub fn from_hotkey(key: char) -> (r: Option<ExportFormat>)
        ensures
            r == Self::spec_from_hotkey(key),
    {
        let all = Self::ALL;
        let mut i: usize = 0;
        while i < 4
            invariant
                i <= 4,
                all@ == seq![ExportFormat::Csv, ExportFormat::Jsonl, ExportFormat::Json, ExportFormat::Xlsx],
                forall|j: int| 0 <= j < i ==> (#[trigger] all@[j]).spec_hotkey() != key,
            decreases 4 - i,
        {
            let f = all[i];
            if f.hotkey() == key {
                return Some(f);
            }
            i = i + 1;
        }
        None
    }
}

/// The hotkey of a format leads back to that format.
pub proof fn law_hotkey_round_trip(f: ExportFormat)
    ensures
        ExportFormat::spec_from_hotkey(f.spec_hotkey()) == Some(f),
{
}

/// A key selects a format only if it is that format's hotkey; hence no two
/// formats share a hotkey.
pub proof fn law_from_hotkey_sound(key: char, f: ExportFormat)
    requires
        ExportFormat::spec_from_hotkey(key) == Some(f),
    ensures
        f.spec_hotkey() == key,
{
}

/// Hotkeys leave the viewer's navigation and quit keys free.
pub proof fn law_hotkeys_avoid_navigation(f: ExportFormat)
    ensures
        f.spec_hotkey() != 'h',
        f.spec_hotkey() != 'j',
        f.spec_hotkey() != 'k',
        f.spec_hotkey() != 'l',
        f.spec_hotkey() != 'q',
{
}

/// Distinct formats have distinct extensions.
pub proof fn law_extensions_distinct(a: ExportFormat, b: ExportFormat)
    requires
        a != b,
    ensures
        a.spec_extension() != b.spec_extension(),
{
    if a.spec_extension() == b.spec_extension() {
        assert(a.spec_extension().len() == b.spec_extension().len());
        assert(a.spec_extension()[0] == b.spec_extension()[0]);
        assert(a.spec_extension()[3] == b.spec_extension()[3]);
    }
}

} // verus!
