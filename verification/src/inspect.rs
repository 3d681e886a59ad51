//! Parquet inspection rules: which files are Parquet, and per-column storage
//! totals summed over the row groups of a file's footer.
use crate::paths::{ext_is, extension_chars, has_extension};
use vstd::prelude::*;

verus! {

pub open spec fn spec_is_parquet(p: Seq<char>) -> bool {
    has_extension(p, seq!['p', 'a', 'r', 'q', 'u', 'e', 't'])
}

/// Parquet input, by extension (any ASCII case).
pub fn is_parquet(path: &str) -> (b: bool)
    ensures
        b == spec_is_parquet(path@),
{
    let ext = extension_chars(path);
    ext_is(&ext, &['p', 'a', 'r', 'q', 'u', 'e', 't'])
}

/// Storage of one column chunk of a row group; the null count is absent when
/// the writer omitted statistics.
#[derive(Clone, Copy, Debug)]
pub struct ChunkUsage {
    pub compressed: i64,
    pub uncompressed: i64,
    pub null_count: Option<u64>,
}

/// Storage of one column over all row groups.
#[derive(Clone, Debug)]
pub struct ColumnUsage {
    pub name: String,
    pub compressed_bytes: i64,
    pub uncompressed_bytes: i64,
    pub null_count: Option<u64>,
}

pub open spec fn chunk_of(group: Vec<ChunkUsage>, c: int) -> Option<ChunkUsage> {
    if 0 <= c < group@.len() {
        Some(group@[c])
    } else {
        None
    }
}

/// Compressed bytes of column `c` over the first `n` row groups.
pub open spec fn compressed_sum(groups: Seq<Vec<ChunkUsage>>, c: int, n: int) -> int
    decreases n,
{
    if n <= 0 {
        0
    } else {
        compressed_sum(groups, c, n - 1) + match chunk_of(groups[n - 1], c) {
            Some(k) => k.compressed as int,
            None => 0,
        }
    }
}

pub open spec fn uncompressed_sum(groups: Seq<Vec<ChunkUsage>>, c: int, n: int) -> int
    decreases n,
{
    if n <= 0 {
        0
    } else {
        uncompressed_sum(groups, c, n - 1) + match chunk_of(groups[n - 1], c) {
            Some(k) => k.uncompressed as int,
            None => 0,
        }
    }
}

/// Nulls of column `c` over the first `n` row groups; unknown as soon as one
/// chunk lacks the statistic.
pub open spec fn null_sum(groups: Seq<Vec<ChunkUsage>>, c: int, n: int) -> Option<int>
    decreases n,
{
    if n <= 0 {
        Some(0)
    } else {
        let prev = null_sum(groups, c, n - 1);
        match chunk_of(groups[n - 1], c) {
            Some(k) => match (prev, k.null_count) {
                (Some(t), Some(m)) => Some(t + m),
                _ => None,
            },
            None => prev,
        }
    }
}

/// The running totals never leave the range of their integer types.
pub open spec fn sums_fit(groups: Seq<Vec<ChunkUsage>>, c: int) -> bool {
    forall|n: int|
        0 <= n <= groups.len() ==> {
            &&& i64::MIN <= #[trigger] compressed_sum(groups, c, n) <= i64::MAX
            &&& i64::MIN <= uncompressed_sum(groups, c, n) <= i64::MAX
            &&& (null_sum(groups, c, n) matches Some(t) ==> t <= u64::MAX)
        }
}

pub open spec fn opt_u64(o: Option<int>) -> Option<u64> {
    match o {
        Some(t) => Some(t as u64),
        None => None,
    }
}

/// Per-column totals across all row groups, columns named after `names`.
pub fn aggregate_column_usage(names: &Vec<String>, groups: &Vec<Vec<ChunkUsage>>) -> (u: Vec<ColumnUsage>)
    requires
        forall|c: int| 0 <= c < names@.len() ==> #[trigger] sums_fit(groups@, c),
    ensures
        u@.len() == names@.len(),
        forall|c: int|
            #![trigger u@[c]]
            0 <= c < names@.len() ==> {
                &&& u@[c].name@ == names@[c]@
                &&& u@[c].compressed_bytes == compressed_sum(groups@, c, groups@.len() as int)
                &&& u@[c].uncompressed_bytes == uncompressed_sum(groups@, c, groups@.len() as int)
                &&& u@[c].null_count == opt_u64(null_sum(groups@, c, groups@.len() as int))
            },
{
    let mut u: Vec<ColumnUsage> = Vec::new();
    let mut c: usize = 0;
    while c < names.len()
        invariant
            c <= names@.len(),
            u@.len() == c,
            forall|k: int| 0 <= k < names@.len() ==> #[trigger] sums_fit(groups@, k),
            forall|k: int|
                #![trigger u@[k]]
                0 <= k < c ==> {
                    &&& u@[k].name@ == names@[k]@
                    &&& u@[k].compressed_bytes == compressed_sum(groups@, k, groups@.len() as int)
                    &&& u@[k].uncompressed_bytes == uncompressed_sum(groups@, k, groups@.len() as int)
                    &&& u@[k].null_count == opt_u64(null_sum(groups@, k, groups@.len() as int))
                },
        decreases names@.len() - c,
    {
        let mut comp: i64 = 0;
        let mut raw: i64 = 0;
        let mut nulls: Option<u64> = Some(0);
        let mut g: usize = 0;
        assert(sums_fit(groups@, c as int));
        while g < groups.len()
            invariant
                g <= groups@.len(),
                c < names@.len(),
                sums_fit(groups@, c as int),
                comp == compressed_sum(groups@, c as int, g as int),
                raw == uncompressed_sum(groups@, c as int, g as int),
                nulls == opt_u64(null_sum(groups@, c as int, g as int)),
                null_sum(groups@, c as int, g as int) matches Some(t) ==> 0 <= t,
            decreases groups@.len() - g,
        {
            assert(i64::MIN <= compressed_sum(groups@, c as int, g + 1) <= i64::MAX);
            if c < groups[g].len() {
                let k = groups[g][c];
                comp = comp + k.compressed;
                raw = raw + k.uncompressed;
                nulls = match (nulls, k.null_count) {
                    (Some(t), Some(m)) => Some(t + m),
                    _ => None,
                };
            }
            g = g + 1;
        }
        let name: String = names[c].clone();
        u.push(ColumnUsage { name, compressed_bytes: comp, uncompressed_bytes: raw, null_count: nulls });
        c = c + 1;
    }
    u
}

} // verus!
