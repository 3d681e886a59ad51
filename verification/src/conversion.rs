//! Pipeline rules: cutting the record stream into numbered blocks, and
//! merging per-block metrics into per-file metrics.
use crate::analysis::types::{ColumnMetrics, ErrorSample, sample_after, views};
use vstd::prelude::*;

verus! {

/// Records per block handed to the conversion workers.
pub const BLOCK_SIZE: usize = 100_000;

// ---------------------------------------------------------------- blocks

/// Blocks completed and records pending after `recs` were read, `size` per block.
pub open spec fn blocks_of<T>(size: nat, recs: Seq<T>) -> (Seq<Seq<T>>, Seq<T>)
    decreases recs.len(),
{
    if recs.len() == 0 {
        (Seq::empty(), Seq::empty())
    } else {
        let prev = blocks_of(size, recs.drop_last());
        let pending = prev.1.push(recs.last());
        if pending.len() >= size {
            (prev.0.push(pending), Seq::empty())
        } else {
            (prev.0, pending)
        }
    }
}

pub open spec fn flatten<T>(bs: Seq<Seq<T>>) -> Seq<T>
    decreases bs.len(),
{
    if bs.len() == 0 {
        Seq::empty()
    } else {
        flatten(bs.drop_last()) + bs.last()
    }
}

/// Cuts the stream of records into blocks of `block_size`, numbered from 0.
pub struct BlockBuilder {
    block_size: usize,
    next_index: usize,
    pending: Vec<Vec<String>>,
    pushed: Ghost<Seq<Vec<String>>>,
}

impl BlockBuilder {
    /// Records read so far.
    pub closed spec fn records(self) -> Seq<Vec<String>> {
        self.pushed@
    }

    pub closed spec fn size(self) -> usize {
        self.block_size
    }

    pub closed spec fn wf(self) -> bool {
        &&& self.pending@ == blocks_of(self.block_size as nat, self.pushed@).1
        &&& self.next_index == blocks_of(self.block_size as nat, self.pushed@).0.len()
    }

    pub fn new(block_size: usize) -> (b: BlockBuilder)
        ensures
            b.wf(),
            b.size() == block_size,
            b.records() == Seq::<Vec<String>>::empty(),
    {
        BlockBuilder { block_size, next_index: 0, pending: Vec::new(), pushed: Ghost(Seq::empty()) }
    }

    /// Take one more record; when it completes a block, that block comes back
    /// with its index.
    pub fn push(&mut self, record: Vec<String>) -> (r: Option<(usize, Vec<Vec<String>>)>)
        requires
            old(self).wf(),
            blocks_of(old(self).size() as nat, old(self).records()).0.len() < usize::MAX,
        ensures
            final(self).wf(),
            final(self).size() == old(self).size(),
            final(self).records() == old(self).records().push(record),
            ({
                let before = blocks_of(old(self).size() as nat, old(self).records());
                let after = blocks_of(final(self).size() as nat, final(self).records());
                match r {
                    Some((i, block)) => {
                        &&& after.0 == before.0.push(block@)
                        &&& i == before.0.len()
                    },
                    None => after.0 == before.0,
                }
            }),
    {
        let ghost old_pushed = self.pushed@;
        self.pending.push(record);
        self.pushed = Ghost(old_pushed.push(record));
        proof {
            assert(self.pushed@.drop_last() =~= old_pushed);
        }
        if self.pending.len() >= self.block_size {
            let mut full: Vec<Vec<String>> = Vec::new();
            std::mem::swap(&mut full, &mut self.pending);
            let index = self.next_index;
            self.next_index = self.next_index + 1;
            Some((index, full))
        } else {
            None
        }
    }

    /// The last, partial block, if any record is pending.
    pub fn finish(self) -> (r: Option<(usize, Vec<Vec<String>>)>)
        requires
            self.wf(),
        ensures
            ({
                let b = blocks_of(self.size() as nat, self.records());
                match r {
                    Some((i, block)) => i == b.0.len() && block@ == b.1 && b.1.len() > 0,
                    None => b.1.len() == 0,
                }
            }),
    {
        if self.pending.len() > 0 {
            Some((self.next_index, self.pending))
        } else {
            None
        }
    }
}

/// Cutting into blocks loses, reorders and duplicates nothing: the blocks in
/// index order, followed by the pending records, are exactly the records read;
/// every complete block holds `size` records and fewer than `size` are pending.
pub proof fn law_blocks_preserve_order<T>(size: nat, recs: Seq<T>)
    requires
        size > 0,
    ensures
        flatten(blocks_of(size, recs).0) + blocks_of(size, recs).1 == recs,
        forall|k: int|
            0 <= k < blocks_of(size, recs).0.len() ==> (#[trigger] blocks_of(size, recs).0[k]).len()
                == size,
        blocks_of(size, recs).1.len() < size,
    decreases recs.len(),
{
    if recs.len() == 0 {
        assert(flatten(Seq::<Seq<T>>::empty()) + Seq::<T>::empty() =~= recs);
    } else {
        law_blocks_preserve_order(size, recs.drop_last());
        let prev = blocks_of(size, recs.drop_last());
        let pending = prev.1.push(recs.last());
        assert(recs.drop_last().push(recs.last()) =~= recs);
        assert(flatten(prev.0) + pending =~= (flatten(prev.0) + prev.1).push(recs.last()));
        if pending.len() >= size {
            let bs = prev.0.push(pending);
            assert(bs.drop_last() =~= prev.0);
            assert(flatten(bs) + Seq::<T>::empty() =~= recs);
        } else {
            assert(flatten(prev.0) + pending =~= recs);
        }
    }
}

// ---------------------------------------------------------------- metrics

fn copy_strings(v: &Vec<String>) -> (r: Vec<String>)
    ensures
        views(r@) == views(v@),
{
    let mut r: Vec<String> = Vec::new();
    let mut i: usize = 0;
    while i < v.len()
        invariant
            i <= v@.len(),
            r@.len() == i,
            forall|k: int| 0 <= k < i ==> (#[trigger] r@[k])@ == v@[k]@,
        decreases v@.len() - i,
    {
        let s: String = v[i].clone();
        r.push(s);
        i = i + 1;
    }
    assert(views(r@) =~= views(v@));
    r
}

/// `target` with the counts of `source` added and its failure samples offered
/// to `target`'s sample.
pub open spec fn merged(target: ColumnMetrics, source: ColumnMetrics, result: ColumnMetrics) -> bool {
    &&& result.name@ == target.name@
    &&& result.total_values == target.total_values + source.total_values
    &&& result.total_null_text == target.total_null_text + source.total_null_text
    &&& result.total_conversion_errors == target.total_conversion_errors + source.total_conversion_errors
    &&& result.total_valid_values == target.total_valid_values + source.total_valid_values
    &&& result.error_samples.limit == target.error_samples.limit
    &&& result.error_samples.kept() == sample_after(
        target.error_samples.kept(),
        target.error_samples.limit as int,
        source.error_samples.kept(),
    )
}

pub open spec fn same_metrics(a: ColumnMetrics, b: ColumnMetrics) -> bool {
    &&& a.name@ == b.name@
    &&& a.total_values == b.total_values
    &&& a.total_null_text == b.total_null_text
    &&& a.total_conversion_errors == b.total_conversion_errors
    &&& a.total_valid_values == b.total_valid_values
    &&& a.error_samples.limit == b.error_samples.limit
    &&& a.error_samples.kept() == b.error_samples.kept()
}

pub open spec fn can_merge(target: ColumnMetrics, source: ColumnMetrics) -> bool {
    &&& target.total_values + source.total_values <= usize::MAX
    &&& target.total_null_text + source.total_null_text <= usize::MAX
    &&& target.total_conversion_errors + source.total_conversion_errors <= usize::MAX
    &&& target.total_valid_values + source.total_valid_values <= usize::MAX
}

fn merge_one(target: &ColumnMetrics, source: &ColumnMetrics) -> (r: ColumnMetrics)
    requires
        can_merge(*target, *source),
    ensures
        merged(*target, *source, r),
{
    let mut samples = ErrorSample { values: copy_strings(&target.error_samples.values), limit: target.error_samples.limit };
    let mut j: usize = 0;
    let ghost src = source.error_samples.kept();
    proof {
        lemma_sample_after_prefix(samples.kept(), samples.limit as int, src, 0);
    }
    while j < source.error_samples.values.len()
        invariant
            j <= src.len(),
            src == source.error_samples.kept(),
            samples.limit == target.error_samples.limit,
            samples.kept() == sample_after(target.error_samples.kept(), samples.limit as int, src.take(j as int)),
        decreases src.len() - j,
    {
        let s: String = source.error_samples.values[j].clone();
        let ghost before = samples.kept();
        samples.add(s);
        proof {
            crate::analysis::builders::lemma_sample_after_append(
                target.error_samples.kept(),
                samples.limit as int,
                src.take(j as int),
                seq![s@],
            );
            assert(src.take(j as int) + seq![s@] =~= src.take(j + 1));
        }
        j = j + 1;
    }
    assert(src.take(src.len() as int) =~= src);
    ColumnMetrics {
        name: target.name.clone(),
        total_values: target.total_values + source.total_values,
        total_null_text: target.total_null_text + source.total_null_text,
        total_conversion_errors: target.total_conversion_errors + source.total_conversion_errors,
        total_valid_values: target.total_valid_values + source.total_valid_values,
        error_samples: samples,
    }
}

proof fn lemma_sample_after_prefix(k: Seq<Seq<char>>, l: int, src: Seq<Seq<char>>, j: int)
    requires
        j == 0,
    ensures
        sample_after(k, l, src.take(j)) == k,
{
    assert(src.take(0) =~= Seq::<Seq<char>>::empty());
    assert(k + Seq::<Seq<char>>::empty() =~= k);
}

fn copy_metrics(m: &ColumnMetrics) -> (r: ColumnMetrics)
    ensures
        same_metrics(r, *m),
{
    ColumnMetrics {
        name: m.name.clone(),
        total_values: m.total_values,
        total_null_text: m.total_null_text,
        total_conversion_errors: m.total_conversion_errors,
        total_valid_values: m.total_valid_values,
        error_samples: ErrorSample { values: copy_strings(&m.error_samples.values), limit: m.error_samples.limit },
    }
}

/// File-level metrics after one block's metrics are added, column by column
/// (columns past the shorter list keep their counts).
pub fn merge_metrics(global: &Vec<ColumnMetrics>, block: &Vec<ColumnMetrics>) -> (r: Vec<ColumnMetrics>)
    requires
        forall|c: int|
            0 <= c < global@.len() && c < block@.len() ==> can_merge(#[trigger] global@[c], block@[c]),
    ensures
        r@.len() == global@.len(),
        forall|c: int|
            0 <= c < global@.len() ==> if c < block@.len() {
                merged(global@[c], block@[c], #[trigger] r@[c])
            } else {
                same_metrics(r@[c], global@[c])
            },
{
    let mut r: Vec<ColumnMetrics> = Vec::new();
    let mut c: usize = 0;
    while c < global.len()
        invariant
            c <= global@.len(),
            r@.len() == c,
            forall|k: int|
                0 <= k < global@.len() && k < block@.len() ==> can_merge(#[trigger] global@[k], block@[k]),
            forall|k: int|
                0 <= k < c ==> if k < block@.len() {
                    merged(global@[k], block@[k], #[trigger] r@[k])
                } else {
                    same_metrics(r@[k], global@[k])
                },
        decreases global@.len() - c,
    {
        if c < block.len() {
            r.push(merge_one(&global[c], &block[c]));
        } else {
            r.push(copy_metrics(&global[c]));
        }
        c = c + 1;
    }
    r
}

// ---------------------------------------------------------------- ordered writing

pub open spec fn indices_below(n: int) -> Seq<usize> {
    Seq::new(n as nat, |i: int| i as usize)
}

pub open spec fn distinct_keys<T>(p: Seq<(usize, T)>) -> bool {
    forall|i: int, j: int| 0 <= i < j < p.len() ==> (#[trigger] p[i]).0 != (#[trigger] p[j]).0
}

/// The item stored under key `k`, if any.
pub open spec fn slot_of<T>(p: Seq<(usize, T)>, k: usize) -> Option<T> {
    if exists|i: int| 0 <= i < p.len() && (#[trigger] p[i]).0 == k {
        Some(p[choose|i: int| 0 <= i < p.len() && (#[trigger] p[i]).0 == k].1)
    } else {
        None
    }
}

proof fn lemma_slot_of_at<T>(p: Seq<(usize, T)>, i: int)
    requires
        distinct_keys(p),
        0 <= i < p.len(),
    ensures
        slot_of(p, p[i].0) == Some(p[i].1),
{
    let k = p[i].0;
    assert(exists|j: int| 0 <= j < p.len() && (#[trigger] p[j]).0 == k);
    let c = choose|j: int| 0 <= j < p.len() && (#[trigger] p[j]).0 == k;
    if c < i {
        assert(p[c].0 != p[i].0);
    } else if c > i {
        assert(p[i].0 != p[c].0);
    }
}

proof fn lemma_slot_of_push<T>(p: Seq<(usize, T)>, k: usize, v: T)
    requires
        distinct_keys(p),
        slot_of(p, k) is None,
    ensures
        distinct_keys(p.push((k, v))),
        forall|q: usize|
            #[trigger] slot_of(p.push((k, v)), q) == if q == k {
                Some(v)
            } else {
                slot_of(p, q)
            },
{
    let r = p.push((k, v));
    assert forall|i: int, j: int| 0 <= i < j < r.len() implies (#[trigger] r[i]).0 != (
    #[trigger] r[j]).0 by {
        if j == p.len() {
            assert(r[i] == p[i]);
            assert(!(0 <= i < p.len() && p[i].0 == k));
        } else {
            assert(r[i] == p[i] && r[j] == p[j]);
        }
    }
    assert forall|q: usize| #[trigger] slot_of(r, q) == if q == k {
        Some(v)
    } else {
        slot_of(p, q)
    } by {
        if q == k {
            lemma_slot_of_at(r, p.len() as int);
        } else if exists|i: int| 0 <= i < p.len() && (#[trigger] p[i]).0 == q {
            let i = choose|i: int| 0 <= i < p.len() && (#[trigger] p[i]).0 == q;
            lemma_slot_of_at(p, i);
            assert(r[i] == p[i]);
            lemma_slot_of_at(r, i);
        } else {
            assert forall|i: int| 0 <= i < r.len() implies (#[trigger] r[i]).0 != q by {
                if i < p.len() {
                    assert(r[i] == p[i]);
                }
            }
        }
    }
}

proof fn lemma_slot_of_remove<T>(p: Seq<(usize, T)>, i: int)
    requires
        distinct_keys(p),
        0 <= i < p.len(),
    ensures
        distinct_keys(p.remove(i)),
        forall|q: usize|
            #[trigger] slot_of(p.remove(i), q) == if q == p[i].0 {
                None
            } else {
                slot_of(p, q)
            },
{
    let r = p.remove(i);
    assert forall|a: int, b: int| 0 <= a < b < r.len() implies (#[trigger] r[a]).0 != (
    #[trigger] r[b]).0 by {
        let a0 = if a < i { a } else { a + 1 };
        let b0 = if b < i { b } else { b + 1 };
        assert(r[a] == p[a0] && r[b] == p[b0]);
        assert(p[a0].0 != p[b0].0);
    }
    assert forall|q: usize| #[trigger] slot_of(r, q) == if q == p[i].0 {
        None
    } else {
        slot_of(p, q)
    } by {
        if exists|j: int| 0 <= j < r.len() && (#[trigger] r[j]).0 == q {
            let j = choose|j: int| 0 <= j < r.len() && (#[trigger] r[j]).0 == q;
            let j0 = if j < i { j } else { j + 1 };
            assert(r[j] == p[j0]);
            lemma_slot_of_at(r, j);
            lemma_slot_of_at(p, j0);
            if q == p[i].0 {
                if j0 < i {
                    assert(p[j0].0 != p[i].0);
                } else {
                    assert(p[i].0 != p[j0].0);
                }
            }
        } else if q != p[i].0 {
            assert forall|j: int| 0 <= j < p.len() implies (#[trigger] p[j]).0 != q by {
                if j < i {
                    assert(r[j] == p[j]);
                } else if j > i {
                    assert(r[j - 1] == p[j]);
                }
            }
        }
    }
}

/// Holds the converted blocks that arrive out of order and hands them out
/// in block order: a block is released once every block before it was.
pub struct ReorderBuffer<T> {
    next: usize,
    pending: Vec<(usize, T)>,
    released: Ghost<Seq<usize>>,
    arrived: Ghost<Set<usize>>,
}

impl<T> ReorderBuffer<T> {
    /// Index of the next block to release.
    pub closed spec fn next_index(self) -> int {
        self.next as int
    }

    /// The block with index `k`, if it waits here.
    pub closed spec fn slot(self, k: usize) -> Option<T> {
        slot_of(self.pending@, k)
    }

    /// Indices of the blocks released so far, in release order.
    pub closed spec fn released(self) -> Seq<usize> {
        self.released@
    }

    /// Indices of the blocks inserted so far.
    pub closed spec fn arrived(self) -> Set<usize> {
        self.arrived@
    }

    pub closed spec fn wf(self) -> bool {
        &&& distinct_keys(self.pending@)
        &&& forall|i: int|
            0 <= i < self.pending@.len() ==> self.next < (#[trigger] self.pending@[i]).0 < usize::MAX
        &&& self.released@ == indices_below(self.next as int)
        &&& forall|k: usize|
            #[trigger] self.arrived@.contains(k) <==> (k < self.next || slot_of(self.pending@, k) is Some)
    }

    pub fn new() -> (b: Self)
        ensures
            b.wf(),
            b.next_index() == 0,
            forall|k: usize| #[trigger] b.slot(k) is None,
            b.arrived() == Set::<usize>::empty(),
    {
        let b = ReorderBuffer {
            next: 0,
            pending: Vec::new(),
            released: Ghost(Seq::empty()),
            arrived: Ghost(Set::empty()),
        };
        assert(b.released@ =~= indices_below(0));
        b
    }

    /// Index of the next block to release.
    pub fn next(&self) -> (n: usize)
        ensures
            n == self.next_index(),
    {
        self.next
    }

    /// Whether block `index` waits here.
    pub fn is_waiting(&self, index: usize) -> (b: bool)
        ensures
            b == self.slot(index) is Some,
    {
        self.position_of(index).is_some()
    }

    fn position_of(&self, k: usize) -> (r: Option<usize>)
        ensures
            match r {
                Some(i) => i < self.pending@.len() && self.pending@[i as int].0 == k,
                None => slot_of(self.pending@, k) is None,
            },
    {
        let mut i: usize = 0;
        while i < self.pending.len()
            invariant
                i <= self.pending@.len(),
                forall|j: int| 0 <= j < i ==> (#[trigger] self.pending@[j]).0 != k,
            decreases self.pending@.len() - i,
        {
            if self.pending[i].0 == k {
                return Some(i);
            }
            i = i + 1;
        }
        None
    }

    /// Take block `index`; the blocks that can now be released come back in
    /// index order, from the next index on as long as they are all here.
    pub fn insert(&mut self, index: usize, item: T) -> (ready: Vec<T>)
        requires
            old(self).wf(),
            old(self).next_index() <= index < usize::MAX,
            old(self).slot(index) is None,
        ensures
            final(self).wf(),
            old(self).next_index() <= final(self).next_index(),
            ready@.len() == final(self).next_index() - old(self).next_index(),
            forall|j: int|
                0 <= j < ready@.len() ==> (if old(self).next_index() + j == index {
                    Some(item)
                } else {
                    old(self).slot((old(self).next_index() + j) as usize)
                }) == Some(#[trigger] ready@[j]),
            final(self).next_index() != index ==> old(self).slot(final(self).next_index() as usize)
                is None,
            forall|k: usize|
                #[trigger] final(self).slot(k) == if k < final(self).next_index() {
                    None
                } else if k == index {
                    Some(item)
                } else {
                    old(self).slot(k)
                },
            final(self).released() == old(self).released() + Seq::new(
                ready@.len(),
                |j: int| (old(self).next_index() + j) as usize,
            ),
            final(self).arrived() == old(self).arrived().insert(index),
    {
        let ghost start = self.next as int;
        let ghost before = *self;
        let ghost expected = |k: usize| if k == index {
            Some(item)
        } else {
            before.slot(k)
        };
        proof {
            lemma_slot_of_push(self.pending@, index, item);
        }
        self.pending.push((index, item));
        let mut ready: Vec<T> = Vec::new();
        loop
            invariant_except_break
                before.wf(),
                start <= self.next,
                index < usize::MAX,
                distinct_keys(self.pending@),
                forall|i: int|
                    0 <= i < self.pending@.len() ==> self.next <= (#[trigger] self.pending@[i]).0
                        < usize::MAX,
                forall|k: usize| #[trigger] slot_of(self.pending@, k) == if k < self.next {
                    None
                } else {
                    expected(k)
                },
                ready@.len() == self.next - start,
                forall|j: int| 0 <= j < ready@.len() ==> expected((start + j) as usize) == Some(
                    #[trigger] ready@[j],
                ),
                self.released@ == before.released@ + Seq::new(
                    ready@.len(),
                    |j: int| (start + j) as usize,
                ),
                start == before.next,
            ensures
                self.next >= start,
                distinct_keys(self.pending@),
                forall|i: int|
                    0 <= i < self.pending@.len() ==> self.next < (#[trigger] self.pending@[i]).0
                        < usize::MAX,
                forall|k: usize| #[trigger] slot_of(self.pending@, k) == if k < self.next {
                    None
                } else {
                    expected(k)
                },
                expected(self.next) is None,
                ready@.len() == self.next - start,
                forall|j: int| 0 <= j < ready@.len() ==> expected((start + j) as usize) == Some(
                    #[trigger] ready@[j],
                ),
                self.released@ == before.released@ + Seq::new(
                    ready@.len(),
                    |j: int| (start + j) as usize,
                ),
            decreases usize::MAX - self.next,
        {
            match self.position_of(self.next) {
                Some(i) => {
                    let ghost p = self.pending@;
                    proof {
                        lemma_slot_of_at(p, i as int);
                        lemma_slot_of_remove(p, i as int);
                    }
                    let (_, block) = self.pending.remove(i);
                    ready.push(block);
                    self.released = Ghost(self.released@.push(self.next));
                    self.next = self.next + 1;
                    proof {
                        assert(self.released@ =~= before.released@ + Seq::new(
                            ready@.len(),
                            |j: int| (start + j) as usize,
                        ));
                        assert forall|i2: int|
                            0 <= i2 < self.pending@.len() implies self.next <= (
                            #[trigger] self.pending@[i2]).0 by {
                            let i0 = if i2 < i { i2 } else { i2 + 1 };
                            assert(self.pending@[i2] == p[i0]);
                            assert(p[i0].0 != p[i as int].0);
                        }
                    }
                },
                None => {
                    break;
                },
            }
        }
        self.arrived = Ghost(before.arrived@.insert(index));
        proof {
            assert(self.released@ =~= indices_below(self.next as int));
            assert forall|k: usize|
                #[trigger] self.arrived@.contains(k) <==> (k < self.next || slot_of(
                    self.pending@,
                    k,
                ) is Some) by {
                if start <= k < self.next {
                    let j = k - start;
                    assert(expected((start + j) as usize) == Some(ready@[j]));
                    assert((start + j) as usize == k);
                }
            }
        }
        ready
    }
}

/// Blocks leave in index order: whatever order they arrive in, the blocks
/// released so far are exactly blocks `0, 1, ...` up to the next index, in
/// that order.
pub proof fn law_released_in_block_order<T>(b: ReorderBuffer<T>)
    requires
        b.wf(),
    ensures
        b.released() == indices_below(b.next_index()),
{
}

/// Nothing is held back for long: once blocks `0 .. n` have all arrived, in
/// whatever order, all of them have been released, in index order.
pub proof fn law_arrived_prefix_is_released<T>(b: ReorderBuffer<T>, n: usize)
    requires
        b.wf(),
        forall|k: usize| k < n ==> #[trigger] b.arrived().contains(k),
    ensures
        b.next_index() >= n,
        b.released().take(n as int) == indices_below(n as int),
{
    if b.next_index() < n {
        let k = b.next;
        assert(b.arrived().contains(k));
        assert(slot_of(b.pending@, k) is Some);
        let i = choose|i: int| 0 <= i < b.pending@.len() && (#[trigger] b.pending@[i]).0 == k;
        assert(b.pending@[i].0 > b.next);
    }
    assert(b.released().take(n as int) =~= indices_below(n as int));
}

} // verus!
