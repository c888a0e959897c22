//! Ordered parallel sources: exclusive `usize` ranges, borrowed slices and
//! element-aligned slice chunks. Each knows its exact length and splits at
//! an item index into two sources that, read one after the other, yield
//! exactly the items of the whole, in order.

use vstd::prelude::*;
use std::ops::Range;

verus! {

/// Sources longer than this are split in two when a pool can run the
/// halves in parallel.
pub const MIN_CHUNK_SIZE: usize = 512;

/// Where a source of `len` items is split before running: in the middle,
/// when it is longer than [`MIN_CHUNK_SIZE`] and the caller is a pool worker;
/// otherwise it runs sequentially (`None`).
pub fn split_point(len: usize, on_worker: bool) -> (r: Option<usize>)
    ensures
        r == if len > MIN_CHUNK_SIZE && on_worker { Some(len / 2) } else { None::<usize> },
        r matches Some(mid) ==> 0 < mid < len,
{
    if len > MIN_CHUNK_SIZE && on_worker {
        Some(len / 2)
    } else {
        None
    }
}

/// A reduction's partial result after one more item: the item itself when
/// nothing was accumulated, else `operation(acc, item)`.
pub fn reduce_step<T, F: Fn(T, T) -> T>(operation: &F, acc: Option<T>, item: T) -> (r: Option<T>)
    requires
        forall|a: T, b: T| call_requires(*operation, (a, b)),
    ensures
        match acc {
            None => r == Some(item),
            Some(a) => r matches Some(x) && call_ensures(*operation, (a, item), x),
        },
{
    match acc {
        None => Some(item),
        Some(a) => Some(operation(a, item)),
    }
}

/// Two partial results of a reduction, left part first: `operation(a, b)`
/// when both parts had items, the one that had items otherwise, and `None`
/// for two empty parts.
pub fn merge_reduced<T, F: Fn(T, T) -> T>(operation: &F, left: Option<T>, right: Option<T>) -> (r: Option<T>)
    requires
        forall|a: T, b: T| call_requires(*operation, (a, b)),
    ensures
        match (left, right) {
            (Some(a), Some(b)) => r matches Some(x) && call_ensures(*operation, (a, b), x),
            (Some(a), None) => r == Some(a),
            (None, Some(b)) => r == Some(b),
            (None, None) => r is None,
        },
{
    match (left, right) {
        (Some(a), Some(b)) => Some(operation(a, b)),
        (a, None) => a,
        (None, b) => b,
    }
}

/// Two partial collections, left part first: the left items followed by
/// the right items.
pub fn collect_combine<T>(left: Vec<T>, right: Vec<T>) -> (r: Vec<T>)
    ensures
        r@ == left@ + right@,
{
    let mut r = left;
    let mut rest = right;
    r.append(&mut rest);
    r
}

/// Two partial folds, left part first: `combine(left, right)`.
pub fn fold_combine<A, G: Fn(A, A) -> A>(combine: &G, left: A, right: A) -> (r: A)
    requires
        call_requires(*combine, (left, right)),
    ensures
        call_ensures(*combine, (left, right), r),
{
    combine(left, right)
}

/// The destination of a `fill`: the slice to write and the position the
/// next item goes to.
pub struct FillTarget<'a, T> {
    output: &'a mut [T],
    index: usize,
}

impl<'a, T> FillTarget<'a, T> {
    /// The destination's contents.
    pub closed spec fn contents(&self) -> Seq<T> {
        self.output@
    }

    /// The position of the next item.
    pub closed spec fn spec_index(&self) -> usize {
        self.index
    }

    /// A destination whose next item goes to position 0.
    pub fn new(output: &'a mut [T]) -> (r: Self)
        ensures
            r.contents() == old(output)@,
            r.spec_index() == 0,
    {
        FillTarget { output, index: 0 }
    }

    /// The number of positions.
    pub fn len(&self) -> (r: usize)
        ensures
            r == self.contents().len(),
    {
        self.output.len()
    }

    /// The position of the next item.
    pub fn index(&self) -> (r: usize)
        ensures
            r == self.spec_index(),
    {
        self.index
    }

    /// Writes `item` at the next position and moves past it.
    pub fn put(&mut self, item: T)
        requires
            old(self).spec_index() < old(self).contents().len(),
        ensures
            final(self).contents() == old(self).contents().update(old(self).spec_index() as int, item),
            final(self).spec_index() == old(self).spec_index() + 1,
    {
        let i = self.index;
        self.output[i] = item;
        self.index = i + 1;
    }

    /// The first `index` positions and the rest, each starting at its own
    /// first position.
    pub fn split_at(self, index: usize) -> (r: (Self, Self))
        requires
            index <= self.contents().len(),
        ensures
            r.0.contents() == self.contents().take(index as int),
            r.1.contents() == self.contents().skip(index as int),
            r.0.spec_index() == 0,
            r.1.spec_index() == 0,
    {
        let (left, right) = self.output.split_at_mut(index);
        (FillTarget { output: left, index: 0 }, FillTarget { output: right, index: 0 })
    }
}

/// The index that an enumerating consumer gives its next item.
pub struct EnumerateIndex {
    next: usize,
}

impl EnumerateIndex {
    /// The index of the next item.
    pub closed spec fn spec_next(&self) -> usize {
        self.next
    }

    /// Numbering that starts at `start`.
    pub fn new(start: usize) -> (r: Self)
        ensures
            r.spec_next() == start,
    {
        EnumerateIndex { next: start }
    }

    /// Returns the next item's index and moves past it.
    pub fn take(&mut self) -> (r: usize)
        requires
            old(self).spec_next() < usize::MAX,
        ensures
            r == old(self).spec_next(),
            final(self).spec_next() == old(self).spec_next() + 1,
    {
        let r = self.next;
        self.next = self.next + 1;
        r
    }

    /// Returns the next item's index.
    pub fn next(&self) -> (r: usize)
        ensures
            r == self.spec_next(),
    {
        self.next
    }

    /// Numbering for the first `index` items and for the rest: the right
    /// part starts `index` further.
    pub fn split_at(self, index: usize) -> (r: (Self, Self))
        requires
            self.spec_next() + index <= usize::MAX,
        ensures
            r.0.spec_next() == self.spec_next(),
            r.1.spec_next() == self.spec_next() + index,
    {
        (EnumerateIndex { next: self.next }, EnumerateIndex { next: self.next + index })
    }
}

/// Parallel source over an exclusive `usize` range.
pub struct RangeIter {
    range: Range<usize>,
}

/// The items of the range `start..end`: none when `end <= start`.
pub open spec fn range_items(start: usize, end: usize) -> Seq<usize> {
    Seq::new(if end >= start { (end - start) as nat } else { 0 }, |i: int| (start + i) as usize)
}

impl RangeIter {
    /// The first value of the range.
    pub closed spec fn spec_start(&self) -> usize {
        self.range.start
    }

    /// The end (excluded) of the range.
    pub closed spec fn spec_end(&self) -> usize {
        self.range.end
    }

    /// The values the source yields, in order.
    pub open spec fn items(&self) -> Seq<usize> {
        range_items(self.spec_start(), self.spec_end())
    }

    /// A source over `range`.
    pub fn new(range: Range<usize>) -> (r: Self)
        ensures
            r.spec_start() == range.start,
            r.spec_end() == range.end,
    {
        RangeIter { range }
    }

    /// The range itself.
    pub fn range(&self) -> (r: Range<usize>)
        ensures
            r.start == self.spec_start(),
            r.end == self.spec_end(),
    {
        Range { start: self.range.start, end: self.range.end }
    }

    /// The exact number of values: `end - start`, or zero for an empty or
    /// reversed range.
    pub fn len(&self) -> (r: usize)
        ensures
            r == self.items().len(),
    {
        self.range.end.saturating_sub(self.range.start)
    }

    /// Whether the source yields nothing.
    pub fn is_empty(&self) -> (r: bool)
        ensures
            r == (self.items().len() == 0),
    {
        self.len() == 0
    }

    /// The first `index` values and the rest.
    pub fn split_at(self, index: usize) -> (r: (Self, Self))
        requires
            index <= self.items().len(),
        ensures
            r.0.items() == self.items().take(index as int),
            r.1.items() == self.items().skip(index as int),
            r.0.items() + r.1.items() == self.items(),
    {
        let start = self.range.start;
        let end = if self.range.end > start { self.range.end } else { start };
        let mid = start + index;
        let left = RangeIter::new(Range { start, end: mid });
        let right = RangeIter::new(Range { start: mid, end });
        proof {
            assert(left.items() =~= self.items().take(index as int));
            assert(right.items() =~= self.items().skip(index as int));
            assert(left.items() + right.items() =~= self.items());
        }
        (left, right)
    }
}

/// Parallel source over a borrowed slice.
pub struct SliceIter<'a, T> {
    slice: &'a [T],
}

impl<'a, T> SliceIter<'a, T> {
    /// The items, in order.
    pub closed spec fn items(&self) -> Seq<T> {
        self.slice@
    }

    /// A source over `slice`, without copying elements.
    pub fn new(slice: &'a [T]) -> (r: Self)
        ensures
            r.items() == slice@,
    {
        SliceIter { slice }
    }

    /// The borrowed slice.
    pub fn as_slice(&self) -> (r: &'a [T])
        ensures
            r@ == self.items(),
    {
        self.slice
    }

    /// The exact number of items.
    pub fn len(&self) -> (r: usize)
        ensures
            r == self.items().len(),
    {
        self.slice.len()
    }

    /// The first `index` items and the rest.
    pub fn split_at(self, index: usize) -> (r: (Self, Self))
        requires
            index <= self.items().len(),
        ensures
            r.0.items() == self.items().take(index as int),
            r.1.items() == self.items().skip(index as int),
            r.0.items() + r.1.items() == self.items(),
    {
        let (left, right) = self.slice.split_at(index);
        proof {
            assert(left@ + right@ =~= self.slice@);
        }
        (SliceIter::new(left), SliceIter::new(right))
    }
}

/// Parallel source over an exclusively borrowed slice, whose parts are
/// disjoint.
pub struct SliceIterMut<'a, T> {
    slice: &'a mut [T],
}

impl<'a, T> SliceIterMut<'a, T> {
    /// The items, in order.
    pub closed spec fn items(&self) -> Seq<T> {
        self.slice@
    }

    /// A source borrowing all elements of `slice` exclusively.
    pub fn new(slice: &'a mut [T]) -> (r: Self)
        ensures
            r.items() == old(slice)@,
    {
        SliceIterMut { slice }
    }

    /// The exact number of items.
    pub fn len(&self) -> (r: usize)
        ensures
            r == self.items().len(),
    {
        self.slice.len()
    }

    /// The borrowed slice.
    pub fn into_slice(self) -> (r: &'a mut [T])
        ensures
            r@ == self.items(),
    {
        self.slice
    }

    /// The first `index` items and the rest, as disjoint sources.
    pub fn split_at(self, index: usize) -> (r: (Self, Self))
        requires
            index <= self.items().len(),
        ensures
            r.0.items() == self.items().take(index as int),
            r.1.items() == self.items().skip(index as int),
    {
        let (left, right) = self.slice.split_at_mut(index);
        (SliceIterMut { slice: left }, SliceIterMut { slice: right })
    }
}

/// The number of chunks of `size` items that `n` items make, the last one
/// possibly short.
pub open spec fn chunk_count(n: nat, size: nat) -> nat
    recommends
        size > 0,
{
    if n % size == 0 {
        n / size
    } else {
        n / size + 1
    }
}

/// Splitting `n` items after `index` chunks of `size` (or at the end, when
/// that is past it) leaves `index` chunks on the left and the rest on the
/// right.
pub proof fn lemma_chunk_split(n: nat, size: nat, index: nat)
    requires
        size > 0,
        index <= chunk_count(n, size),
    ensures
        ({
            let m: nat = if index * size <= n { index * size } else { n };
            &&& chunk_count(m, size) == index
            &&& chunk_count((n - m) as nat, size) == chunk_count(n, size) - index
        }),
{
    let q = (n / size) as int;
    let r = (n % size) as int;
    vstd::arithmetic::div_mod::lemma_fundamental_div_mod(n as int, size as int);
    assert(n == q * size + r);
    if index * size <= n {
        vstd::arithmetic::div_mod::lemma_fundamental_div_mod_converse((index * size) as int, size as int, index as int, 0);
        assert(index <= q) by (nonlinear_arith)
            requires
                index * size <= q * size + r,
                0 <= r < size,
        ;
        assert(n - index * size == (q - index) * size + r) by (nonlinear_arith)
            requires
                n == q * size + r,
        ;
        vstd::arithmetic::div_mod::lemma_fundamental_div_mod_converse(n - index * size, size as int, q - index, r);
    } else {
        let cc = if r == 0 { q } else { q + 1 };
        assert(chunk_count(n, size) == cc);
        assert(index == cc) by (nonlinear_arith)
            requires
                index * size > q * size + r,
                0 <= r < size,
                index <= cc,
                cc == if r == 0 { q } else { q + 1 },
        ;
        vstd::arithmetic::div_mod::lemma_fundamental_div_mod_converse(0, size as int, 0, 0);
    }
}

/// Chunk `i` of `n` items in chunks of `size` starts within the items.
proof fn lemma_chunk_start(n: nat, size: nat, i: nat)
    requires
        size > 0,
        i < chunk_count(n, size),
    ensures
        i * size < n,
{
    let q = (n / size) as int;
    let r = (n % size) as int;
    vstd::arithmetic::div_mod::lemma_fundamental_div_mod(n as int, size as int);
    let cc = if r == 0 { q } else { q + 1 };
    assert(chunk_count(n, size) == cc);
    assert(i * size < n) by (nonlinear_arith)
        requires
            n == q * size + r,
            0 <= r < size,
            i < cc,
            cc == if r == 0 { q } else { q + 1 },
            size > 0,
            i >= 0,
    ;
}

/// The items of chunk `i` of `items` in chunks of `size`: from
/// `i * size` up to `(i + 1) * size`, or to the end for a short last
/// chunk.
pub open spec fn chunk_items<T>(items: Seq<T>, size: nat, i: nat) -> Seq<T> {
    let start = i * size;
    let end: int = if (i + 1) * size <= items.len() { ((i + 1) * size) as int } else { items.len() as int };
    items.subrange(start as int, end as int)
}

/// Slice chunks split only at chunk boundaries; the final chunk may be
/// short. This promises no hardware SIMD alignment.
pub struct ChunksAligned<'a, T> {
    slice: &'a [T],
    chunk_size: usize,
}

impl<'a, T> ChunksAligned<'a, T> {
    /// The elements covered, in order.
    pub closed spec fn elements(&self) -> Seq<T> {
        self.slice@
    }

    /// The number of elements per chunk.
    pub closed spec fn spec_chunk_size(&self) -> usize {
        self.chunk_size
    }

    /// The number of chunks.
    pub open spec fn chunks(&self) -> nat {
        chunk_count(self.elements().len(), self.spec_chunk_size() as nat)
    }

    /// Chunks of `chunk_size` elements of `slice`.
    pub fn new(slice: &'a [T], chunk_size: usize) -> (r: Self)
        requires
            chunk_size > 0,
        ensures
            r.elements() == slice@,
            r.spec_chunk_size() == chunk_size,
    {
        ChunksAligned { slice, chunk_size }
    }

    /// The borrowed slice.
    pub fn as_slice(&self) -> (r: &'a [T])
        ensures
            r@ == self.elements(),
    {
        self.slice
    }

    /// The number of elements per chunk.
    pub fn chunk_size(&self) -> (r: usize)
        ensures
            r == self.spec_chunk_size(),
    {
        self.chunk_size
    }

    /// The exact number of chunks, counting a final short one.
    pub fn len(&self) -> (r: usize)
        requires
            self.spec_chunk_size() > 0,
        ensures
            r == self.chunks(),
    {
        let n = self.slice.len();
        let c = self.chunk_size;
        if n % c == 0 {
            n / c
        } else {
            proof {
                vstd::arithmetic::div_mod::lemma_fundamental_div_mod(n as int, c as int);
                assert(n / c < n) by (nonlinear_arith)
                    requires
                        n % c != 0,
                        c > 0,
                        n == c * (n / c) + n % c,
                        0 <= n % c < c,
                ;
            }
            n / c + 1
        }
    }

    /// Chunk `i`: elements `i * chunk_size` up to `(i + 1) * chunk_size`,
    /// or to the end for the final short chunk.
    pub fn chunk(&self, i: usize) -> (r: &'a [T])
        requires
            self.spec_chunk_size() > 0,
            i < self.chunks(),
        ensures
            r@ == chunk_items(self.elements(), self.spec_chunk_size() as nat, i as nat),
    {
        let n = self.slice.len();
        let size = self.chunk_size;
        proof {
            lemma_chunk_start(n as nat, size as nat, i as nat);
            assert((i + 1) * size == i * size + size) by (nonlinear_arith);
        }
        let start = i * size;
        let rest_len = n - start;
        let len = if rest_len < size { rest_len } else { size };
        let (_, rest) = self.slice.split_at(start);
        let (c, _) = rest.split_at(len);
        proof {
            assert(c@ =~= chunk_items(self.slice@, size as nat, i as nat));
        }
        c
    }

    /// The first `index` chunks and the rest: the split falls at element
    /// `index * chunk_size`, or at the end when that is past it.
    pub fn split_at(self, index: usize) -> (r: (Self, Self))
        requires
            self.spec_chunk_size() > 0,
            index <= self.chunks(),
        ensures
            r.0.spec_chunk_size() == self.spec_chunk_size(),
            r.1.spec_chunk_size() == self.spec_chunk_size(),
            r.0.elements() + r.1.elements() == self.elements(),
            r.0.elements().len() == if index * self.spec_chunk_size() <= self.elements().len() {
                index * self.spec_chunk_size()
            } else {
                self.elements().len() as int
            },
            r.0.chunks() == index,
            r.1.chunks() == self.chunks() - index,
    {
        proof {
            lemma_chunk_split(self.slice@.len(), self.chunk_size as nat, index as nat);
        }
        let offset = {
            let product = index.checked_mul(self.chunk_size);
            match product {
                Some(p) => if p < self.slice.len() { p } else { self.slice.len() },
                None => self.slice.len(),
            }
        };
        let (left, right) = self.slice.split_at(offset);
        proof {
            assert(left@ + right@ =~= self.slice@);
        }
        (ChunksAligned::new(left, self.chunk_size), ChunksAligned::new(right, self.chunk_size))
    }
}

/// Parallel iteration over shared slices.
pub trait ParallelSlice<T> {
    /// The elements, in order.
    spec fn elements(&self) -> Seq<T>;

    /// Iterates by shared reference.
    fn iter_parallel(&self) -> (r: SliceIter<'_, T>)
        ensures
            r.items() == self.elements(),
    ;

    /// Iterates over chunks of `chunk_size` elements, including a final
    /// short chunk. Chunk boundaries count elements, not memory addresses.
    fn chunks_parallel(&self, chunk_size: usize) -> (r: ChunksAligned<'_, T>)
        requires
            chunk_size > 0,
        ensures
            r.elements() == self.elements(),
            r.spec_chunk_size() == chunk_size,
    ;

    /// Another name for [`Self::chunks_parallel`].
    fn chunk_aligned(&self, chunk_size: usize) -> (r: ChunksAligned<'_, T>)
        requires
            chunk_size > 0,
        ensures
            r.elements() == self.elements(),
            r.spec_chunk_size() == chunk_size,
    ;
}

impl<T> ParallelSlice<T> for [T] {
    open spec fn elements(&self) -> Seq<T> {
        self@
    }

    fn iter_parallel(&self) -> (r: SliceIter<'_, T>) {
        SliceIter::new(self)
    }

    fn chunks_parallel(&self, chunk_size: usize) -> (r: ChunksAligned<'_, T>) {
        ChunksAligned::new(self, chunk_size)
    }

    fn chunk_aligned(&self, chunk_size: usize) -> (r: ChunksAligned<'_, T>) {
        self.chunks_parallel(chunk_size)
    }
}

/// Parallel mutable access to disjoint slice elements.
pub trait ParallelSliceMut<T> {
    /// The elements, in order.
    spec fn elements_mut(&self) -> Seq<T>;

    /// Iterates by exclusive reference.
    fn iter_parallel_mut(&mut self) -> (r: SliceIterMut<'_, T>)
        ensures
            r.items() == old(self).elements_mut(),
    ;
}

impl<T> ParallelSliceMut<T> for [T] {
    open spec fn elements_mut(&self) -> Seq<T> {
        self@
    }

    fn iter_parallel_mut(&mut self) -> (r: SliceIterMut<'_, T>) {
        SliceIterMut::new(self)
    }
}

} // verus!
