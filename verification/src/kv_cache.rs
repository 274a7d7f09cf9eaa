//! Keys and values of past tokens.

use crate::quant::lemma_row_major;
use vstd::prelude::*;
use vstd::slice::slice_subrange;

verus! {

/// `old_items` with `new_items` laid over it from place `at` on.
pub open spec fn overlaid<T>(old_items: Seq<T>, at: int, new_items: Seq<T>) -> Seq<T> {
    Seq::new(
        old_items.len(),
        |i: int|
            if at <= i < at + new_items.len() {
                new_items[i - at]
            } else {
                old_items[i]
            },
    )
}

pub fn overlay<T: Copy>(items: &mut Vec<T>, at: usize, new_items: &[T])
    requires
        at + new_items@.len() <= old(items)@.len(),
    ensures
        final(items)@ == overlaid(old(items)@, at as int, new_items@),
{
    let mut index: usize = 0;
    assert(items@ =~= overlaid(old(items)@, at as int, new_items@.take(0)));
    while index < new_items.len()
        invariant
            index <= new_items@.len(),
            at + new_items@.len() <= items@.len(),
            items@ == overlaid(old(items)@, at as int, new_items@.take(index as int)),
        decreases new_items@.len() - index,
    {
        assert(items@.len() == items.len());
        items.set(at + index, new_items[index]);
        index = index + 1;
        assert(items@ =~= overlaid(old(items)@, at as int, new_items@.take(index as int)));
    }
    assert(new_items@.take(index as int) =~= new_items@);
}

/// Where a row stands: from its first number to behind its last.
#[derive(Debug, Clone, Copy, PartialEq, Eq, Structural)]
pub struct RowSpan {
    pub start: usize,
    pub end: usize,
}

/// The place of a row among rows of some width.
pub open spec fn row_of(row: int, width: int) -> RowSpan {
    RowSpan { start: (row * width) as usize, end: (row * width + width) as usize }
}

pub fn row_span(row: usize, width: usize) -> (span: RowSpan)
    requires
        (row + 1) * width <= usize::MAX,
    ensures
        span == row_of(row as int, width as int),
        span.start == row * width,
        span.end == row * width + width,
{
    proof {
        assert((row + 1) * width == row * width + width && 0 <= row * width) by (nonlinear_arith)
            requires
                0 <= row,
                0 <= width,
        ;
    }
    let start: usize = row * width;
    RowSpan { start, end: start + width }
}

/// The keys and values of a layer, as bit patterns of 32-bit floats. Position
/// after position, head after head.
#[derive(Debug)]
pub struct KvCache {
    max_seq: usize,
    kv_heads: usize,
    head_dim: usize,
    keys: Vec<u32>,
    values: Vec<u32>,
}

/// The mathematical value of a `KvCache`.
#[verifier::ext_equal]
pub struct CacheImage {
    pub max_seq: nat,
    pub kv_heads: nat,
    pub head_dim: nat,
    pub keys: Seq<u32>,
    pub values: Seq<u32>,
}

impl CacheImage {
    /// The width of one position.
    pub open spec fn width(self) -> nat {
        self.kv_heads * self.head_dim
    }

    /// Both stores hold `max_seq` positions.
    pub open spec fn wf(self) -> bool {
        &&& self.keys.len() == self.max_seq * self.width()
        &&& self.values.len() == self.max_seq * self.width()
    }

    /// The place of one number.
    pub open spec fn place(self, position: int, kv_head: int, dim: int) -> int {
        (position * self.kv_heads + kv_head) * self.head_dim + dim
    }

    pub open spec fn key(self, position: int, kv_head: int, dim: int) -> u32 {
        self.keys[self.place(position, kv_head, dim)]
    }

    pub open spec fn value(self, position: int, kv_head: int, dim: int) -> u32 {
        self.values[self.place(position, kv_head, dim)]
    }

    /// The numbers exist.
    pub open spec fn holds(self, position: int, kv_head: int, dim: int) -> bool {
        &&& 0 <= position < self.max_seq
        &&& 0 <= kv_head < self.kv_heads
        &&& 0 <= dim < self.head_dim
    }

    /// The cache with the key and the value of a position written.
    pub open spec fn written(self, position: int, key: Seq<u32>, value: Seq<u32>) -> CacheImage {
        CacheImage {
            keys: overlaid(self.keys, position * self.width(), key),
            values: overlaid(self.values, position * self.width(), value),
            ..self
        }
    }

    /// The cache with the first rows of keys and values written, at one
    /// position after the other.
    pub open spec fn rows_written(
        self,
        start: int,
        keys: Seq<u32>,
        values: Seq<u32>,
        count: int,
    ) -> CacheImage
        decreases count,
    {
        if count <= 0 {
            self
        } else {
            let from = (count - 1) * self.width();
            self.rows_written(start, keys, values, count - 1).written(
                start + count - 1,
                keys.subrange(from, from + self.width()),
                values.subrange(from, from + self.width()),
            )
        }
    }
}

impl View for KvCache {
    type V = CacheImage;

    closed spec fn view(&self) -> CacheImage {
        CacheImage {
            max_seq: self.max_seq as nat,
            kv_heads: self.kv_heads as nat,
            head_dim: self.head_dim as nat,
            keys: self.keys@,
            values: self.values@,
        }
    }
}

/// A place within a position lies within the whole.
pub proof fn lemma_place(cache: CacheImage, position: int, kv_head: int, dim: int)
    requires
        cache.holds(position, kv_head, dim),
    ensures
        cache.place(position, kv_head, dim) == position * cache.width() + (kv_head * cache.head_dim
            + dim),
        0 <= kv_head * cache.head_dim + dim < cache.width(),
        0 <= position * cache.width(),
        0 <= cache.place(position, kv_head, dim) < cache.max_seq * cache.width(),
        0 <= position * cache.kv_heads + kv_head < cache.max_seq * cache.kv_heads,
        0 <= (position * cache.kv_heads + kv_head) * cache.head_dim,
{
    let heads = cache.kv_heads as int;
    let size = cache.head_dim as int;
    lemma_row_major(cache.kv_heads as int, size, kv_head, dim);
    lemma_row_major(
        cache.max_seq as int,
        cache.width() as int,
        position,
        kv_head * size + dim,
    );
    lemma_row_major(cache.max_seq as int, heads, position, kv_head);
    assert((position * heads + kv_head) * size == position * (heads * size) + kv_head * size)
        by (nonlinear_arith);
    assert(0 <= (position * heads + kv_head) * size) by (nonlinear_arith)
        requires
            0 <= position * heads + kv_head,
            0 <= size,
    ;
}

/// A position's numbers stand in the row of that position.
pub proof fn row_holds_its_places(cache: CacheImage, position: int, kv_head: int, dim: int)
    requires
        cache.holds(position, kv_head, dim),
        (position + 1) * cache.width() <= usize::MAX,
    ensures
        row_of(position, cache.width() as int).start <= cache.place(position, kv_head, dim)
            < row_of(position, cache.width() as int).end,
{
    lemma_place(cache, position, kv_head, dim);
    let width = cache.width() as int;
    assert((position + 1) * width == position * width + width) by (nonlinear_arith);
}

/// What was written at a position is read there.
pub proof fn written_reads_back(
    cache: CacheImage,
    position: int,
    key: Seq<u32>,
    value: Seq<u32>,
    kv_head: int,
    dim: int,
)
    requires
        cache.wf(),
        cache.holds(position, kv_head, dim),
        key.len() == cache.width(),
        value.len() == cache.width(),
    ensures
        cache.written(position, key, value).wf(),
        cache.written(position, key, value).key(position, kv_head, dim) == key[kv_head
            * cache.head_dim + dim],
        cache.written(position, key, value).value(position, kv_head, dim) == value[kv_head
            * cache.head_dim + dim],
{
    lemma_place(cache, position, kv_head, dim);
    lemma_place(cache.written(position, key, value), position, kv_head, dim);
}

/// Writing at one position leaves what is read at the others.
pub proof fn written_keeps_others(
    cache: CacheImage,
    position: int,
    key: Seq<u32>,
    value: Seq<u32>,
    other: int,
    kv_head: int,
    dim: int,
)
    requires
        cache.wf(),
        0 <= position < cache.max_seq,
        cache.holds(other, kv_head, dim),
        other != position,
        key.len() == cache.width(),
        value.len() == cache.width(),
    ensures
        cache.written(position, key, value).key(other, kv_head, dim) == cache.key(
            other,
            kv_head,
            dim,
        ),
        cache.written(position, key, value).value(other, kv_head, dim) == cache.value(
            other,
            kv_head,
            dim,
        ),
{
    lemma_place(cache, other, kv_head, dim);
    lemma_place(cache.written(position, key, value), other, kv_head, dim);
    let width = cache.width() as int;
    if other < position {
        assert(other * width + width <= position * width) by (nonlinear_arith)
            requires
                other < position,
                0 <= width,
        ;
    } else {
        assert(position * width + width <= other * width) by (nonlinear_arith)
            requires
                position < other,
                0 <= width,
        ;
    }
}

/// A row within the rows.
proof fn lemma_row(rows: int, width: int, row: int)
    requires
        0 <= row < rows,
        0 <= width,
    ensures
        0 <= row * width,
        row * width + width <= rows * width,
{
    assert(0 <= row * width && row * width + width <= rows * width) by (nonlinear_arith)
        requires
            0 <= row < rows,
            0 <= width,
    ;
}

/// Rows that were written one after the other are read at their positions.
/// All other positions read as before.
pub proof fn rows_read_back(
    cache: CacheImage,
    start: int,
    keys: Seq<u32>,
    values: Seq<u32>,
    count: int,
    position: int,
    kv_head: int,
    dim: int,
)
    requires
        cache.wf(),
        0 <= start,
        0 <= count,
        start + count <= cache.max_seq,
        keys.len() >= count * cache.width(),
        values.len() >= count * cache.width(),
        cache.holds(position, kv_head, dim),
    ensures
        cache.rows_written(start, keys, values, count).wf(),
        ({
            let written = cache.rows_written(start, keys, values, count);
            let at = (position - start) * cache.width() + (kv_head * cache.head_dim + dim);
            if start <= position < start + count {
                &&& written.key(position, kv_head, dim) == keys[at]
                &&& written.value(position, kv_head, dim) == values[at]
            } else {
                &&& written.key(position, kv_head, dim) == cache.key(position, kv_head, dim)
                &&& written.value(position, kv_head, dim) == cache.value(position, kv_head, dim)
            }
        }),
    decreases count,
{
    if count > 0 {
        let row = count - 1;
        let width = cache.width() as int;
        lemma_row(count, width, row);
        rows_read_back(cache, start, keys, values, row, position, kv_head, dim);
        let before = cache.rows_written(start, keys, values, row);
        lemma_rows_shape(cache, start, keys, values, row);
        let from = row * width;
        let key = keys.subrange(from, from + width);
        let value = values.subrange(from, from + width);
        if position == start + row {
            lemma_place(cache, position, kv_head, dim);
            written_reads_back(before, position, key, value, kv_head, dim);
        } else {
            written_keeps_others(before, start + row, key, value, position, kv_head, dim);
            written_reads_back(before, start + row, key, value, kv_head, dim);
        }
    }
}

proof fn lemma_rows_shape(
    cache: CacheImage,
    start: int,
    keys: Seq<u32>,
    values: Seq<u32>,
    count: int,
)
    ensures
        cache.rows_written(start, keys, values, count).max_seq == cache.max_seq,
        cache.rows_written(start, keys, values, count).kv_heads == cache.kv_heads,
        cache.rows_written(start, keys, values, count).head_dim == cache.head_dim,
    decreases count,
{
    if count > 0 {
        lemma_rows_shape(cache, start, keys, values, count - 1);
    }
}

impl KvCache {
    /// A cache of zeros.
    pub fn new(max_seq: usize, kv_heads: usize, head_dim: usize) -> (cache: Self)
        requires
            max_seq * kv_heads <= usize::MAX,
            max_seq * kv_heads * head_dim <= usize::MAX,
        ensures
            cache@.wf(),
            cache@.max_seq == max_seq,
            cache@.kv_heads == kv_heads,
            cache@.head_dim == head_dim,
            forall|i: int| 0 <= i < cache@.keys.len() ==> #[trigger] cache@.keys[i] == 0,
            forall|i: int| 0 <= i < cache@.values.len() ==> #[trigger] cache@.values[i] == 0,
    {
        let len: usize = max_seq * kv_heads * head_dim;
        proof {
            assert(max_seq * kv_heads * head_dim == max_seq * (kv_heads * head_dim))
                by (nonlinear_arith);
        }
        KvCache { max_seq, kv_heads, head_dim, keys: vec![0u32; len], values: vec![0u32; len] }
    }

    /// Writes the key and the value of a position.
    pub fn write(&mut self, position: usize, key: &[u32], value: &[u32])
        requires
            old(self)@.wf(),
            position < old(self)@.max_seq,
            key@.len() == old(self)@.width(),
            value@.len() == old(self)@.width(),
        ensures
            final(self)@.wf(),
            final(self)@ == old(self)@.written(position as int, key@, value@),
    {
        proof {
            let width = self@.width() as int;
            assert(self.keys@.len() == self.keys.len());
            assert(position * width + width <= self@.max_seq * width && 0 <= position * width)
                by (nonlinear_arith)
                requires
                    0 <= position < self@.max_seq,
                    0 <= width,
            ;
            if self.head_dim == 0 {
                assert(self@.width() == 0) by (nonlinear_arith)
                    requires
                        self@.head_dim == 0,
                        self@.width() == self@.kv_heads * self@.head_dim,
                ;
            }
            assert(position * (self.kv_heads * self.head_dim) == position * self.kv_heads
                * self.head_dim) by (nonlinear_arith);
        }
        let width: usize = key.len();
        assert(position * width == position * self@.width());
        let offset: usize = position * width;
        overlay(&mut self.keys, offset, key);
        overlay(&mut self.values, offset, value);
    }

    /// Writes the keys and the values of positions that follow each other.
    pub fn write_rows(&mut self, start: usize, keys: &[u32], values: &[u32], count: usize)
        requires
            old(self)@.wf(),
            count == 0 || start + count <= old(self)@.max_seq,
            keys@.len() == count * old(self)@.width(),
            values@.len() == count * old(self)@.width(),
        ensures
            final(self)@.wf(),
            final(self)@ == old(self)@.rows_written(start as int, keys@, values@, count as int),
    {
        let ghost before = self@;
        let ghost width = self@.width() as int;
        let mut row: usize = 0;
        while row < count
            invariant
                row <= count,
                self@.wf(),
                before.wf(),
                width == before.width(),
                0 <= width,
                count == 0 || start + count <= before.max_seq,
                before.max_seq <= usize::MAX,
                keys@.len() == count * width,
                keys@.len() == keys.len(),
                values@.len() == count * width,
                self@.max_seq == before.max_seq,
                self@.kv_heads == before.kv_heads,
                self@.head_dim == before.head_dim,
                self@ == before.rows_written(start as int, keys@, values@, row as int),
            decreases count - row,
        {
            proof {
                lemma_row(count as int, width, row as int);
                lemma_row(1 + row as int, width, row as int);
            }
            let width: usize = keys.len() / count;
            assert(width == before.width()) by {
                vstd::arithmetic::div_mod::lemma_div_multiples_vanish(
                    before.width() as int,
                    count as int,
                );
            }
            let from: usize = row * width;
            self.write(
                start + row,
                slice_subrange(keys, from, from + width),
                slice_subrange(values, from, from + width),
            );
            row = row + 1;
        }
    }

    pub fn key(&self, position: usize, kv_head: usize, dim: usize) -> (bits: u32)
        requires
            self@.wf(),
            self@.holds(position as int, kv_head as int, dim as int),
        ensures
            bits == self@.key(position as int, kv_head as int, dim as int),
    {
        proof {
            self.lemma_index(position, kv_head, dim);
        }
        self.keys[(position * self.kv_heads + kv_head) * self.head_dim + dim]
    }

    pub fn value(&self, position: usize, kv_head: usize, dim: usize) -> (bits: u32)
        requires
            self@.wf(),
            self@.holds(position as int, kv_head as int, dim as int),
        ensures
            bits == self@.value(position as int, kv_head as int, dim as int),
    {
        proof {
            self.lemma_index(position, kv_head, dim);
        }
        self.values[(position * self.kv_heads + kv_head) * self.head_dim + dim]
    }

    /// The index can be computed.
    proof fn lemma_index(&self, position: usize, kv_head: usize, dim: usize)
        requires
            self@.wf(),
            self@.holds(position as int, kv_head as int, dim as int),
        ensures
            0 <= position * self.kv_heads <= usize::MAX,
            position * self.kv_heads + kv_head <= usize::MAX,
            0 <= (position * self.kv_heads + kv_head) * self.head_dim <= usize::MAX,
            (position * self.kv_heads + kv_head) * self.head_dim + dim < self.keys@.len(),
            self.keys@.len() == self.values@.len() <= usize::MAX,
    {
        assert(self.keys@.len() == self.keys.len());
        let row = position * self.kv_heads + kv_head;
        lemma_place(self@, position as int, kv_head as int, dim as int);
        assert(row <= row * self.head_dim) by (nonlinear_arith)
            requires
                0 <= row,
                1 <= self.head_dim,
        ;
        assert(0 <= position * self.kv_heads) by (nonlinear_arith)
            requires
                0 <= position,
                0 <= self.kv_heads,
        ;
    }
}

/// Both caches with a new key and a new value at a position. The numbers are
/// bit patterns of half-precision floats.
pub fn cpu_kv_cache_append_f16(
    k_cache: &[u16],
    v_cache: &[u16],
    k_new: &[u16],
    v_new: &[u16],
    position: usize,
) -> (caches: (Vec<u16>, Vec<u16>))
    requires
        k_new@.len() == v_new@.len(),
        position * k_new@.len() + k_new@.len() <= k_cache@.len(),
        position * k_new@.len() + k_new@.len() <= v_cache@.len(),
    ensures
        caches.0@ == overlaid(k_cache@, position * k_new@.len(), k_new@),
        caches.1@ == overlaid(v_cache@, position * k_new@.len(), v_new@),
{
    let head_dim: usize = k_new.len();
    proof {
        assert(k_cache@.len() == k_cache.len());
        assert(0 <= position * head_dim) by (nonlinear_arith)
            requires
                0 <= position,
                0 <= head_dim,
        ;
    }
    let mut k_out: Vec<u16> = copied(k_cache);
    let mut v_out: Vec<u16> = copied(v_cache);
    let offset: usize = position * head_dim;
    overlay(&mut k_out, offset, k_new);
    overlay(&mut v_out, offset, v_new);
    (k_out, v_out)
}

fn copied(items: &[u16]) -> (copy: Vec<u16>)
    ensures
        copy@ == items@,
{
    let mut copy: Vec<u16> = Vec::new();
    let mut index: usize = 0;
    while index < items.len()
        invariant
            index <= items@.len(),
            copy@ == items@.take(index as int),
        decreases items@.len() - index,
    {
        copy.push(items[index]);
        index = index + 1;
        assert(copy@ =~= items@.take(index as int));
    }
    assert(items@.take(index as int) =~= items@);
    copy
}

} // verus!
