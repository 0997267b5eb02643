//! Heap allocator over one growable arena.
//!
//! Memory is carved from a cursor that only moves up. Every carved region is
//! flanked by two guard slots, each holding a marker next to the region.
//! Block records live in a table and refer to each other by index; they form
//! a list of blocks in use, newest first, and a list of blocks free for reuse.

use vstd::prelude::*;

verus! {

/// Alignment of the cursor and of every chunk.
pub const ALIGN: usize = 8;

/// Marker in the slot before a region.
pub const GUARD1: u32 = 0x5EABFCD7;

/// Marker in the slot after a region.
pub const GUARD2: u32 = 0x52FCEDAB;

/// Bytes of one guard slot: the marker and padding that keeps regions aligned.
pub const GUARD_SLOT: usize = 8;

/// Bytes reserved in the arena for the record of one block.
pub const HEADER_SIZE: usize = 24;

/// `n` rounded up to the next multiple of 8.
pub open spec fn align_up(n: int) -> int {
    ((n + 7) / 8) * 8
}

/// `n` zero bytes.
pub open spec fn zeros(n: int) -> Seq<u8> {
    Seq::new(n as nat, |i: int| 0u8)
}

/// The four bytes of a marker, lowest first.
pub open spec fn word_bytes(v: u32) -> Seq<u8> {
    seq![
        (v % 256) as u8,
        ((v / 256) % 256) as u8,
        ((v / 65536) % 256) as u8,
        ((v / 16777216) % 256) as u8,
    ]
}

/// A freshly carved region for `n` bytes: a guard slot whose last four bytes
/// are the first marker, the zeroed and aligned payload, and a guard slot whose
/// first four bytes are the second marker.
pub open spec fn region(n: int) -> Seq<u8> {
    zeros(4) + word_bytes(GUARD1) + zeros(align_up(n)) + word_bytes(GUARD2) + zeros(4)
}

/// `m` with the `n` bytes from index `at` on set to zero.
pub open spec fn zeroed(m: Seq<u8>, at: int, n: int) -> Seq<u8> {
    Seq::new(
        m.len(),
        |i: int|
            if at <= i < at + n {
                0u8
            } else {
                m[i]
            },
    )
}

/// One allocation as callers see it: where its payload starts and the size
/// that was asked for when it was carved.
pub struct Chunk {
    pub addr: int,
    pub size: int,
}

/// What a heap is: the arena from `base` up to `cursor` with its bytes, the
/// chunks in use, newest first, and the chunks free for reuse.
pub struct Arena {
    pub base: int,
    pub cursor: int,
    pub memory: Seq<u8>,
    pub used: Seq<Chunk>,
    pub free: Seq<Chunk>,
}

impl Arena {
    /// Every chunk, in use or free.
    pub open spec fn chunks(self) -> Seq<Chunk> {
        self.used + self.free
    }

    /// The arena is aligned and holds one byte per address below the cursor;
    /// every chunk is aligned and lies inside the arena; no two chunks touch.
    pub open spec fn wf(self) -> bool {
        &&& self.base % 8 == 0
        &&& self.cursor % 8 == 0
        &&& 0 <= self.base <= self.cursor <= usize::MAX
        &&& self.memory.len() == self.cursor - self.base
        &&& forall|i: int|
            0 <= i < self.chunks().len() ==> {
                let c = #[trigger] self.chunks()[i];
                &&& c.addr % 8 == 0
                &&& 0 <= c.size
                &&& self.base <= c.addr
                &&& c.addr + c.size <= self.cursor
            }
        &&& forall|i: int, j: int|
            0 <= i < self.chunks().len() && 0 <= j < self.chunks().len() && i != j ==> {
                let c = #[trigger] self.chunks()[i];
                let d = #[trigger] self.chunks()[j];
                c.addr + c.size <= d.addr || d.addr + d.size <= c.addr
            }
    }

    /// No free chunk is large enough for `size`: reuse asks for a recorded
    /// size strictly above the request.
    pub open spec fn no_fit(self, size: int) -> bool {
        forall|j: int| 0 <= j < self.free.len() ==> (#[trigger] self.free[j]).size <= size
    }

    /// `k` is the first free chunk whose recorded size is above `size`.
    pub open spec fn first_fit(self, size: int, k: int) -> bool {
        &&& 0 <= k < self.free.len()
        &&& self.free[k].size > size
        &&& forall|j: int| 0 <= j < k ==> (#[trigger] self.free[j]).size <= size
    }

    /// Carving for `size` bytes would take the cursor past the last address.
    pub open spec fn exhausted_by(self, size: int) -> bool {
        self.cursor + align_up(HEADER_SIZE as int) + align_up(size) + 4 * GUARD_SLOT > usize::MAX
    }

    /// Where the payload of the next carved chunk starts: past the region of
    /// its record and past the first guard slot of its own region.
    pub open spec fn next_chunk(self) -> int {
        self.cursor + align_up(HEADER_SIZE as int) + 3 * GUARD_SLOT
    }

    /// The heap after free chunk `k` was taken for a request of `size` bytes:
    /// the chunk moves to the front of the chunks in use, its first `size`
    /// bytes are zero, and the cursor stays.
    pub open spec fn reused(self, k: int, size: int) -> Arena {
        Arena {
            memory: zeroed(self.memory, self.free[k].addr - self.base, size),
            used: seq![self.free[k]] + self.used,
            free: self.free.remove(k),
            ..self
        }
    }

    /// The heap after a chunk of `size` bytes was carved: a region for the
    /// record, a region for the payload, and the new chunk in front of the
    /// chunks in use.
    pub open spec fn carved(self, size: int) -> Arena {
        Arena {
            cursor: self.cursor + align_up(HEADER_SIZE as int) + align_up(size) + 4 * GUARD_SLOT,
            memory: self.memory + region(HEADER_SIZE as int) + region(size),
            used: seq![Chunk { addr: self.next_chunk(), size }] + self.used,
            ..self
        }
    }

    /// The place of the first fit for `size` among the free chunks, where
    /// there is one.
    pub open spec fn fit(self, size: int) -> int {
        choose|k: int| self.first_fit(size, k)
    }

    /// The heap after a request for `size` bytes: the first fit is reused; where
    /// nothing fits a chunk is carved; where that cannot be done nothing
    /// changes.
    pub open spec fn allocated(self, size: int) -> Arena {
        if !self.no_fit(size) {
            self.reused(self.fit(size), size)
        } else if self.exhausted_by(size) {
            self
        } else {
            self.carved(size)
        }
    }

    /// The address that a request for `size` bytes is answered with, if any.
    pub open spec fn granted(self, size: int) -> Option<int> {
        if !self.no_fit(size) {
            Some(self.free[self.fit(size)].addr)
        } else if self.exhausted_by(size) {
            None
        } else {
            Some(self.next_chunk())
        }
    }

    /// The heap after one request for each of `sizes`, first to last.
    pub open spec fn after_requests(self, sizes: Seq<int>) -> Arena
        decreases sizes.len(),
    {
        if sizes.len() == 0 {
            self
        } else {
            self.after_requests(sizes.drop_last()).allocated(sizes.last())
        }
    }

    /// The address that request `i` of `sizes` is answered with, if any.
    pub open spec fn grant_of(self, sizes: Seq<int>, i: int) -> Option<int> {
        self.after_requests(sizes.take(i)).granted(sizes[i])
    }

    /// Where nothing fits, no place is a first fit; otherwise exactly one is.
    pub proof fn lemma_fit(self, size: int)
        ensures
            self.no_fit(size) ==> forall|k: int| !self.first_fit(size, k),
            !self.no_fit(size) ==> self.first_fit(size, self.fit(size)),
            forall|k: int| self.first_fit(size, k) ==> k == self.fit(size) && !self.no_fit(size),
    {
        if !self.no_fit(size) {
            let j = choose|j: int| 0 <= j < self.free.len() && self.free[j].size > size;
            Arena::lemma_some_first_fit(self, size, j);
        }
        if exists|k: int| self.first_fit(size, k) {
            let f = self.fit(size);
            assert(self.first_fit(size, f));
            assert forall|k: int| self.first_fit(size, k) implies k == f by {
                if k < f {
                    assert(self.free[k].size <= size);
                } else if f < k {
                    assert(self.free[f].size <= size);
                }
            }
        }
    }

    /// Where a free chunk at or before place `j` is large enough, some place
    /// is the first fit.
    proof fn lemma_some_first_fit(a: Arena, size: int, j: int)
        requires
            0 <= j < a.free.len(),
            a.free[j].size > size,
        ensures
            exists|k: int| a.first_fit(size, k),
        decreases j,
    {
        if forall|i: int| 0 <= i < j ==> (#[trigger] a.free[i]).size <= size {
            assert(a.first_fit(size, j));
        } else {
            let i = choose|i: int| 0 <= i < j && (#[trigger] a.free[i]).size > size;
            Arena::lemma_some_first_fit(a, size, i);
        }
    }

    /// One request keeps the heap in order. The chunk that it is answered
    /// with is aligned, now first among the chunks in use, at least as large
    /// as asked, and zero as far as was asked; the chunks that were in use
    /// stay in use behind it. Where the request is refused nothing changes.
    pub proof fn lemma_allocated(self, size: int)
        requires
            self.wf(),
            0 <= size,
        ensures
            self.allocated(size).wf(),
            self.allocated(size).base == self.base,
            self.allocated(size).cursor >= self.cursor,
            self.granted(size) is None ==> self.allocated(size) == self,
            self.granted(size) matches Some(p) ==> {
                let after = self.allocated(size);
                &&& p % 8 == 0
                &&& after.used.len() == self.used.len() + 1
                &&& after.used[0].addr == p
                &&& after.used[0].size >= size
                &&& after.used.drop_first() == self.used
                &&& forall|t: int| 0 <= t < size ==> #[trigger] after.memory[p - after.base + t] == 0
            },
    {
        self.lemma_fit(size);
        let after = self.allocated(size);
        let n = self.used.len() as int;
        if !self.no_fit(size) {
            let k = self.fit(size);
            assert(self.chunks()[n + k] == self.free[k]);
            assert(after.used.drop_first() =~= self.used);
            assert forall|i: int| 0 <= i < after.chunks().len() implies #[trigger] after.chunks()[i]
                == self.chunks()[Arena::origin(n, k, i)] by {}
            assert(after.wf()) by {
                assert forall|i: int, j: int|
                    0 <= i < after.chunks().len() && 0 <= j < after.chunks().len() && i != j implies {
                    let c = #[trigger] after.chunks()[i];
                    let d = #[trigger] after.chunks()[j];
                    c.addr + c.size <= d.addr || d.addr + d.size <= c.addr
                } by {
                    let oi = Arena::origin(n, k, i);
                    let oj = Arena::origin(n, k, j);
                    assert(after.chunks()[i] == self.chunks()[oi]);
                    assert(after.chunks()[j] == self.chunks()[oj]);
                    assert(oi != oj);
                }
                assert forall|i: int| 0 <= i < after.chunks().len() implies {
                    let c = #[trigger] after.chunks()[i];
                    &&& c.addr % 8 == 0
                    &&& 0 <= c.size
                    &&& after.base <= c.addr
                    &&& c.addr + c.size <= after.cursor
                } by {
                    assert(after.chunks()[i] == self.chunks()[Arena::origin(n, k, i)]);
                }
            }
        } else if !self.exhausted_by(size) {
            let c = Chunk { addr: self.next_chunk(), size };
            assert(after.used.drop_first() =~= self.used);
            assert(after.chunks() =~= seq![c] + self.chunks());
            lemma_payload_zero(self.memory + region(HEADER_SIZE as int), size, size);
            assert(region(HEADER_SIZE as int).len() == 40);
            assert forall|i: int| 0 <= i < after.chunks().len() implies {
                let c = #[trigger] after.chunks()[i];
                &&& c.addr % 8 == 0
                &&& 0 <= c.size
                &&& after.base <= c.addr
                &&& c.addr + c.size <= after.cursor
            } by {
                if i > 0 {
                    assert(after.chunks()[i] == self.chunks()[i - 1]);
                }
            }
            assert forall|i: int, j: int|
                0 <= i < after.chunks().len() && 0 <= j < after.chunks().len() && i != j implies {
                let c = #[trigger] after.chunks()[i];
                let d = #[trigger] after.chunks()[j];
                c.addr + c.size <= d.addr || d.addr + d.size <= c.addr
            } by {
                if i > 0 {
                    assert(after.chunks()[i] == self.chunks()[i - 1]);
                }
                if j > 0 {
                    assert(after.chunks()[j] == self.chunks()[j - 1]);
                }
            }
            assert forall|t: int| 0 <= t < size implies #[trigger] after.memory[self.next_chunk()
                - after.base + t] == 0 by {
                let m = self.memory + region(HEADER_SIZE as int);
                assert(after.memory == zeroed(m + region(size), (m.len() + 8) as int, size));
            }
        }
    }

    /// Reuse: where some free chunk is recorded larger than the request, the
    /// request is answered with the first such chunk, which leaves the free
    /// chunks for the chunks in use; nothing is carved and the cursor stays.
    pub proof fn lemma_reuse(self, size: int, j: int)
        requires
            0 <= j < self.free.len(),
            self.free[j].size > size,
        ensures
            ({
                let k = self.fit(size);
                &&& 0 <= k <= j
                &&& self.first_fit(size, k)
                &&& self.granted(size) == Some(self.free[k].addr)
                &&& self.allocated(size).cursor == self.cursor
                &&& self.allocated(size).free == self.free.remove(k)
                &&& self.allocated(size).used == seq![self.free[k]] + self.used
            }),
    {
        self.lemma_fit(size);
        let k = self.fit(size);
        if j < k {
            assert(self.free[j].size <= size);
        }
    }

    /// Where chunk `i` of a heap stood before free chunk `k` was moved to the
    /// front of the `n` chunks in use.
    pub open spec fn origin(n: int, k: int, i: int) -> int {
        if i == 0 {
            n + k
        } else if i <= n {
            i - 1
        } else if i - 1 - n < k {
            i - 1
        } else {
            i
        }
    }

    /// Requests one after the other are requests one after the other.
    pub proof fn lemma_requests_split(self, first: Seq<int>, then: Seq<int>)
        ensures
            self.after_requests(first + then) == self.after_requests(first).after_requests(then),
        decreases then.len(),
    {
        if then.len() == 0 {
            assert(first + then =~= first);
        } else {
            self.lemma_requests_split(first, then.drop_last());
            assert((first + then).drop_last() =~= first + then.drop_last());
            assert((first + then).last() == then.last());
        }
    }

    /// Requests keep the heap in order, and a chunk in use stays in use.
    pub proof fn lemma_requests_keep(self, sizes: Seq<int>, c: Chunk)
        requires
            self.wf(),
            forall|k: int| 0 <= k < sizes.len() ==> 0 <= #[trigger] sizes[k],
            self.used.contains(c),
        ensures
            self.after_requests(sizes).wf(),
            self.after_requests(sizes).base == self.base,
            self.after_requests(sizes).used.contains(c),
        decreases sizes.len(),
    {
        if sizes.len() > 0 {
            self.lemma_requests_keep(sizes.drop_last(), c);
            let before = self.after_requests(sizes.drop_last());
            before.lemma_allocated(sizes.last());
            let after = before.allocated(sizes.last());
            let m = choose|m: int| 0 <= m < before.used.len() && before.used[m] == c;
            if before.granted(sizes.last()) is Some {
                assert(after.used.drop_first()[m] == c);
                assert(after.used[m + 1] == c);
            }
        }
    }

    /// Requests keep the heap in order.
    pub proof fn lemma_requests_wf(self, sizes: Seq<int>)
        requires
            self.wf(),
            forall|k: int| 0 <= k < sizes.len() ==> 0 <= #[trigger] sizes[k],
        ensures
            self.after_requests(sizes).wf(),
        decreases sizes.len(),
    {
        if sizes.len() > 0 {
            self.lemma_requests_wf(sizes.drop_last());
            self.after_requests(sizes.drop_last()).lemma_allocated(sizes.last());
        }
    }

    /// Isolation: of the chunks that a run of requests is answered with, each
    /// is aligned, and no two overlap, taking each as long as was asked.
    pub proof fn lemma_requests_isolated(self, sizes: Seq<int>, i: int, j: int)
        requires
            self.wf(),
            forall|k: int| 0 <= k < sizes.len() ==> 0 <= #[trigger] sizes[k],
            0 <= i < j < sizes.len(),
            self.grant_of(sizes, i) is Some,
            self.grant_of(sizes, j) is Some,
        ensures
            ({
                let p = self.grant_of(sizes, i).unwrap();
                let q = self.grant_of(sizes, j).unwrap();
                &&& p % 8 == 0
                &&& q % 8 == 0
                &&& (p + sizes[i] <= q || q + sizes[j] <= p)
            }),
    {
        let p = self.grant_of(sizes, i).unwrap();
        let q = self.grant_of(sizes, j).unwrap();
        let head = sizes.take(i);
        let before_i = self.after_requests(head);
        self.lemma_requests_wf(head);
        before_i.lemma_allocated(sizes[i]);
        let after_i = before_i.allocated(sizes[i]);
        let c = after_i.used[0];
        let between = sizes.subrange(i + 1, j);
        assert(sizes.take(i + 1).drop_last() =~= head);
        assert(self.after_requests(sizes.take(i + 1)) == after_i);
        assert(sizes.take(j) =~= sizes.take(i + 1) + between);
        self.lemma_requests_split(sizes.take(i + 1), between);
        let before_j = self.after_requests(sizes.take(j));
        assert(before_j == after_i.after_requests(between));
        after_i.lemma_requests_keep(between, c);
        before_j.lemma_allocated(sizes[j]);
        let after_j = before_j.allocated(sizes[j]);
        let m = choose|m: int| 0 <= m < before_j.used.len() && before_j.used[m] == c;
        assert(after_j.used.drop_first()[m] == c);
        assert(after_j.chunks()[m + 1] == c);
        assert(after_j.chunks()[0] == after_j.used[0]);
    }

    /// The heap after the chunk in use at position `k` was given back: it
    /// moves to the front of the free chunks.
    pub open spec fn released(self, k: int) -> Arena {
        Arena { used: self.used.remove(k), free: seq![self.used[k]] + self.free, ..self }
    }
}

/// Record of one allocation.
#[derive(Clone, Copy)]
struct Block {
    size: usize,
    next: Option<usize>,
    chunk: usize,
}

/// The record that follows place `i` of `list`, if any.
spec fn next_of(list: Seq<int>, i: int) -> Option<usize> {
    if i + 1 < list.len() {
        Some(list[i + 1] as usize)
    } else {
        None
    }
}

/// `list` names the records reached from `top` by following `next`.
#[verifier::opaque]
spec fn linked(blocks: Seq<Block>, top: Option<usize>, list: Seq<int>) -> bool {
    &&& top == next_of(list, -1)
    &&& blocks.len() <= usize::MAX
    &&& forall|i: int| 0 <= i < list.len() ==> 0 <= #[trigger] list[i] < blocks.len()
    &&& forall|i: int|
        0 <= i < list.len() ==> blocks[list[i]].next == #[trigger] next_of(list, i)
}

/// What a well linked list says of its place `i`.
proof fn lemma_link_at(blocks: Seq<Block>, top: Option<usize>, list: Seq<int>, i: int)
    requires
        linked(blocks, top, list),
        0 <= i < list.len(),
    ensures
        0 <= list[i] < blocks.len() <= usize::MAX,
        blocks[list[i]].next == next_of(list, i),
        top == Some(list[0] as usize),
{
    reveal(linked);
    assert(top == next_of(list, -1));
}

/// No record is named twice, within one list or across both.
#[verifier::opaque]
spec fn no_repeats(used: Seq<int>, free: Seq<int>) -> bool {
    &&& forall|i: int, j: int| 0 <= i < j < used.len() ==> used[i] != used[j]
    &&& forall|i: int, j: int| 0 <= i < j < free.len() ==> free[i] != free[j]
    &&& forall|i: int, j: int| 0 <= i < used.len() && 0 <= j < free.len() ==> used[i] != free[j]
}

/// Records were carved one after the other between `base` and `cursor`.
#[verifier::opaque]
spec fn laid_out(blocks: Seq<Block>, base: int, cursor: int) -> bool {
    &&& forall|i: int|
        0 <= i < blocks.len() ==> {
            let b = #[trigger] blocks[i];
            &&& b.chunk % 8 == 0
            &&& base + 48 <= b.chunk
            &&& b.chunk + align_up(b.size as int) + 8 <= cursor
        }
    &&& forall|i: int, j: int|
        0 <= i < j < blocks.len() ==> (#[trigger] blocks[i]).chunk + align_up(
            blocks[i].size as int,
        ) + 56 <= (#[trigger] blocks[j]).chunk
}

/// The second table holds the records of the first with their chunks and
/// sizes as they were.
spec fn same_chunks(before: Seq<Block>, after: Seq<Block>) -> bool {
    &&& before.len() == after.len()
    &&& forall|i: int|
        0 <= i < before.len() ==> (#[trigger] after[i]).chunk == before[i].chunk && after[i].size
            == before[i].size
}

/// The chunks of the records that `list` names.
spec fn chunks_of(blocks: Seq<Block>, list: Seq<int>) -> Seq<Chunk> {
    Seq::new(
        list.len(),
        |i: int| Chunk { addr: blocks[list[i]].chunk as int, size: blocks[list[i]].size as int },
    )
}

/// The allocator.
pub struct Heap {
    blocks: Vec<Block>,
    used_top: Option<usize>,
    free_top: Option<usize>,
    base: usize,
    free_addr: usize,
    arena: Vec<u8>,
    used: Ghost<Seq<int>>,
    free: Ghost<Seq<int>>,
}

impl View for Heap {
    type V = Arena;

    closed spec fn view(&self) -> Arena {
        Arena {
            base: self.base as int,
            cursor: self.free_addr as int,
            memory: self.arena@,
            used: chunks_of(self.blocks@, self.used@),
            free: chunks_of(self.blocks@, self.free@),
        }
    }
}

/// Zeroing the first `n` bytes of the payload of a region just carved
/// changes nothing: they are zero already.
proof fn lemma_payload_zero(m: Seq<u8>, size: int, n: int)
    requires
        0 <= n <= size,
    ensures
        (m + region(size)).len() == m.len() + align_up(size) + 16,
        zeroed(m + region(size), (m.len() + 8) as int, n) =~= m + region(size),
{
    let r = region(size);
    assert(r.len() == align_up(size) + 16);
    assert forall|i: int| 8 <= i < 8 + n implies r[i] == 0u8 by {
        assert(r[i] == zeros(align_up(size))[i - 8]);
    }
}

/// Appends `n` copies of `b` to `v`.
fn push_bytes(v: &mut Vec<u8>, b: u8, n: usize)
    ensures
        final(v)@ == old(v)@ + Seq::new(n as nat, |i: int| b),
{
    let mut i: usize = 0;
    while i < n
        invariant
            i <= n,
            v@ == old(v)@ + Seq::new(i as nat, |j: int| b),
        decreases n - i,
    {
        v.push(b);
        i += 1;
        assert(v@ =~= old(v)@ + Seq::new(i as nat, |j: int| b));
    }
}

/// Appends the four bytes of `w` to `v`, lowest first.
fn push_word(v: &mut Vec<u8>, w: u32)
    ensures
        final(v)@ == old(v)@ + word_bytes(w),
{
    v.push((w % 256) as u8);
    v.push(((w / 256) % 256) as u8);
    v.push(((w / 65536) % 256) as u8);
    v.push(((w / 16777216) % 256) as u8);
    assert(v@ =~= old(v)@ + word_bytes(w));
}

impl Heap {
    /// The invariant of the allocator: the two lists are well linked and share
    /// no record, and the records lie in the arena in the order they were
    /// carved.
    pub closed spec fn wf(&self) -> bool {
        &&& self.base % 8 == 0
        &&& self.free_addr % 8 == 0
        &&& self.base <= self.free_addr
        &&& self.arena@.len() == self.free_addr - self.base
        &&& linked(self.blocks@, self.used_top, self.used@)
        &&& linked(self.blocks@, self.free_top, self.free@)
        &&& no_repeats(self.used@, self.free@)
        &&& laid_out(self.blocks@, self.base as int, self.free_addr as int)
    }

    /// Rounds `addr` up to the next multiple of 8.
    pub fn align(addr: usize) -> (r: usize)
        requires
            addr + 7 <= usize::MAX,
        ensures
            r == align_up(addr as int),
            r % 8 == 0,
            addr <= r < addr + 8,
    {
        (addr + (ALIGN - 1)) / ALIGN * ALIGN
    }

    /// An empty heap whose arena starts at the first aligned address at or
    /// after `end_of_kernel`.
    pub fn new(end_of_kernel: usize) -> (h: Heap)
        requires
            end_of_kernel + 7 <= usize::MAX,
        ensures
            h.wf(),
            h@.wf(),
            h@ == (Arena {
                base: align_up(end_of_kernel as int),
                cursor: align_up(end_of_kernel as int),
                memory: Seq::empty(),
                used: Seq::empty(),
                free: Seq::empty(),
            }),
    {
        let addr = Heap::align(end_of_kernel);
        let h = Heap {
            blocks: Vec::new(),
            used_top: None,
            free_top: None,
            base: addr,
            free_addr: addr,
            arena: Vec::new(),
            used: Ghost(Seq::empty()),
            free: Ghost(Seq::empty()),
        };
        proof {
            reveal(linked);
            reveal(no_repeats);
            reveal(laid_out);
        }
        assert(h@.used =~= Seq::empty());
        assert(h@.chunks() =~= Seq::empty());
        assert(h@.free =~= Seq::empty());
        assert(h@.memory =~= Seq::empty());
        h
    }

    /// Looks through the free list for the first record whose size is above
    /// `size` and unlinks it. Returns the record and its place in the list.
    fn internal_get_block(&mut self, size: usize) -> (r: (Option<usize>, Ghost<int>))
        requires
            old(self).wf(),
        ensures
            final(self).wf(),
            final(self).base == old(self).base,
            final(self).free_addr == old(self).free_addr,
            final(self).arena == old(self).arena,
            final(self).used_top == old(self).used_top,
            final(self).used@ == old(self).used@,
            same_chunks(old(self).blocks@, final(self).blocks@),
            match r.0 {
                None => old(self)@.no_fit(size as int) && *final(self) == *old(self),
                Some(b) => {
                    &&& old(self)@.first_fit(size as int, r.1@)
                    &&& b == old(self).free@[r.1@]
                    &&& 0 <= b < old(self).blocks@.len()
                    &&& final(self).free@ == old(self).free@.remove(r.1@)
                    &&& !final(self).free@.contains(b as int)
                    &&& !final(self).used@.contains(b as int)
                    &&& final(self)@.used == old(self)@.used
                    &&& final(self)@.free == old(self)@.free.remove(r.1@)
                    &&& old(self)@.free[r.1@] == (Chunk {
                        addr: final(self).blocks@[b as int].chunk as int,
                        size: final(self).blocks@[b as int].size as int,
                    })
                },
            },
    {
        let mut cur: Option<usize> = self.free_top;
        let mut prev: Option<usize> = None;
        let ghost mut k: int = 0;
        proof {
            reveal(linked);
            assert(self.free_top == next_of(self.free@, -1));
        }
        while cur.is_some()
            invariant
                *self == *old(self),
                old(self).wf(),
                linked(self.blocks@, self.free_top, self.free@),
                0 <= k <= self.free@.len(),
                match cur {
                    Some(c) => k < self.free@.len() && c == self.free@[k],
                    None => k == self.free@.len(),
                },
                match prev {
                    Some(p) => k > 0 && p == self.free@[k - 1],
                    None => k == 0,
                },
                forall|j: int| 0 <= j < k ==> (#[trigger] self@.free[j]).size <= size,
            decreases self.free@.len() - k,
        {
            proof {
                lemma_link_at(self.blocks@, self.free_top, self.free@, k);
                if k > 0 {
                    lemma_link_at(self.blocks@, self.free_top, self.free@, k - 1);
                }
            }
            let i: usize = cur.unwrap();
            let blk = self.blocks[i];
            if blk.size > size {
                match prev {
                    None => {
                        self.free_top = blk.next;
                    },
                    Some(p) => {
                        let mut before = self.blocks[p];
                        before.next = blk.next;
                        self.blocks.set(p, before);
                    },
                }
                self.free = Ghost(self.free@.remove(k));
                proof {
                    old(self).lemma_unlinked(*self, k);
                }
                return (Some(i), Ghost(k));
            }
            prev = cur;
            cur = blk.next;
            proof {
                k = k + 1;
                if k < self.free@.len() {
                    lemma_link_at(self.blocks@, self.free_top, self.free@, k);
                }
            }
        }
        (None, Ghost(0))
    }

    /// Taking place `k` out of the free list, by one change of a link, leaves
    /// a heap that is in order.
    proof fn lemma_unlinked(self, after: Heap, k: int)
        requires
            self.wf(),
            0 <= k < self.free@.len(),
            after.base == self.base,
            after.free_addr == self.free_addr,
            after.arena == self.arena,
            after.used_top == self.used_top,
            after.used@ == self.used@,
            after.free@ == self.free@.remove(k),
            k == 0 ==> after.blocks@ == self.blocks@ && after.free_top == self.blocks@[self.free@[0]].next,
            k > 0 ==> after.free_top == self.free_top && after.blocks@ == self.blocks@.update(
                self.free@[k - 1],
                Block { next: self.blocks@[self.free@[k]].next, ..self.blocks@[self.free@[k - 1]] },
            ),
        ensures
            after.wf(),
            same_chunks(self.blocks@, after.blocks@),
            0 <= self.free@[k] < self.blocks@.len(),
            !after.free@.contains(self.free@[k]),
            !after.used@.contains(self.free@[k]),
            after@.used == self@.used,
            after@.free == self@.free.remove(k),
            self@.free[k] == (Chunk {
                addr: after.blocks@[self.free@[k]].chunk as int,
                size: after.blocks@[self.free@[k]].size as int,
            }),
    {
        assert(after@.used =~= self@.used && after@.free =~= self@.free.remove(k)) by {
            reveal(linked);
        }
        let old_free = self.free@;
        let new_free = after.free@;
        lemma_link_at(self.blocks@, self.free_top, old_free, k);
        if k > 0 {
            lemma_link_at(self.blocks@, self.free_top, old_free, k - 1);
        }
        assert(same_chunks(self.blocks@, after.blocks@));
        assert(no_repeats(after.used@, after.free@) && !after.free@.contains(old_free[k])
            && !after.used@.contains(old_free[k]) && (forall|j: int|
            0 <= j < old_free.len() && j != k - 1 && k > 0 ==> #[trigger] old_free[j] != old_free[k
                - 1]) && (forall|j: int|
            0 <= j < self.used@.len() && k > 0 ==> #[trigger] self.used@[j] != old_free[k - 1])) by {
            reveal(no_repeats);
        }
        assert(laid_out(after.blocks@, after.base as int, after.free_addr as int)) by {
            reveal(laid_out);
        }
        assert(linked(after.blocks@, after.used_top, after.used@)) by {
            reveal(linked);
            assert forall|j: int| 0 <= j < self.used@.len() implies after.blocks@[self.used@[j]].next
                == #[trigger] next_of(self.used@, j) by {
                assert(self.blocks@[self.used@[j]].next == next_of(self.used@, j));
            }
        }
        assert(linked(after.blocks@, after.free_top, new_free)) by {
            reveal(linked);
            assert forall|j: int| 0 <= j < new_free.len() implies 0 <= #[trigger] new_free[j]
                < after.blocks@.len() by {
                let o = if j < k {
                    j
                } else {
                    j + 1
                };
                assert(new_free[j] == old_free[o]);
            }
            assert forall|j: int| 0 <= j < new_free.len() implies after.blocks@[new_free[j]].next
                == #[trigger] next_of(new_free, j) by {
                if j < k - 1 {
                    assert(self.blocks@[old_free[j]].next == next_of(old_free, j));
                } else if j == k - 1 {
                    assert(self.blocks@[old_free[k]].next == next_of(old_free, k));
                } else {
                    assert(new_free[j] == old_free[j + 1]);
                    assert(self.blocks@[old_free[j + 1]].next == next_of(old_free, j + 1));
                }
            }
            assert(after.free_top == next_of(new_free, -1)) by {
                assert(self.free_top == next_of(old_free, -1));
                assert(self.blocks@[old_free[k]].next == next_of(old_free, k));
            }
        }
    }

    /// Putting record `b`, which is in neither list, in front of the list of
    /// records in use leaves a heap that is in order.
    proof fn lemma_pushed(self, after: Heap, b: int)
        requires
            self.wf(),
            0 <= b < self.blocks@.len(),
            !self.used@.contains(b),
            !self.free@.contains(b),
            after.base == self.base,
            after.free_addr == self.free_addr,
            after.arena == self.arena,
            after.free_top == self.free_top,
            after.free@ == self.free@,
            after.used_top == Some(b as usize),
            after.used@ == seq![b] + self.used@,
            after.blocks@ == self.blocks@.update(
                b,
                Block { next: self.used_top, ..self.blocks@[b] },
            ),
        ensures
            after.wf(),
            same_chunks(self.blocks@, after.blocks@),
            after@.base == self@.base,
            after@.cursor == self@.cursor,
            after@.memory == self@.memory,
            after@.free == self@.free,
            after@.used == seq![
                Chunk { addr: self.blocks@[b].chunk as int, size: self.blocks@[b].size as int },
            ] + self@.used,
    {
        let u = after.used@;
        assert forall|j: int| 0 <= j < self.used@.len() implies #[trigger] self.used@[j] != b by {
            assert(self.used@.contains(self.used@[j]));
        }
        assert forall|j: int| 0 <= j < self.free@.len() implies #[trigger] self.free@[j] != b by {
            assert(self.free@.contains(self.free@[j]));
        }
        assert(same_chunks(self.blocks@, after.blocks@));
        assert(linked(after.blocks@, after.used_top, u)) by {
            reveal(linked);
            assert(self.used_top == next_of(self.used@, -1));
            assert forall|j: int| 0 <= j < u.len() implies 0 <= #[trigger] u[j]
                < after.blocks@.len() by {
                if j > 0 {
                    assert(u[j] == self.used@[j - 1]);
                }
            }
            assert forall|j: int| 0 <= j < u.len() implies after.blocks@[u[j]].next
                == #[trigger] next_of(u, j) by {
                if j > 0 {
                    assert(u[j] == self.used@[j - 1]);
                    assert(self.blocks@[self.used@[j - 1]].next == next_of(self.used@, j - 1));
                }
            }
        }
        assert(linked(after.blocks@, after.free_top, after.free@)) by {
            reveal(linked);
            assert forall|j: int| 0 <= j < self.free@.len() implies after.blocks@[self.free@[j]].next
                == #[trigger] next_of(self.free@, j) by {
                assert(self.blocks@[self.free@[j]].next == next_of(self.free@, j));
            }
        }
        assert(no_repeats(after.used@, after.free@)) by {
            reveal(no_repeats);
            assert forall|i: int, j: int| 0 <= i < j < u.len() implies u[i] != u[j] by {
                assert(u[j] == self.used@[j - 1]);
                if i > 0 {
                    assert(u[i] == self.used@[i - 1]);
                }
            }
            assert forall|i: int, j: int|
                0 <= i < u.len() && 0 <= j < after.free@.len() implies u[i] != after.free@[j] by {
                if i > 0 {
                    assert(u[i] == self.used@[i - 1]);
                }
            }
        }
        assert(laid_out(after.blocks@, after.base as int, after.free_addr as int)) by {
            reveal(laid_out);
        }
        assert(after@.free =~= self@.free) by {
            reveal(linked);
        }
        assert(after@.used =~= seq![
            Chunk { addr: self.blocks@[b].chunk as int, size: self.blocks@[b].size as int },
        ] + self@.used) by {
            reveal(linked);
            assert forall|j: int| 0 < j < u.len() implies u[j] == self.used@[j - 1] by {}
        }
    }

    /// A record for a chunk just carved, added to the table, leaves a heap
    /// that is in order, with the record in neither list.
    proof fn lemma_recorded(self, after: Heap, blk: Block)
        requires
            self.wf(),
            after.base == self.base,
            after.free_addr == self.free_addr,
            after.arena == self.arena,
            after.free_top == self.free_top,
            after.free@ == self.free@,
            after.used_top == self.used_top,
            after.used@ == self.used@,
            after.blocks@ == self.blocks@.push(blk),
            after.blocks@.len() <= usize::MAX,
            blk.chunk % 8 == 0,
            self.base + 48 <= blk.chunk,
            blk.chunk + align_up(blk.size as int) + 8 <= self.free_addr,
            forall|i: int|
                0 <= i < self.blocks@.len() ==> (#[trigger] self.blocks@[i]).chunk + align_up(
                    self.blocks@[i].size as int,
                ) + 56 <= blk.chunk,
        ensures
            after.wf(),
            !after.used@.contains(self.blocks@.len() as int),
            !after.free@.contains(self.blocks@.len() as int),
            after@ == self@,
    {
        reveal(linked);
        reveal(no_repeats);
        reveal(laid_out);
        assert(linked(after.blocks@, after.used_top, after.used@));
        assert(linked(after.blocks@, after.free_top, after.free@));
        assert(laid_out(after.blocks@, after.base as int, after.free_addr as int));
        assert(after@.used =~= self@.used);
        assert(after@.free =~= self@.free);
    }

    /// Moving the cursor up keeps a heap in order and its chunks as they are.
    proof fn lemma_grown(self, after: Heap)
        requires
            self.wf(),
            after.base == self.base,
            after.free_addr >= self.free_addr,
            after.free_addr % 8 == 0,
            after.arena@.len() == after.free_addr - after.base,
            after.free_top == self.free_top,
            after.free == self.free,
            after.used_top == self.used_top,
            after.used == self.used,
            after.blocks == self.blocks,
        ensures
            after.wf(),
            after@.used == self@.used,
            after@.free == self@.free,
            forall|i: int|
                0 <= i < self.blocks@.len() ==> (#[trigger] self.blocks@[i]).chunk + align_up(
                    self.blocks@[i].size as int,
                ) + 8 <= self.free_addr,
    {
        reveal(laid_out);
    }

    /// Where a record's payload lies.
    proof fn lemma_record_bounds(self, b: int)
        requires
            self.wf(),
            0 <= b < self.blocks@.len(),
        ensures
            self.blocks@[b].chunk % 8 == 0,
            self.base <= self.blocks@[b].chunk,
            self.blocks@[b].chunk + align_up(self.blocks@[b].size as int) <= self.free_addr,
    {
        reveal(laid_out);
    }

    /// Carves a region for `size` bytes at the cursor and returns where its
    /// payload starts.
    fn internal_alloc(&mut self, size: usize) -> (r: usize)
        requires
            old(self).wf(),
            old(self).free_addr + align_up(size as int) + 2 * GUARD_SLOT <= usize::MAX,
        ensures
            final(self).wf(),
            r == old(self).free_addr + GUARD_SLOT,
            final(self).free_addr == old(self).free_addr + align_up(size as int) + 2 * GUARD_SLOT,
            final(self).arena@ == old(self).arena@ + region(size as int),
            final(self).base == old(self).base,
            final(self).blocks == old(self).blocks,
            final(self).used_top == old(self).used_top,
            final(self).free_top == old(self).free_top,
            final(self).used == old(self).used,
            final(self).free == old(self).free,
            final(self)@.used == old(self)@.used,
            final(self)@.free == old(self)@.free,
            forall|i: int|
                0 <= i < old(self).blocks@.len() ==> (#[trigger] old(self).blocks@[i]).chunk
                    + align_up(old(self).blocks@[i].size as int) + 8 <= old(self).free_addr,
    {
        let aligned: usize = Heap::align(size);
        push_bytes(&mut self.arena, 0, 4);
        push_word(&mut self.arena, GUARD1);
        push_bytes(&mut self.arena, 0, aligned);
        push_word(&mut self.arena, GUARD2);
        push_bytes(&mut self.arena, 0, 4);
        let chunk: usize = self.free_addr + GUARD_SLOT;
        self.free_addr = self.free_addr + aligned + 2 * GUARD_SLOT;
        proof {
            assert(self.arena@ =~= old(self).arena@ + region(size as int));
            old(self).lemma_grown(*self);
        }
        chunk
    }

    /// Sets the `n` bytes from address `addr` on to zero.
    fn zero_fill(&mut self, addr: usize, n: usize)
        requires
            old(self).base <= addr,
            addr + n <= old(self).free_addr,
            old(self).arena@.len() == old(self).free_addr - old(self).base,
        ensures
            final(self).arena@ == zeroed(old(self).arena@, addr - old(self).base, n as int),
            final(self).base == old(self).base,
            final(self).free_addr == old(self).free_addr,
            final(self).blocks == old(self).blocks,
            final(self).used_top == old(self).used_top,
            final(self).free_top == old(self).free_top,
            final(self).used == old(self).used,
            final(self).free == old(self).free,
    {
        let at: usize = addr - self.base;
        let mut i: usize = 0;
        assert(self.arena@ =~= zeroed(old(self).arena@, at as int, 0));
        while i < n
            invariant
                i <= n,
                at + n <= self.arena@.len(),
                at + n <= usize::MAX,
                self.arena@ == zeroed(old(self).arena@, at as int, i as int),
                self.base == old(self).base,
                self.free_addr == old(self).free_addr,
                self.blocks == old(self).blocks,
                self.used_top == old(self).used_top,
                self.free_top == old(self).free_top,
                self.used == old(self).used,
                self.free == old(self).free,
            decreases n - i,
        {
            self.arena.set(at + i, 0);
            i += 1;
            assert(self.arena@ =~= zeroed(old(self).arena@, at as int, i as int));
        }
    }

    /// Allocates `size` bytes and returns the address of the chunk, whose
    /// first `size` bytes are zero.
    ///
    /// The first free chunk whose recorded size is above `size` is reused, and
    /// the cursor stays where it is. Where there is none, a region for the
    /// record and a region for the payload are carved at the cursor. Where
    /// that would take the cursor past the last address, nothing changes and
    /// the result is `None`.
    pub fn kalloc(&mut self, size: usize) -> (r: Option<usize>)
        requires
            old(self).wf(),
        ensures
            final(self).wf(),
            final(self)@.wf(),
            r matches Some(a) ==> {
                &&& a % 8 == 0
                &&& final(self)@.used.len() > 0
                &&& final(self)@.used[0].addr == a
                &&& final(self)@.used[0].size >= size
                &&& forall|i: int|
                    0 <= i < size ==> #[trigger] final(self)@.memory[a - final(self)@.base + i] == 0
            },
            final(self)@ == old(self)@.allocated(size as int),
            match r {
                Some(a) => old(self)@.granted(size as int) == Some(a as int),
                None => old(self)@.granted(size as int) is None,
            },
    {
        let (found, Ghost(k)) = self.internal_get_block(size);
        proof {
            old(self)@.lemma_fit(size as int);
            if found is None {
                self.lemma_chunks_isolated();
            }
        }
        let idx: usize = match found {
            Some(b) => b,
            None => {
                if size > usize::MAX - 7 {
                    return None;
                }
                let payload: usize = Heap::align(size);
                if payload > usize::MAX - 56 || self.free_addr > usize::MAX - 56 - payload {
                    return None;
                }
                let _header: usize = self.internal_alloc(HEADER_SIZE);
                let chunk: usize = self.internal_alloc(size);
                let ghost carved = *self;
                self.blocks.push(Block { size, next: None, chunk });
                let last: usize = self.blocks.len() - 1;
                proof {
                    assert(self.arena@ =~= old(self).arena@ + region(HEADER_SIZE as int) + region(
                        size as int,
                    ));
                    carved.lemma_recorded(*self, Block { size, next: None, chunk });
                }
                last
            },
        };
        let ghost mid = *self;
        let mut blk = self.blocks[idx];
        blk.next = self.used_top;
        self.blocks.set(idx, blk);
        self.used_top = Some(idx);
        self.used = Ghost(seq![idx as int] + self.used@);
        proof {
            mid.lemma_pushed(*self, idx as int);
            self.lemma_record_bounds(idx as int);
        }
        let ghost linked_up = *self;
        self.zero_fill(blk.chunk, size);
        proof {
            linked_up.lemma_grown(*self);
            self.lemma_chunks_isolated();
            if found is Some {
                assert(self@ == old(self)@.reused(k, size as int));
            } else {
                lemma_payload_zero(
                    old(self).arena@ + region(HEADER_SIZE as int),
                    size as int,
                    size as int,
                );
                assert(self@ == old(self)@.carved(size as int));
            }
        }
        Some(blk.chunk)
    }

    /// Allocates room for a value of `size` bytes: the chunk is zeroed and
    /// aligned, as `kalloc` gives it.
    pub fn allocate(&mut self, size: usize) -> (r: Option<usize>)
        requires
            old(self).wf(),
        ensures
            final(self).wf(),
            final(self)@.wf(),
            r matches Some(a) ==> {
                &&& a % 8 == 0
                &&& final(self)@.used.len() > 0
                &&& final(self)@.used[0].addr == a
                &&& final(self)@.used[0].size >= size
                &&& forall|i: int|
                    0 <= i < size ==> #[trigger] final(self)@.memory[a - final(self)@.base + i] == 0
            },
            final(self)@ == old(self)@.allocated(size as int),
            match r {
                Some(a) => old(self)@.granted(size as int) == Some(a as int),
                None => old(self)@.granted(size as int) is None,
            },
    {
        self.kalloc(size)
    }

    /// The heap with the roles of its two lists exchanged.
    spec fn swapped(self) -> Heap {
        Heap {
            used_top: self.free_top,
            free_top: self.used_top,
            used: self.free,
            free: self.used,
            ..self
        }
    }

    /// Exchanging the lists keeps a heap in order.
    proof fn lemma_swapped(self)
        requires
            self.wf(),
        ensures
            self.swapped().wf(),
    {
        reveal(no_repeats);
    }

    /// Two places of the list of chunks in use hold different addresses.
    proof fn lemma_used_addresses_differ(self, i: int, j: int)
        requires
            self.wf(),
            0 <= i < self.used@.len(),
            0 <= j < self.used@.len(),
            i != j,
        ensures
            self@.used[i].addr != self@.used[j].addr,
    {
        reveal(no_repeats);
        reveal(laid_out);
        lemma_link_at(self.blocks@, self.used_top, self.used@, i);
        lemma_link_at(self.blocks@, self.used_top, self.used@, j);
        assert(self.used@[i] != self.used@[j]);
        let bi = self.blocks@[self.used@[i]];
        let bj = self.blocks@[self.used@[j]];
        assert(bi.chunk != bj.chunk);
    }

    /// Looks through the list of records in use for the one whose chunk starts
    /// at `addr` and unlinks it. Returns the record and its place in the list.
    fn internal_take_used(&mut self, addr: usize) -> (r: (Option<usize>, Ghost<int>))
        requires
            old(self).wf(),
        ensures
            final(self).wf(),
            final(self).base == old(self).base,
            final(self).free_addr == old(self).free_addr,
            final(self).arena == old(self).arena,
            final(self).free_top == old(self).free_top,
            final(self).free@ == old(self).free@,
            same_chunks(old(self).blocks@, final(self).blocks@),
            match r.0 {
                None => {
                    &&& forall|j: int|
                        0 <= j < old(self)@.used.len() ==> (#[trigger] old(self)@.used[j]).addr
                            != addr
                    &&& *final(self) == *old(self)
                },
                Some(b) => {
                    &&& 0 <= r.1@ < old(self).used@.len()
                    &&& old(self)@.used[r.1@].addr == addr
                    &&& b == old(self).used@[r.1@]
                    &&& 0 <= b < old(self).blocks@.len()
                    &&& final(self).used@ == old(self).used@.remove(r.1@)
                    &&& !final(self).free@.contains(b as int)
                    &&& !final(self).used@.contains(b as int)
                    &&& final(self)@.free == old(self)@.free
                    &&& final(self)@.used == old(self)@.used.remove(r.1@)
                    &&& old(self)@.used[r.1@] == (Chunk {
                        addr: final(self).blocks@[b as int].chunk as int,
                        size: final(self).blocks@[b as int].size as int,
                    })
                },
            },
    {
        let mut cur: Option<usize> = self.used_top;
        let mut prev: Option<usize> = None;
        let ghost mut k: int = 0;
        proof {
            reveal(linked);
            assert(self.used_top == next_of(self.used@, -1));
        }
        while cur.is_some()
            invariant
                *self == *old(self),
                old(self).wf(),
                linked(self.blocks@, self.used_top, self.used@),
                0 <= k <= self.used@.len(),
                match cur {
                    Some(c) => k < self.used@.len() && c == self.used@[k],
                    None => k == self.used@.len(),
                },
                match prev {
                    Some(p) => k > 0 && p == self.used@[k - 1],
                    None => k == 0,
                },
                forall|j: int| 0 <= j < k ==> (#[trigger] self@.used[j]).addr != addr,
            decreases self.used@.len() - k,
        {
            proof {
                lemma_link_at(self.blocks@, self.used_top, self.used@, k);
                if k > 0 {
                    lemma_link_at(self.blocks@, self.used_top, self.used@, k - 1);
                }
            }
            let i: usize = cur.unwrap();
            let blk = self.blocks[i];
            if blk.chunk == addr {
                match prev {
                    None => {
                        self.used_top = blk.next;
                    },
                    Some(p) => {
                        let mut before = self.blocks[p];
                        before.next = blk.next;
                        self.blocks.set(p, before);
                    },
                }
                self.used = Ghost(self.used@.remove(k));
                proof {
                    old(self).lemma_swapped();
                    old(self).swapped().lemma_unlinked(self.swapped(), k);
                    self.swapped().lemma_swapped();
                    assert(self.swapped().swapped() == *self);
                }
                return (Some(i), Ghost(k));
            }
            prev = cur;
            cur = blk.next;
            proof {
                k = k + 1;
                if k < self.used@.len() {
                    lemma_link_at(self.blocks@, self.used_top, self.used@, k);
                }
            }
        }
        (None, Ghost(0))
    }

    /// Gives the chunk that starts at `addr` back: where a chunk in use starts
    /// there, it moves to the front of the free chunks, to be reused by a
    /// later request for less than its recorded size. Memory and cursor stay
    /// as they are. Returns whether there was such a chunk.
    pub fn release(&mut self, addr: usize) -> (r: bool)
        requires
            old(self).wf(),
        ensures
            final(self).wf(),
            final(self)@.wf(),
            r == (exists|k: int|
                0 <= k < old(self)@.used.len() && (#[trigger] old(self)@.used[k]).addr == addr),
            !r ==> final(self)@ == old(self)@,
            forall|k: int|
                0 <= k < old(self)@.used.len() && (#[trigger] old(self)@.used[k]).addr == addr
                    ==> final(self)@ == old(self)@.released(k),
    {
        let (found, Ghost(k)) = self.internal_take_used(addr);
        proof {
            self.lemma_chunks_isolated();
        }
        match found {
            None => false,
            Some(b) => {
                let ghost mid = *self;
                let mut blk = self.blocks[b];
                blk.next = self.free_top;
                self.blocks.set(b, blk);
                self.free_top = Some(b);
                self.free = Ghost(seq![b as int] + self.free@);
                proof {
                    mid.lemma_swapped();
                    mid.swapped().lemma_pushed(self.swapped(), b as int);
                    self.swapped().lemma_swapped();
                    assert(self.swapped().swapped() == *self);
                    self.lemma_chunks_isolated();
                    assert forall|j: int|
                        0 <= j < old(self)@.used.len() && (#[trigger] old(self)@.used[j]).addr
                            == addr implies j == k by {
                        if j != k {
                            old(self).lemma_used_addresses_differ(j, k);
                        }
                    }
                    assert(self@ == old(self)@.released(k));
                }
                true
            },
        }
    }

    /// The byte that the arena holds at `addr`, if `addr` lies below the
    /// cursor.
    pub fn byte_at(&self, addr: usize) -> (r: Option<u8>)
        requires
            self.wf(),
        ensures
            r == (if self@.base <= addr < self@.cursor {
                Some(self@.memory[addr - self@.base])
            } else {
                None
            }),
    {
        if self.base <= addr && addr < self.free_addr {
            Some(self.arena[addr - self.base])
        } else {
            None
        }
    }

    /// Stores `value` at `addr`, if `addr` lies below the cursor. Returns
    /// whether it did.
    pub fn write_byte_at(&mut self, addr: usize, value: u8) -> (r: bool)
        requires
            old(self).wf(),
        ensures
            final(self).wf(),
            final(self)@.wf(),
            r == (old(self)@.base <= addr < old(self)@.cursor),
            r ==> final(self)@ == (Arena {
                memory: old(self)@.memory.update(addr - old(self)@.base, value),
                ..old(self)@
            }),
            !r ==> final(self)@ == old(self)@,
    {
        if self.base <= addr && addr < self.free_addr {
            self.arena.set(addr - self.base, value);
            proof {
                old(self).lemma_grown(*self);
                self.lemma_chunks_isolated();
            }
            true
        } else {
            proof {
                self.lemma_chunks_isolated();
            }
            false
        }
    }

    /// First address of the arena.
    pub fn base(&self) -> (r: usize)
        ensures
            r == self@.base,
    {
        self.base
    }

    /// The cursor: the first address not yet carved.
    pub fn cursor(&self) -> (r: usize)
        ensures
            r == self@.cursor,
    {
        self.free_addr
    }

    /// The chunks of a heap are aligned, lie inside the arena, and no two of
    /// them overlap.
    pub proof fn lemma_chunks_isolated(&self)
        requires
            self.wf(),
        ensures
            self@.wf(),
    {
        reveal(linked);
        reveal(no_repeats);
        reveal(laid_out);
        let a = self@;
        let n = self.used@.len() as int;
        assert forall|i: int| 0 <= i < a.chunks().len() implies {
            let c = #[trigger] a.chunks()[i];
            &&& c.addr % 8 == 0
            &&& 0 <= c.size
            &&& a.base <= c.addr
            &&& c.addr + c.size <= a.cursor
        } by {
            let b = if i < n {
                self.used@[i]
            } else {
                self.free@[i - n]
            };
            assert(0 <= b < self.blocks@.len());
            assert(a.chunks()[i].addr == self.blocks@[b].chunk);
        }
        assert forall|i: int, j: int|
            0 <= i < a.chunks().len() && 0 <= j < a.chunks().len() && i != j implies {
            let c = #[trigger] a.chunks()[i];
            let d = #[trigger] a.chunks()[j];
            c.addr + c.size <= d.addr || d.addr + d.size <= c.addr
        } by {
            let bi = if i < n {
                self.used@[i]
            } else {
                self.free@[i - n]
            };
            let bj = if j < n {
                self.used@[j]
            } else {
                self.free@[j - n]
            };
            assert(0 <= bi < self.blocks@.len());
            assert(0 <= bj < self.blocks@.len());
            assert(bi != bj);
            assert(a.chunks()[i].addr == self.blocks@[bi].chunk);
            assert(a.chunks()[j].addr == self.blocks@[bj].chunk);
        }
    }
}

} // verus!
