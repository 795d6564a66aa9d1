//! The allocator of the module's linear memory. Every block carries its
//! total size in the eight bytes in front of it. Memory is handed out from
//! the break upwards and what is freed is not handed out again.

use vstd::prelude::*;
use vstd::bytes::{
    lemma_auto_spec_u64_to_from_le_bytes, spec_u64_from_le_bytes, spec_u64_to_le_bytes,
    u64_from_le_bytes, u64_to_le_bytes,
};
use vstd::slice::slice_subrange;

verus! {

/// Every block starts at a multiple of this.
pub const ALIGN: usize = 8;

/// The size of the header in front of each block.
pub const HEADER: usize = 8;

/// `n` rounded up to a multiple of `ALIGN`.
pub open spec fn padded(n: int) -> int {
    if n % 8 == 0 {
        n
    } else {
        n + 8 - n % 8
    }
}

/// One call on a heap, with what it handed back.
pub enum HeapStep {
    Malloc { size: usize, got: usize },
    Free { p: usize },
    Realloc { p: usize, size: usize, got: usize },
    Store { p: usize, offset: int, byte: u8 },
}

/// What a call makes of the live blocks: `before` and `after` map the
/// address of each live block to its bytes.
pub open spec fn step(
    before: Map<usize, Seq<u8>>,
    call: HeapStep,
    after: Map<usize, Seq<u8>>,
) -> bool {
    match call {
        HeapStep::Malloc { size, got } => if got == 0 {
            after == before
        } else {
            &&& !before.contains_key(got)
            &&& after[got].len() == size
            &&& after == before.insert(got, after[got])
        },
        HeapStep::Free { p } => before.contains_key(p) && after == before.remove(p),
        HeapStep::Realloc { p, size, got } => if got == 0 {
            after == before
        } else if p == 0 {
            &&& !before.contains_key(got)
            &&& after[got].len() == size
            &&& after == before.insert(got, after[got])
        } else {
            &&& before.contains_key(p)
            &&& !before.contains_key(got)
            &&& after[got].len() == size
            &&& after == before.remove(p).insert(got, after[got])
            &&& forall|i: int|
                0 <= i < size && i < before[p].len() ==> after[got][i] == before[p][i]
        },
        HeapStep::Store { p, offset, byte } => {
            &&& before.contains_key(p)
            &&& 0 <= offset < before[p].len()
            &&& after == before.insert(p, before[p].update(offset, byte))
        },
    }
}

/// Whether a call leaves the block at `p` alone: it neither frees it, nor
/// resizes it with success, nor writes into it.
pub open spec fn spares(call: HeapStep, p: usize) -> bool {
    match call {
        HeapStep::Malloc { .. } => true,
        HeapStep::Free { p: freed } => freed != p,
        HeapStep::Realloc { p: resized, got, .. } => resized != p || got == 0,
        HeapStep::Store { p: written, .. } => written != p,
    }
}

/// Through any sequence of calls a block stays live with every one of its
/// bytes as long as no call frees it, resizes it with success or writes
/// into it: `states` are the live blocks before, between and after the
/// calls `calls`, and what is said of the block at `p` in the state `from`
/// holds of it in every later state `to`. A resize that fails is among the
/// calls that leave the block alone.
pub proof fn lemma_block_survives(
    states: Seq<Map<usize, Seq<u8>>>,
    calls: Seq<HeapStep>,
    p: usize,
    from: int,
    to: int,
)
    requires
        states.len() == calls.len() + 1,
        forall|k: int| 0 <= k < calls.len() ==> step(states[k], #[trigger] calls[k], states[k + 1]),
        0 <= from <= to <= calls.len(),
        states[from].contains_key(p),
        forall|k: int| from <= k < to ==> spares(#[trigger] calls[k], p),
    ensures
        states[to].contains_key(p),
        states[to][p] == states[from][p],
    decreases to - from,
{
    if from < to {
        lemma_block_survives(states, calls, p, from, to - 1);
        assert(step(states[to - 1], calls[to - 1], states[to]));
        assert(spares(calls[to - 1], p));
    }
}

/// A linear memory with its allocator. The view maps the address of each
/// live block to the bytes in it.
pub struct Heap {
    mem: Vec<u8>,
    limit: usize,
    live: Ghost<Map<usize, nat>>,
    log: Ghost<Seq<(usize, nat)>>,
}

impl View for Heap {
    type V = Map<usize, Seq<u8>>;

    closed spec fn view(&self) -> Map<usize, Seq<u8>> {
        Map::new(
            |p: usize| self.live@.contains_key(p),
            |p: usize| self.mem@.subrange(p as int, p + self.live@[p]),
        )
    }
}

impl Heap {
    /// The break: the first address that was never handed out.
    pub closed spec fn brk(&self) -> nat {
        self.mem@.len()
    }

    /// The size of the memory.
    pub closed spec fn limit(&self) -> nat {
        self.limit as nat
    }

    /// What has been given back so far, in order: for each block the address
    /// of its header and the number of bytes that went, header included.
    pub closed spec fn given_back(&self) -> Seq<(usize, nat)> {
        self.log@
    }

    /// Whether a block of `size` bytes and its header still fit between the
    /// break and the end of the memory.
    pub open spec fn has_room(&self, size: usize) -> bool {
        self.brk() + padded(size + HEADER) <= self.limit()
    }

    /// The total size that the header of the live block at `p` holds.
    pub closed spec fn header(&self, p: usize) -> u64 {
        spec_u64_from_le_bytes(self.mem@.subrange(p - HEADER, p as int))
    }

    /// The break lies within the memory, and every live block lies below it
    /// behind a header that holds its total size, apart from all others.
    pub closed spec fn wf(&self) -> bool {
        &&& self.mem@.len() <= self.limit
        &&& self.mem@.len() % 8 == 0
        &&& forall|p: usize| #[trigger]
            self.live@.contains_key(p) ==> {
                &&& HEADER <= p
                &&& p % ALIGN == 0
                &&& p + self.live@[p] <= self.mem@.len()
                &&& self.mem@.subrange(p - HEADER, p as int) == spec_u64_to_le_bytes(
                    (self.live@[p] + HEADER) as u64,
                )
            }
        &&& forall|p: usize, q: usize|
            #![trigger self.live@.contains_key(p), self.live@.contains_key(q)]
            self.live@.contains_key(p) && self.live@.contains_key(q) && p != q ==> p
                + self.live@[p] <= q - HEADER || q + self.live@[q] <= p - HEADER
    }

    /// A memory of `limit` bytes with nothing allocated in it.
    pub fn new(limit: usize) -> (heap: Self)
        ensures
            heap.wf(),
            heap@ == Map::<usize, Seq<u8>>::empty(),
            heap.brk() == 0,
            heap.limit() == limit,
            heap.given_back() == Seq::<(usize, nat)>::empty(),
    {
        let heap = Heap {
            mem: Vec::new(),
            limit,
            live: Ghost(Map::empty()),
            log: Ghost(Seq::empty()),
        };
        proof {
            assert(heap@ =~= Map::<usize, Seq<u8>>::empty());
        }
        heap
    }

    /// Live blocks lie apart, headers included: between two of them no byte
    /// is shared. No block lies at the null address, and every block starts
    /// at a multiple of the alignment with its header in front of it, which
    /// holds the size of the block and the header together.
    pub proof fn lemma_live_blocks(&self, p: usize, q: usize)
        requires
            self.wf(),
            self@.contains_key(p),
        ensures
            HEADER <= p,
            p % ALIGN == 0,
            p + self@[p].len() <= self.brk() <= self.limit(),
            self.header(p) == self@[p].len() + HEADER,
            self@.contains_key(q) && p != q ==> p + self@[p].len() <= q - HEADER || q
                + self@[q].len() <= p - HEADER,
    {
        lemma_auto_spec_u64_to_from_le_bytes();
        assert(self.live@.contains_key(p));
        if self@.contains_key(q) {
            assert(self.live@.contains_key(q));
        }
    }

    /// Takes `total` bytes at the break, if the memory has that many left
    /// behind it, and moves the break to the next multiple of the alignment.
    fn grow(&mut self, total: usize) -> (base: Option<usize>)
        requires
            old(self).wf(),
            HEADER <= total,
        ensures
            final(self).wf(),
            final(self).limit == old(self).limit,
            final(self).live == old(self).live,
            final(self).log == old(self).log,
            final(self)@ == old(self)@,
            old(self).brk() + padded(total as int) <= old(self).limit() <==> base is Some,
            base is None ==> final(self).mem@ == old(self).mem@,
            base matches Some(b) ==> {
                &&& b == old(self).brk()
                &&& final(self).brk() == b + padded(total as int)
                &&& final(self).mem@.subrange(0, b as int) == old(self).mem@
            },
    {
        let base = self.mem.len();
        let room = self.limit - base;
        let rest = total % 8;
        let pad = if rest == 0 {
            0
        } else {
            8 - rest
        };
        if total > room || pad > room - total {
            return None;
        }
        let top = base + total + pad;
        self.mem.resize(top, 0u8);
        proof {
            assert(self@ =~= old(self)@) by {
                assert forall|p: usize| self.live@.contains_key(p) implies self.mem@.subrange(
                    p as int,
                    p + self.live@[p],
                ) == old(self).mem@.subrange(p as int, p + self.live@[p]) by {
                    assert(old(self).live@.contains_key(p));
                    assert(self.mem@.subrange(p as int, p + self.live@[p]) =~= self.mem@.subrange(
                        0,
                        base as int,
                    ).subrange(p as int, p + self.live@[p]));
                }
            }
            assert forall|p: usize| #[trigger] self.live@.contains_key(p) implies {
                &&& HEADER <= p
                &&& p % ALIGN == 0
                &&& p + self.live@[p] <= self.mem@.len()
                &&& self.mem@.subrange(p - HEADER, p as int) == spec_u64_to_le_bytes(
                    (self.live@[p] + HEADER) as u64,
                )
            } by {
                assert(old(self).live@.contains_key(p));
                assert(self.mem@.subrange(p - HEADER, p as int) =~= self.mem@.subrange(
                    0,
                    base as int,
                ).subrange(p - HEADER, p as int));
            }
        }
        Some(base)
    }

    /// Writes `total` as the header of the block whose header starts at
    /// `base`.
    fn write_header(&mut self, base: usize, total: usize)
        requires
            base + HEADER <= old(self).mem@.len(),
        ensures
            final(self).limit == old(self).limit,
            final(self).live == old(self).live,
            final(self).log == old(self).log,
            final(self).mem@.len() == old(self).mem@.len(),
            final(self).mem@.subrange(base as int, base + HEADER) == spec_u64_to_le_bytes(
                total as u64,
            ),
            forall|i: int|
                0 <= i < old(self).mem@.len() && !(base <= i < base + HEADER)
                    ==> final(self).mem@[i] == old(self).mem@[i],
    {
        let bytes = u64_to_le_bytes(total as u64);
        let len = self.mem.len();
        let mut i: usize = 0;
        while i < 8
            invariant
                i <= 8,
                bytes@.len() == 8,
                base + HEADER <= len,
                len == self.mem@.len(),
                self.limit == old(self).limit,
                self.live == old(self).live,
                self.log == old(self).log,
                self.mem@.len() == old(self).mem@.len(),
                forall|k: int| 0 <= k < i ==> self.mem@[base + k] == bytes@[k],
                forall|k: int|
                    0 <= k < old(self).mem@.len() && !(base <= k < base + HEADER)
                        ==> self.mem@[k] == old(self).mem@[k],
            decreases 8 - i,
        {
            self.mem[base + i] = bytes[i];
            i = i + 1;
        }
        proof {
            assert(self.mem@.subrange(base as int, base + HEADER) =~= bytes@);
        }
    }

    /// Reads the header of the live block at `p`.
    fn read_header(&self, p: usize) -> (total: usize)
        requires
            self.wf(),
            self@.contains_key(p),
        ensures
            total == self@[p].len() + HEADER,
    {
        proof {
            self.lemma_live_blocks(p, p);
            assert(self.live@.contains_key(p));
        }
        let total = u64_from_le_bytes(slice_subrange(self.mem.as_slice(), p - HEADER, p));
        total as usize
    }

    /// The size in bytes of the live block at `p`.
    pub fn size_of(&self, p: usize) -> (size: usize)
        requires
            self.wf(),
            self@.contains_key(p),
        ensures
            size == self@[p].len(),
    {
        self.read_header(p) - HEADER
    }

    /// The byte at `offset` of the live block at `p`.
    pub fn load(&self, p: usize, offset: usize) -> (byte: u8)
        requires
            self.wf(),
            self@.contains_key(p),
            offset < self@[p].len(),
        ensures
            byte == self@[p][offset as int],
    {
        proof {
            assert(self.live@.contains_key(p));
        }
        self.mem[p + offset]
    }

    /// Writes `byte` at `offset` of the live block at `p`. No other byte of
    /// any live block changes.
    pub fn store(&mut self, p: usize, offset: usize, byte: u8)
        requires
            old(self).wf(),
            old(self)@.contains_key(p),
            offset < old(self)@[p].len(),
        ensures
            final(self).wf(),
            final(self).brk() == old(self).brk(),
            final(self).limit() == old(self).limit(),
            final(self).given_back() == old(self).given_back(),
            final(self)@ == old(self)@.insert(p, old(self)@[p].update(offset as int, byte)),
            step(
                old(self)@,
                HeapStep::Store { p, offset: offset as int, byte },
                final(self)@,
            ),
    {
        proof {
            assert(self.live@.contains_key(p));
        }
        self.mem[p + offset] = byte;
        proof {
            let at = p + offset;
            assert forall|q: usize| #[trigger] self.live@.contains_key(q) implies {
                &&& HEADER <= q
                &&& q % ALIGN == 0
                &&& q + self.live@[q] <= self.mem@.len()
                &&& self.mem@.subrange(q - HEADER, q as int) == spec_u64_to_le_bytes(
                    (self.live@[q] + HEADER) as u64,
                )
            } by {
                assert(old(self).live@.contains_key(q));
                assert(old(self).live@.contains_key(p));
                assert(self.mem@.subrange(q - HEADER, q as int) =~= old(self).mem@.subrange(
                    q - HEADER,
                    q as int,
                ));
            }
            assert(self@ =~= old(self)@.insert(p, old(self)@[p].update(offset as int, byte))) by {
                assert forall|q: usize| self.live@.contains_key(q) implies self@[q] == old(
                    self,
                )@.insert(p, old(self)@[p].update(offset as int, byte))[q] by {
                    assert(old(self).live@.contains_key(q));
                    assert(old(self).live@.contains_key(p));
                    if q == p {
                        assert(self@[q] =~= old(self)@[p].update(offset as int, byte));
                    } else {
                        assert(self@[q] =~= old(self)@[q]);
                    }
                }
            }
        }
    }
}

/// The number of bytes that a block of `size` bytes takes with its header,
/// if that number can be counted.
pub fn block_total(size: usize) -> (total: Option<usize>)
    ensures
        total == (if size + HEADER <= usize::MAX {
            Some((size + HEADER) as usize)
        } else {
            None
        }),
{
    if size > usize::MAX - HEADER {
        None
    } else {
        Some(size + HEADER)
    }
}

/// Allocates a block of `size` bytes: takes `size + 8` bytes at the break,
/// writes that total into the first eight of them and hands back the address
/// behind them. Hands back the null address, and changes nothing, exactly if
/// the memory has no room for the block. What the fresh block holds is not
/// said. Every block that was live stays live and keeps its bytes.
pub fn malloc(heap: &mut Heap, size: usize) -> (p: usize)
    requires
        old(heap).wf(),
    ensures
        final(heap).wf(),
        final(heap).limit() == old(heap).limit(),
        final(heap).given_back() == old(heap).given_back(),
        step(old(heap)@, HeapStep::Malloc { size, got: p }, final(heap)@),
        p != 0 <==> old(heap).has_room(size),
        p == 0 ==> final(heap)@ == old(heap)@ && final(heap).brk() == old(heap).brk(),
        p != 0 ==> {
            &&& p == old(heap).brk() + HEADER
            &&& final(heap).brk() == old(heap).brk() + padded(size + HEADER)
            &&& !old(heap)@.contains_key(p)
            &&& final(heap)@[p].len() == size
            &&& final(heap)@ == old(heap)@.insert(p, final(heap)@[p])
        },
{
    let new_size = match block_total(size) {
        Some(total) => total,
        None => {
            return 0;
        },
    };
    let base = match heap.grow(new_size) {
        Some(base) => base,
        None => {
            return 0;
        },
    };
    let ghost grown = *heap;
    heap.write_header(base, new_size);
    let p = base + HEADER;
    proof {
        assert(!old(heap).live@.contains_key(p));
        heap.live@ = heap.live@.insert(p, size as nat);
        assert forall|q: usize| #[trigger] heap.live@.contains_key(q) implies {
            &&& HEADER <= q
            &&& q % ALIGN == 0
            &&& q + heap.live@[q] <= heap.mem@.len()
            &&& heap.mem@.subrange(q - HEADER, q as int) == spec_u64_to_le_bytes(
                (heap.live@[q] + HEADER) as u64,
            )
        } by {
            if q != p {
                assert(grown.live@.contains_key(q));
                assert(old(heap).live@.contains_key(q));
                assert(heap.mem@.subrange(q - HEADER, q as int) =~= grown.mem@.subrange(
                    q - HEADER,
                    q as int,
                ));
            }
        }
        assert forall|a: usize, b: usize|
            #![trigger heap.live@.contains_key(a), heap.live@.contains_key(b)]
            heap.live@.contains_key(a) && heap.live@.contains_key(b) && a != b implies a
            + heap.live@[a] <= b - HEADER || b + heap.live@[b] <= a - HEADER by {
            if a != p {
                assert(old(heap).live@.contains_key(a));
            }
            if b != p {
                assert(old(heap).live@.contains_key(b));
            }
        }
        assert(heap@ =~= old(heap)@.insert(p, heap@[p])) by {
            assert forall|q: usize| old(heap).live@.contains_key(q) implies heap@[q] == old(
                heap,
            )@[q] by {
                assert(heap.mem@.subrange(q as int, q + heap.live@[q]) =~= old(
                    heap,
                ).mem@.subrange(q as int, q + old(heap).live@[q]));
            }
        }
    }
    p
}

/// Frees the live block at `p`: reads its total size from the header in
/// front of it and gives exactly that many bytes back. Every other block
/// stays live and keeps its bytes.
pub fn free(heap: &mut Heap, p: usize)
    requires
        old(heap).wf(),
        old(heap)@.contains_key(p),
    ensures
        final(heap).wf(),
        final(heap).brk() == old(heap).brk(),
        final(heap).limit() == old(heap).limit(),
        final(heap)@ == old(heap)@.remove(p),
        final(heap).given_back() == old(heap).given_back().push(
            ((p - HEADER) as usize, old(heap).header(p) as nat),
        ),
        old(heap).header(p) == old(heap)@[p].len() + HEADER,
        step(old(heap)@, HeapStep::Free { p }, final(heap)@),
{
    proof {
        heap.lemma_live_blocks(p, p);
    }
    let size = heap.read_header(p);
    heap.give_back(p - HEADER, size);
}

impl Heap {
    /// Gives the `total` bytes from `base` on back. They are the whole of one
    /// live block with its header.
    fn give_back(&mut self, base: usize, total: usize)
        requires
            old(self).wf(),
            base + HEADER <= usize::MAX,
            old(self)@.contains_key((base + HEADER) as usize),
            total == old(self)@[(base + HEADER) as usize].len() + HEADER,
        ensures
            final(self).wf(),
            final(self).brk() == old(self).brk(),
            final(self).limit() == old(self).limit(),
            final(self)@ == old(self)@.remove((base + HEADER) as usize),
            final(self).given_back() == old(self).given_back().push((base, total as nat)),
    {
        proof {
            let p = (base + HEADER) as usize;
            self.live@ = self.live@.remove(p);
            self.log@ = self.log@.push((base, total as nat));
            assert forall|q: usize| #[trigger] self.live@.contains_key(q) implies {
                &&& HEADER <= q
                &&& q % ALIGN == 0
                &&& q + self.live@[q] <= self.mem@.len()
                &&& self.mem@.subrange(q - HEADER, q as int) == spec_u64_to_le_bytes(
                    (self.live@[q] + HEADER) as u64,
                )
            } by {
                assert(old(self).live@.contains_key(q));
            }
            assert forall|a: usize, b: usize|
                #![trigger self.live@.contains_key(a), self.live@.contains_key(b)]
                self.live@.contains_key(a) && self.live@.contains_key(b) && a != b implies a
                + self.live@[a] <= b - HEADER || b + self.live@[b] <= a - HEADER by {
                assert(old(self).live@.contains_key(a));
                assert(old(self).live@.contains_key(b));
            }
            assert(self@ =~= old(self)@.remove(p));
        }
    }
}

/// Resizes the block at `p` to `new_size` bytes. With the null address for
/// `p` this is `malloc`. Otherwise a block of the new size is taken at the
/// break; if there is room for it, it gets its header and the bytes of the
/// old block, as many as both hold, the old block is given up for it, and its
/// address is handed back. If there is no room, the null address is handed
/// back and the old block stays live with all its bytes.
pub fn realloc(heap: &mut Heap, p: usize, new_size: usize) -> (q: usize)
    requires
        old(heap).wf(),
        p != 0 ==> old(heap)@.contains_key(p),
    ensures
        final(heap).wf(),
        final(heap).limit() == old(heap).limit(),
        step(old(heap)@, HeapStep::Realloc { p, size: new_size, got: q }, final(heap)@),
        final(heap).given_back() == (if p != 0 && q != 0 {
            old(heap).given_back().push(
                ((p - HEADER) as usize, (old(heap)@[p].len() + HEADER) as nat),
            )
        } else {
            old(heap).given_back()
        }),
        q != 0 <==> old(heap).has_room(new_size),
        q == 0 ==> final(heap)@ == old(heap)@ && final(heap).brk() == old(heap).brk(),
        q != 0 ==> {
            &&& q == old(heap).brk() + HEADER
            &&& final(heap).brk() == old(heap).brk() + padded(new_size + HEADER)
            &&& !old(heap)@.contains_key(q)
            &&& final(heap)@[q].len() == new_size
            &&& final(heap)@ == (if p == 0 {
                old(heap)@
            } else {
                old(heap)@.remove(p)
            }).insert(q, final(heap)@[q])
            &&& p != 0 ==> forall|i: int|
                0 <= i < new_size && i < old(heap)@[p].len() ==> final(heap)@[q][i] == old(
                    heap,
                )@[p][i]
        },
{
    if p == 0 {
        return malloc(heap, new_size);
    }
    let old_total = heap.read_header(p);
    let old_size = old_total - HEADER;
    let q = malloc(heap, new_size);
    if q == 0 {
        return 0;
    }
    let ghost fresh = *heap;
    proof {
        assert(fresh@.contains_key(p));
        assert(fresh@[p] == old(heap)@[p]);
        fresh.lemma_live_blocks(p, q);
        fresh.lemma_live_blocks(q, p);
    }
    let n = if old_size < new_size {
        old_size
    } else {
        new_size
    };
    let mut i: usize = 0;
    while i < n
        invariant
            i <= n,
            n <= old_size,
            n <= new_size,
            old_size == old(heap)@[p].len(),
            p != q,
            heap.wf(),
            heap.brk() == fresh.brk(),
            heap.limit() == fresh.limit(),
            heap.given_back() == old(heap).given_back(),
            heap@.contains_key(p),
            heap@.contains_key(q),
            heap@[q].len() == new_size,
            heap@[p] == old(heap)@[p],
            heap@ == old(heap)@.insert(q, heap@[q]),
            forall|k: int| 0 <= k < i ==> heap@[q][k] == old(heap)@[p][k],
        decreases n - i,
    {
        let byte = heap.load(p, i);
        let ghost before = heap@;
        heap.store(q, i, byte);
        proof {
            assert(heap@ =~= old(heap)@.insert(q, heap@[q]));
        }
        i = i + 1;
    }
    let ghost copied = heap@;
    heap.give_back(p - HEADER, old_total);
    proof {
        assert(heap@ =~= old(heap)@.remove(p).insert(q, heap@[q]));
    }
    q
}

} // verus!
