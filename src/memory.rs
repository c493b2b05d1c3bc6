//! A pool of fixed-size byte buffers handed out as exclusively owned handles.
//!
//! The pool decides which slot a request gets and keeps one occupancy bit per slot. Waiting
//! for a slot to come free, and giving a handle back when its owner is done, is left to the
//! caller: the pool never blocks.
use vstd::prelude::*;

use crate::occupancy::{
    bits_count_ones, bits_first_zero, bits_get, bits_of, bits_repeat, bits_set, count_set,
    Occupancy,
};

verus! {

/// Sizes of the buffer pool.
pub struct MemoryConfig {
    /// Number of buffers to allocate.
    pub buffer_count: usize,
    /// Size of each buffer, in bytes.
    pub buffer_size: usize,
}

impl MemoryConfig {
    /// A pool can be built from these sizes: at least two buffers of at least 1 KiB.
    pub open spec fn is_valid(&self) -> bool {
        self.buffer_count >= 2 && self.buffer_size >= 1024 && self.buffer_count <= usize::MAX / 8
    }
}

impl Default for MemoryConfig {
    /// Sixteen buffers of 16 MiB.
    fn default() -> (r: Self)
        ensures
            r.buffer_count == 16,
            r.buffer_size == 16 * 1024 * 1024,
    {
        MemoryConfig { buffer_count: 16, buffer_size: 1024 * 1024 * 16 }
    }
}

/// Exclusive ownership of one buffer slot: a byte buffer whose length never exceeds its
/// capacity.
pub struct MemoryHandle {
    max_len: usize,
    allocation_idx: usize,
    data: Vec<u8>,
}

impl View for MemoryHandle {
    type V = Seq<u8>;

    /// The initialized bytes `[0, len)` of the buffer.
    closed spec fn view(&self) -> Seq<u8> {
        self.data@
    }
}

impl MemoryHandle {
    /// The length never exceeds the capacity.
    pub closed spec fn wf(&self) -> bool {
        self.data@.len() <= self.max_len
    }

    /// The fixed capacity of the buffer.
    pub closed spec fn capacity(&self) -> nat {
        self.max_len as nat
    }

    /// The pool slot this handle owns.
    pub closed spec fn slot(&self) -> nat {
        self.allocation_idx as nat
    }

    /// A well-formed handle holds no more bytes than its capacity.
    pub proof fn lemma_len_within_capacity(&self)
        requires
            self.wf(),
        ensures
            self@.len() <= self.capacity(),
    {
    }

    /// The pool slot this handle owns.
    pub fn allocation_idx(&self) -> (r: usize)
        ensures
            r == self.slot(),
    {
        self.allocation_idx
    }

    pub fn max_len(&self) -> (r: usize)
        ensures
            r == self.capacity(),
    {
        self.max_len
    }

    pub fn len(&self) -> (r: usize)
        requires
            self.wf(),
        ensures
            r == self@.len(),
            r <= self.capacity(),
    {
        self.data.len()
    }

    /// Shrinks the buffer to its first `len` bytes.
    pub fn truncate(&mut self, len: usize)
        requires
            old(self).wf(),
            len <= old(self)@.len(),
        ensures
            final(self).wf(),
            final(self)@ == old(self)@.take(len as int),
            final(self).capacity() == old(self).capacity(),
            final(self).slot() == old(self).slot(),
    {
        self.data.truncate(len);
    }

    /// Read-only view of the bytes `[0, len)`.
    pub fn as_slice(&self) -> (r: &[u8])
        ensures
            r@ == self@,
    {
        self.data.as_slice()
    }

    /// The byte at `index`.
    pub fn get(&self, index: usize) -> (r: u8)
        requires
            index < self@.len(),
        ensures
            r == self@[index as int],
    {
        self.data[index]
    }

    /// Overwrites the byte at `index`.
    pub fn set(&mut self, index: usize, value: u8)
        requires
            old(self).wf(),
            index < old(self)@.len(),
        ensures
            final(self).wf(),
            final(self)@ == old(self)@.update(index as int, value),
            final(self).capacity() == old(self).capacity(),
            final(self).slot() == old(self).slot(),
    {
        self.data.set(index, value);
    }

    /// Writes `bytes` starting at `offset`, overwriting what is there and extending the
    /// length where the write goes past it.
    pub fn write_at(&mut self, offset: usize, bytes: &[u8])
        requires
            old(self).wf(),
            offset <= old(self)@.len(),
            offset + bytes@.len() <= old(self).capacity(),
        ensures
            final(self).wf(),
            final(self)@ == written_at(old(self)@, offset as int, bytes@),
            final(self).capacity() == old(self).capacity(),
            final(self).slot() == old(self).slot(),
    {
        let mut k: usize = 0;
        while k < bytes.len()
            invariant
                old(self).wf(),
                offset <= old(self)@.len(),
                offset + bytes@.len() <= self.max_len,
                self.max_len == old(self).capacity(),
                self.allocation_idx == old(self).slot(),
                k <= bytes@.len(),
                self.data@ == written_at(old(self)@, offset as int, bytes@.take(k as int)),
            decreases bytes@.len() - k,
        {
            let at = offset + k;
            if at < self.data.len() {
                self.data.set(at, bytes[k]);
            } else {
                self.data.push(bytes[k]);
            }
            k = k + 1;
            assert(self.data@ =~= written_at(old(self)@, offset as int, bytes@.take(k as int)));
        }
        assert(bytes@.take(bytes@.len() as int) =~= bytes@);
    }

    /// A read cursor at the start.
    pub fn cursor(&self) -> (r: MemoryCursor<'_>)
        ensures
            r.wf(),
            r.source() == self@,
            r.position() == 0,
    {
        self.cursor_from(0)
    }

    /// A read cursor at `offset`.
    pub fn cursor_from(&self, offset: usize) -> (r: MemoryCursor<'_>)
        requires
            offset <= self@.len(),
        ensures
            r.wf(),
            r.source() == self@,
            r.position() == offset,
    {
        MemoryCursor { handle: self, offset }
    }

    /// A write cursor at the start.
    pub fn cursor_mut(&mut self) -> (r: MutMemoryCursor<'_>)
        requires
            old(self).wf(),
        ensures
            r.wf(),
            r.target() == *old(self),
            r.position() == 0,
            *final(r.handle) == *final(self),
    {
        self.cursor_mut_from(0)
    }

    /// A write cursor at `offset`.
    pub fn cursor_mut_from(&mut self, offset: usize) -> (r: MutMemoryCursor<'_>)
        requires
            old(self).wf(),
            offset <= old(self)@.len(),
        ensures
            r.wf(),
            r.target() == *old(self),
            r.position() == offset,
            *final(r.handle) == *final(self),
    {
        MutMemoryCursor { handle: self, offset }
    }

    /// Appends `bytes` after the initialized prefix.
    pub fn extend_from_slice(&mut self, bytes: &[u8])
        requires
            old(self).wf(),
            old(self)@.len() + bytes@.len() <= old(self).capacity(),
        ensures
            final(self).wf(),
            final(self)@ == old(self)@ + bytes@,
            final(self).capacity() == old(self).capacity(),
            final(self).slot() == old(self).slot(),
    {
        let len = self.len();
        self.write_at(len, bytes);
        assert(written_at(old(self)@, len as int, bytes@) =~= old(self)@ + bytes@);
    }
}

/// Index of the first free slot of `occupied`.
pub open spec fn is_first_free(occupied: Seq<bool>, i: int) -> bool {
    0 <= i < occupied.len() && !occupied[i] && forall|j: int| 0 <= j < i ==> #[trigger] occupied[j]
}

/// Every slot of `occupied` is handed out.
pub open spec fn all_taken(occupied: Seq<bool>) -> bool {
    forall|j: int| 0 <= j < occupied.len() ==> #[trigger] occupied[j]
}

/// The buffer pool: `buffer_count` slots of `buffer_size` bytes and one occupancy bit per
/// slot. Its view is the occupancy: entry `i` is true while slot `i` is handed out.
pub struct MemoryManager {
    buffer_count: usize,
    buffer_size: usize,
    allocations: Occupancy,
    /// Buffers given back, kept for reuse.
    spare: Vec<Vec<u8>>,
}

impl View for MemoryManager {
    type V = Seq<bool>;

    closed spec fn view(&self) -> Seq<bool> {
        bits_of(self.allocations)
    }
}

impl MemoryManager {
    /// One occupancy entry per slot, and the sizes a pool is built with.
    pub closed spec fn wf(&self) -> bool {
        &&& bits_of(self.allocations).len() == self.buffer_count
        &&& self.buffer_count >= 2
        &&& self.buffer_size >= 1024
    }

    pub closed spec fn spec_buffer_size(&self) -> usize {
        self.buffer_size
    }

    pub closed spec fn spec_buffer_count(&self) -> usize {
        self.buffer_count
    }

    /// A pool with every slot free.
    pub fn new(config: &MemoryConfig) -> (r: Self)
        requires
            config.is_valid(),
        ensures
            r.wf(),
            r@ == Seq::new(config.buffer_count as nat, |_i: int| false),
            r.spec_buffer_count() == config.buffer_count,
            r.spec_buffer_size() == config.buffer_size,
    {
        MemoryManager {
            buffer_count: config.buffer_count,
            buffer_size: config.buffer_size,
            allocations: bits_repeat(false, config.buffer_count),
            spare: Vec::new(),
        }
    }

    #[verifier::when_used_as_spec(spec_buffer_size)]
    pub fn buffer_size(&self) -> (r: usize)
        requires
            self.wf(),
        ensures
            r == self.spec_buffer_size(),
            r >= 1024,
    {
        self.buffer_size
    }

    #[verifier::when_used_as_spec(spec_buffer_count)]
    pub fn buffer_count(&self) -> (r: usize)
        requires
            self.wf(),
        ensures
            r == self.spec_buffer_count(),
            r == self@.len(),
            r >= 2,
    {
        self.buffer_count
    }

    /// Number of handles currently handed out.
    pub fn allocations(&self) -> (r: usize)
        ensures
            r == count_set(self@),
    {
        bits_count_ones(&self.allocations)
    }

    /// Hands out the first free slot as an empty handle, or `None` when every slot is taken
    /// (the caller then waits for a handle to be given back and asks again).
    pub fn try_alloc(&mut self) -> (r: Option<MemoryHandle>)
        requires
            old(self).wf(),
        ensures
            final(self).wf(),
            final(self).spec_buffer_count() == old(self).spec_buffer_count(),
            final(self).spec_buffer_size() == old(self).spec_buffer_size(),
            old(self)@.len() == old(self).spec_buffer_count(),
            final(self)@.len() == old(self)@.len(),
            match r {
                Some(h) => {
                    &&& is_first_free(old(self)@, h.slot() as int)
                    &&& final(self)@ == old(self)@.update(h.slot() as int, true)
                    &&& h.wf()
                    &&& h@.len() == 0
                    &&& h.capacity() == old(self).spec_buffer_size()
                },
                None => all_taken(old(self)@) && final(self)@ == old(self)@,
            },
    {
        match bits_first_zero(&self.allocations) {
            None => None,
            Some(idx) => {
                bits_set(&mut self.allocations, idx, true);
                let data = match self.spare.pop() {
                    Some(buffer) => {
                        let mut buffer = buffer;
                        buffer.clear();
                        buffer
                    },
                    None => Vec::with_capacity(self.buffer_size),
                };
                Some(MemoryHandle { max_len: self.buffer_size, allocation_idx: idx, data })
            },
        }
    }

    /// Gives a handle back: its slot becomes free. Returns false, and changes nothing, when
    /// the handle does not hold a slot of this pool.
    pub fn dealloc(&mut self, handle: MemoryHandle) -> (released: bool)
        requires
            old(self).wf(),
        ensures
            final(self).wf(),
            final(self).spec_buffer_count() == old(self).spec_buffer_count(),
            final(self).spec_buffer_size() == old(self).spec_buffer_size(),
            old(self)@.len() == old(self).spec_buffer_count(),
            final(self)@.len() == old(self)@.len(),
            released == (handle.slot() < old(self)@.len() && old(self)@[handle.slot() as int]
                && handle.capacity() == old(self).spec_buffer_size()),
            released ==> final(self)@ == old(self)@.update(handle.slot() as int, false),
            !released ==> final(self)@ == old(self)@,
    {
        let idx = handle.allocation_idx;
        if idx < self.buffer_count && handle.max_len == self.buffer_size {
            if bits_get(&self.allocations, idx) {
                bits_set(&mut self.allocations, idx, false);
                self.spare.push(handle.data);
                return true;
            }
        }
        false
    }
}

/// The occupancy after handing out the slots of `taken`, in order.
pub open spec fn occupy(occupied: Seq<bool>, taken: Seq<int>) -> Seq<bool>
    decreases taken.len(),
{
    if taken.len() == 0 {
        occupied
    } else {
        occupy(occupied.update(taken[0], true), taken.skip(1))
    }
}

/// The occupancy after giving back the slots of `returned`, in order.
pub open spec fn vacate(occupied: Seq<bool>, returned: Seq<int>) -> Seq<bool>
    decreases returned.len(),
{
    if returned.len() == 0 {
        occupied
    } else {
        vacate(occupied.update(returned[0], false), returned.skip(1))
    }
}

/// The occupancy of `n` slots of which the first `k` are handed out.
pub open spec fn first_taken(n: nat, k: nat) -> Seq<bool> {
    Seq::new(n, |j: int| j < k)
}

proof fn lemma_occupy_pointwise(occupied: Seq<bool>, taken: Seq<int>)
    requires
        forall|i: int| 0 <= i < taken.len() ==> 0 <= #[trigger] taken[i] < occupied.len(),
    ensures
        occupy(occupied, taken) == Seq::new(
            occupied.len(),
            |j: int| occupied[j] || taken.contains(j),
        ),
    decreases taken.len(),
{
    if taken.len() == 0 {
        assert(occupy(occupied, taken) =~= Seq::new(
            occupied.len(),
            |j: int| occupied[j] || taken.contains(j),
        ));
    } else {
        let next = occupied.update(taken[0], true);
        let rest = taken.skip(1);
        assert forall|i: int| 0 <= i < rest.len() implies 0 <= #[trigger] rest[i] < next.len() by {
            assert(rest[i] == taken[i + 1]);
        }
        lemma_occupy_pointwise(next, rest);
        assert forall|j: int| 0 <= j < occupied.len() implies (next[j] || rest.contains(j)) == (
        occupied[j] || taken.contains(j)) by {
            if taken.contains(j) && j != taken[0] {
                let k = choose|k: int| 0 <= k < taken.len() && taken[k] == j;
                assert(rest[k - 1] == j);
            }
            if rest.contains(j) {
                let k = choose|k: int| 0 <= k < rest.len() && rest[k] == j;
                assert(taken[k + 1] == j);
            }
            if j == taken[0] {
                assert(taken.contains(j));
            }
        }
        assert(occupy(occupied, taken) =~= Seq::new(
            occupied.len(),
            |j: int| occupied[j] || taken.contains(j),
        ));
    }
}

proof fn lemma_vacate_pointwise(occupied: Seq<bool>, returned: Seq<int>)
    requires
        forall|i: int| 0 <= i < returned.len() ==> 0 <= #[trigger] returned[i] < occupied.len(),
    ensures
        vacate(occupied, returned) == Seq::new(
            occupied.len(),
            |j: int| occupied[j] && !returned.contains(j),
        ),
    decreases returned.len(),
{
    if returned.len() == 0 {
        assert(vacate(occupied, returned) =~= Seq::new(
            occupied.len(),
            |j: int| occupied[j] && !returned.contains(j),
        ));
    } else {
        let next = occupied.update(returned[0], false);
        let rest = returned.skip(1);
        assert forall|i: int| 0 <= i < rest.len() implies 0 <= #[trigger] rest[i] < next.len() by {
            assert(rest[i] == returned[i + 1]);
        }
        lemma_vacate_pointwise(next, rest);
        assert forall|j: int| 0 <= j < occupied.len() implies (next[j] && !rest.contains(j)) == (
        occupied[j] && !returned.contains(j)) by {
            if returned.contains(j) && j != returned[0] {
                let k = choose|k: int| 0 <= k < returned.len() && returned[k] == j;
                assert(rest[k - 1] == j);
            }
            if rest.contains(j) {
                let k = choose|k: int| 0 <= k < rest.len() && rest[k] == j;
                assert(returned[k + 1] == j);
            }
            if j == returned[0] {
                assert(returned.contains(j));
            }
        }
        assert(vacate(occupied, returned) =~= Seq::new(
            occupied.len(),
            |j: int| occupied[j] && !returned.contains(j),
        ));
    }
}

/// Setting a clear entry adds one to the count of set entries.
proof fn lemma_count_set_update(s: Seq<bool>, i: int)
    requires
        0 <= i < s.len(),
        !s[i],
    ensures
        count_set(s.update(i, true)) == count_set(s) + 1,
    decreases s.len(),
{
    let u = s.update(i, true);
    assert(u.drop_last() =~= if i == s.len() - 1 { s.drop_last() } else { s.drop_last().update(i, true) });
    if i < s.len() - 1 {
        lemma_count_set_update(s.drop_last(), i);
    }
}

/// Handing out distinct free slots and then giving all of them back, in any order, leaves
/// the occupancy, and so the number of handles out, as it was; while they are out, that
/// number is higher by how many there are.
pub proof fn lemma_release_restores(before: Seq<bool>, taken: Seq<int>, returned: Seq<int>)
    requires
        taken.no_duplicates(),
        forall|i: int| 0 <= i < taken.len() ==> 0 <= #[trigger] taken[i] < before.len(),
        forall|i: int| 0 <= i < taken.len() ==> !before[#[trigger] taken[i]],
        returned.to_set() == taken.to_set(),
    ensures
        count_set(occupy(before, taken)) == count_set(before) + taken.len(),
        vacate(occupy(before, taken), returned) == before,
        count_set(vacate(occupy(before, taken), returned)) == count_set(before),
    decreases taken.len(),
{
    let during = occupy(before, taken);
    lemma_occupy_pointwise(before, taken);
    assert forall|i: int| 0 <= i < returned.len() implies 0 <= #[trigger] returned[i] < during.len() by {
        assert(returned.to_set().contains(returned[i]));
        assert(taken.to_set().contains(returned[i]));
    }
    lemma_vacate_pointwise(during, returned);
    assert forall|j: int| 0 <= j < before.len() implies #[trigger] vacate(during, returned)[j] == before[j] by {
        if returned.contains(j) {
            assert(returned.to_set().contains(j));
            assert(taken.to_set().contains(j));
            let k = choose|k: int| 0 <= k < taken.len() && taken[k] == j;
            assert(!before[taken[k]]);
        } else {
            assert(!returned.to_set().contains(j));
            assert(!taken.to_set().contains(j));
        }
    }
    assert(vacate(during, returned) =~= before);
    if taken.len() > 0 {
        let next = before.update(taken[0], true);
        let rest = taken.skip(1);
        lemma_count_set_update(before, taken[0]);
        assert forall|i: int| 0 <= i < rest.len() implies 0 <= #[trigger] rest[i] < next.len() by {
            assert(rest[i] == taken[i + 1]);
        }
        assert forall|i: int| 0 <= i < rest.len() implies !next[#[trigger] rest[i]] by {
            assert(rest[i] == taken[i + 1]);
            assert(taken[i + 1] != taken[0]);
        }
        assert(rest.no_duplicates()) by {
            assert forall|a: int, b: int| 0 <= a < b < rest.len() implies rest[a] != rest[b] by {
                assert(rest[a] == taken[a + 1] && rest[b] == taken[b + 1]);
            }
        }
        lemma_release_restores(next, rest, rest);
    }
}

/// From an empty pool of `n` slots, each request takes the next slot in order: while fewer
/// than `n` are out the next request succeeds, with all `n` out it fails, and once any one
/// is given back a request succeeds again, with that slot.
pub proof fn lemma_capacity(n: nat, k: nat, back: int)
    requires
        k <= n,
        0 <= back < n,
    ensures
        first_taken(n, 0) == Seq::new(n, |_i: int| false),
        k < n ==> is_first_free(first_taken(n, k), k as int),
        k < n ==> first_taken(n, k).update(k as int, true) == first_taken(n, k + 1),
        all_taken(first_taken(n, n)),
        is_first_free(first_taken(n, n).update(back, false), back),
{
    assert(first_taken(n, 0) =~= Seq::new(n, |_i: int| false));
    if k < n {
        assert(first_taken(n, k).update(k as int, true) =~= first_taken(n, k + 1));
    }
}

/// A read cursor over the initialized bytes of a handle.
pub struct MemoryCursor<'buf> {
    handle: &'buf MemoryHandle,
    offset: usize,
}

impl<'buf> MemoryCursor<'buf> {
    /// The bytes the cursor reads from.
    pub closed spec fn source(&self) -> Seq<u8> {
        self.handle@
    }

    /// Where the cursor stands.
    pub closed spec fn position(&self) -> nat {
        self.offset as nat
    }

    pub closed spec fn wf(&self) -> bool {
        self.offset <= self.handle@.len()
    }

    /// Number of bytes left to read.
    pub fn remaining(&self) -> (r: usize)
        requires
            self.wf(),
        ensures
            r == self.source().len() - self.position(),
    {
        self.handle.data.len() - self.offset
    }

    /// The bytes left to read.
    pub fn chunk(&self) -> (r: &[u8])
        requires
            self.wf(),
        ensures
            r@ == self.source().skip(self.position() as int),
    {
        let (_, rest) = self.handle.data.as_slice().split_at(self.offset);
        rest
    }

    /// Skips `cnt` bytes.
    pub fn advance(&mut self, cnt: usize)
        requires
            old(self).wf(),
            old(self).position() + cnt <= old(self).source().len(),
        ensures
            final(self).wf(),
            final(self).source() == old(self).source(),
            final(self).position() == old(self).position() + cnt,
    {
        let len = self.handle.data.len();
        assert(self.offset + cnt <= len);
        self.offset = self.offset + cnt;
    }
}

/// A write cursor over a handle: it writes from its position on, into the uninitialized
/// tail too, extending the handle's length as it goes.
pub struct MutMemoryCursor<'buf> {
    /// The handle written to.
    pub handle: &'buf mut MemoryHandle,
    /// Where the next write goes.
    pub offset: usize,
}

impl<'buf> MutMemoryCursor<'buf> {
    /// The handle as it stands now.
    pub open spec fn target(&self) -> MemoryHandle {
        *self.handle
    }

    pub open spec fn position(&self) -> nat {
        self.offset as nat
    }

    pub open spec fn wf(&self) -> bool {
        self.handle.wf() && self.offset <= self.handle@.len()
    }

    /// Room left between the position and the capacity.
    pub fn remaining_mut(&self) -> (r: usize)
        requires
            self.wf(),
        ensures
            r == self.target().capacity() - self.position(),
    {
        self.handle.max_len - self.offset
    }

    /// Writes `bytes` at the position and moves past them.
    pub fn put_slice(&mut self, bytes: &[u8])
        requires
            old(self).wf(),
            old(self).position() + bytes@.len() <= old(self).target().capacity(),
        ensures
            final(self).wf(),
            final(self).target()@ == written_at(
                old(self).target()@,
                old(self).position() as int,
                bytes@,
            ),
            final(self).target().capacity() == old(self).target().capacity(),
            final(self).target().slot() == old(self).target().slot(),
            final(self).position() == old(self).position() + bytes@.len(),
            *final(final(self).handle) == *final(old(self).handle),
    {
        self.handle.write_at(self.offset, bytes);
        self.offset = self.offset + bytes.len();
    }
}

/// `s` with `bytes` written from position `offset` on (`offset <= s.len()`), extended where
/// the write goes past its end.
pub open spec fn written_at(s: Seq<u8>, offset: int, bytes: Seq<u8>) -> Seq<u8> {
    let end = if offset + bytes.len() > s.len() { offset + bytes.len() } else { s.len() as int };
    Seq::new(
        end as nat,
        |i: int|
            if offset <= i < offset + bytes.len() {
                bytes[i - offset]
            } else {
                s[i]
            },
    )
}

} // verus!
