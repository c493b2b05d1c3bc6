//! The streaming chunker: a factory that validates the parameters, and a cutter that keeps a
//! read-ahead buffer and emits chunks one at a time.
//!
//! The cutter does no I/O. Its owner asks it what to do next (`step`), performs that step
//! (reads from the source, or takes a fresh buffer from the pool) and hands the result back.
use vstd::prelude::*;

use crate::cdc::{cut_point, cut_window, logarithm2, rounded_log2, StreamCdcConfig};
use crate::chunks::{chunks, lemma_chunks_unfold, total_len};
use crate::consts::{
    AVERAGE_MAX, AVERAGE_MIN, MASKS, MAXIMUM_MAX, MAXIMUM_MIN, MINIMUM_MAX, MINIMUM_MIN,
};
use crate::memory::MemoryHandle;

verus! {

/// The level of normalized chunking: higher levels pull chunk lengths closer to the average.
#[derive(Clone, Copy, PartialEq, Eq, Structural, Debug)]
pub enum Normalization {
    /// No normalization: the widest spread of chunk lengths.
    Level0,
    /// Fewer chunks far from the average.
    Level1,
    /// Most chunks near the average.
    Level2,
    /// Nearly all chunks near the average.
    Level3,
}

impl Default for Normalization {
    fn default() -> (r: Self)
        ensures
            r == Normalization::Level1,
    {
        Normalization::Level1
    }
}

impl Normalization {
    pub open spec fn spec_level(self) -> u32 {
        match self {
            Normalization::Level0 => 0,
            Normalization::Level1 => 1,
            Normalization::Level2 => 2,
            Normalization::Level3 => 3,
        }
    }

    /// The level as a number.
    #[verifier::when_used_as_spec(spec_level)]
    pub fn level(self) -> (r: u32)
        ensures
            r == self.spec_level(),
    {
        match self {
            Normalization::Level0 => 0,
            Normalization::Level1 => 1,
            Normalization::Level2 => 2,
            Normalization::Level3 => 3,
        }
    }

    /// The mask table holds the entries this level selects for `avg_size`.
    pub open spec fn fits(self, avg_size: u32) -> bool {
        &&& self.spec_level() <= rounded_log2(avg_size as nat)
        &&& rounded_log2(avg_size as nat) + self.spec_level() < 26
    }

    /// `(mask_s, mask_l)` for `avg_size`: the masks `level` entries above and below the
    /// rounded logarithm of `avg_size`.
    pub open spec fn spec_masks(self, avg_size: u32) -> (u64, u64) {
        let bits = rounded_log2(avg_size as nat);
        (MASKS[bits + self.spec_level() as int], MASKS[bits - self.spec_level()])
    }

    /// Returns `(mask_s, mask_l)`.
    pub fn masks(self, avg_size: u32) -> (r: (u64, u64))
        requires
            self.fits(avg_size),
        ensures
            r == self.spec_masks(avg_size),
    {
        let bits = logarithm2(avg_size);
        let normalization = self.level();
        let mask_s = MASKS[(bits + normalization) as usize];
        let mask_l = MASKS[(bits - normalization) as usize];
        (mask_s, mask_l)
    }
}

/// The chunk sizes lie in the accepted ranges and are ordered.
pub open spec fn sizes_valid(min_size: u32, avg_size: u32, max_size: u32) -> bool {
    &&& MINIMUM_MIN <= min_size <= MINIMUM_MAX
    &&& AVERAGE_MIN <= avg_size <= AVERAGE_MAX
    &&& MAXIMUM_MIN <= max_size <= MAXIMUM_MAX
    &&& min_size <= avg_size <= max_size
}

/// A cutter can be built from these parameters.
pub open spec fn params_valid(
    min_size: u32,
    avg_size: u32,
    max_size: u32,
    level: Normalization,
) -> bool {
    sizes_valid(min_size, avg_size, max_size) && level.fits(avg_size)
}

/// The configuration derived from valid parameters.
pub open spec fn config_for(
    min_size: u32,
    avg_size: u32,
    max_size: u32,
    level: Normalization,
) -> StreamCdcConfig {
    let (mask_s, mask_l) = level.spec_masks(avg_size);
    StreamCdcConfig {
        min_size: min_size as usize,
        avg_size: avg_size as usize,
        max_size: max_size as usize,
        mask_s,
        mask_l,
        mask_s_ls: mask_s << 1u64,
        mask_l_ls: mask_l << 1u64,
    }
}

/// Builds cutters with one validated configuration.
#[derive(Clone, Copy)]
pub struct StreamCdcFactory {
    cfg: StreamCdcConfig,
}

impl StreamCdcFactory {
    #[verifier::type_invariant]
    spec fn inv(&self) -> bool {
        self.cfg.sizes_ordered()
    }

    pub closed spec fn spec_config(&self) -> StreamCdcConfig {
        self.cfg
    }

    /// The configuration cutters of this factory use.
    #[verifier::when_used_as_spec(spec_config)]
    pub fn config(&self) -> (r: StreamCdcConfig)
        ensures
            r == self.spec_config(),
    {
        self.cfg
    }

    /// A factory for the given sizes with normalization level 1.
    pub fn new(min_size: u32, avg_size: u32, max_size: u32) -> (r: Self)
        requires
            params_valid(min_size, avg_size, max_size, Normalization::Level1),
        ensures
            r.config() == config_for(min_size, avg_size, max_size, Normalization::Level1),
    {
        StreamCdcFactory::with_level(min_size, avg_size, max_size, Normalization::Level1)
    }

    /// A factory for the given sizes and normalization level.
    pub fn with_level(min_size: u32, avg_size: u32, max_size: u32, level: Normalization) -> (r:
        Self)
        requires
            params_valid(min_size, avg_size, max_size, level),
        ensures
            r.config() == config_for(min_size, avg_size, max_size, level),
            r.config().sizes_ordered(),
    {
        let (mask_s, mask_l) = level.masks(avg_size);
        StreamCdcFactory {
            cfg: StreamCdcConfig {
                min_size: min_size as usize,
                avg_size: avg_size as usize,
                max_size: max_size as usize,
                mask_s,
                mask_l,
                mask_s_ls: mask_s << 1,
                mask_l_ls: mask_l << 1,
            },
        }
    }

    /// Like `with_level`, but returns `None` on parameters it cannot accept.
    pub fn try_with_level(min_size: u32, avg_size: u32, max_size: u32, level: Normalization) -> (r:
        Option<Self>)
        ensures
            r is Some <==> params_valid(min_size, avg_size, max_size, level),
            r matches Some(f) ==> f.config() == config_for(min_size, avg_size, max_size, level),
    {
        if !(MINIMUM_MIN <= min_size && min_size <= MINIMUM_MAX) {
            return None;
        }
        if !(AVERAGE_MIN <= avg_size && avg_size <= AVERAGE_MAX) {
            return None;
        }
        if !(MAXIMUM_MIN <= max_size && max_size <= MAXIMUM_MAX) {
            return None;
        }
        if !(min_size <= avg_size && avg_size <= max_size) {
            return None;
        }
        let bits = logarithm2(avg_size);
        let normalization = level.level();
        if !(normalization <= bits && bits + normalization < 26) {
            return None;
        }
        Some(StreamCdcFactory::with_level(min_size, avg_size, max_size, level))
    }

    /// A cutter with this factory's configuration, reading ahead into `buffer`, which must be
    /// empty and able to hold a chunk of the largest size.
    pub fn make(&self, buffer: MemoryHandle) -> (r: StreamCdc)
        requires
            buffer.wf(),
            buffer@.len() == 0,
            buffer.capacity() >= self.config().max_size,
        ensures
            r.wf(),
            r.config() == self.config(),
            r.window() == Seq::<u8>::empty(),
            !r.at_eof(),
            r.processed() == 0,
            r.consumed() == Seq::<u8>::empty(),
            r.emitted() == Seq::<(u64, nat)>::empty(),
            r.buffer_capacity() == buffer.capacity(),
            r.buffer_slot() == buffer.slot(),
    {
        proof {
            use_type_invariant(self);
        }
        let r = StreamCdc {
            cfg: self.cfg,
            buffer,
            processed: 0,
            eof: false,
            consumed: Ghost(Seq::empty()),
            emitted: Ghost(Seq::empty()),
        };
        assert forall|rest: Seq<u8>| (r.eof ==> rest.len() == 0) implies #[trigger] chunks(
            r.cfg,
            r.consumed@ + rest,
        ) == r.emitted@ + chunks(r.cfg, r.buffer@ + rest) by {
            assert(r.consumed@ + rest =~= r.buffer@ + rest);
            assert(r.emitted@ + chunks(r.cfg, r.buffer@ + rest) =~= chunks(r.cfg, r.buffer@ + rest));
        }
        assert(r.buffer@ =~= r.consumed@.skip(0));
        r
    }

    /// The largest chunk this factory's cutters emit.
    pub fn max_size(&self) -> (r: usize)
        ensures
            r == self.config().max_size,
    {
        self.cfg.max_size
    }
}

#[verifier::external_type_specification]
#[verifier::external_body]
pub struct ExIoError(std::io::Error);

/// Why a chunk stream ended early.
#[derive(Debug)]
pub enum ChunkingError {
    /// Reading from the source failed.
    IoError(std::io::Error),
    /// An internal invariant did not hold.
    Other(String),
}

/// What the owner of a cutter does next.
pub enum ChunkStep {
    /// Read from the source, at most `room()` bytes, and hand what was read to `fill_buffer`;
    /// a read of nothing means the source is exhausted.
    Fill,
    /// Take a fresh buffer from the pool and hand it, with this hash and chunk length, to
    /// `emit_chunk`.
    Emit(u64, usize),
    /// The source is exhausted and every byte of it has been emitted.
    Done,
}

/// One emitted chunk.
pub struct ChunkData {
    /// The gear hash as of the cut.
    pub hash: u64,
    /// Where the chunk starts in the source.
    pub offset: u64,
    /// The chunk's bytes, in the buffer that held them.
    pub data: MemoryHandle,
}

/// A cutter bound to one source: the configuration, the read-ahead buffer, the number of
/// bytes emitted so far and whether the source is exhausted. In ghost state it records every
/// byte it was handed and every chunk it emitted.
pub struct StreamCdc {
    cfg: StreamCdcConfig,
    /// Bytes read from the source and not yet emitted.
    buffer: MemoryHandle,
    /// Number of bytes emitted so far.
    processed: u64,
    /// True once the source produced no more data.
    eof: bool,
    consumed: Ghost<Seq<u8>>,
    emitted: Ghost<Seq<(u64, nat)>>,
}

impl StreamCdc {
    pub closed spec fn config(&self) -> StreamCdcConfig {
        self.cfg
    }

    /// The bytes read ahead and not yet emitted.
    pub closed spec fn window(&self) -> Seq<u8> {
        self.buffer@
    }

    pub closed spec fn at_eof(&self) -> bool {
        self.eof
    }

    pub closed spec fn spec_processed(&self) -> u64 {
        self.processed
    }

    /// Every byte handed to the cutter so far, in order.
    pub closed spec fn consumed(&self) -> Seq<u8> {
        self.consumed@
    }

    /// Hash and length of every chunk emitted so far, in order.
    pub closed spec fn emitted(&self) -> Seq<(u64, nat)> {
        self.emitted@
    }

    pub closed spec fn buffer_capacity(&self) -> nat {
        self.buffer.capacity()
    }

    pub closed spec fn buffer_slot(&self) -> nat {
        self.buffer.slot()
    }

    /// The cutter's invariant. The bytes not yet emitted are what was consumed past the
    /// emitted chunks; and however the source goes on (it has ended when `at_eof`), the chunks
    /// of the whole source are those emitted followed by the chunks of what is left.
    pub closed spec fn wf(&self) -> bool {
        &&& self.cfg.sizes_ordered()
        &&& self.cfg.max_size <= self.buffer.capacity()
        &&& self.buffer.wf()
        &&& self.processed == total_len(self.emitted@)
        &&& self.processed + self.buffer@.len() == self.consumed@.len()
        &&& self.buffer@ == self.consumed@.skip(self.processed as int)
        &&& forall|rest: Seq<u8>|
            (self.eof ==> rest.len() == 0) ==> #[trigger] chunks(self.cfg, self.consumed@ + rest)
                == self.emitted@ + chunks(self.cfg, self.buffer@ + rest)
    }

    /// The next step, decided from the state alone.
    pub open spec fn spec_step(&self) -> ChunkStep {
        if !self.at_eof() && self.window().len() < self.config().max_size {
            ChunkStep::Fill
        } else if self.window().len() == 0 {
            ChunkStep::Done
        } else {
            let (hash, count) = cut_point(self.config(), self.window());
            if count == 0 {
                ChunkStep::Done
            } else {
                ChunkStep::Emit(hash, count as usize)
            }
        }
    }

    /// Number of bytes emitted so far.
    #[verifier::when_used_as_spec(spec_processed)]
    pub fn processed(&self) -> (r: u64)
        ensures
            r == self.spec_processed(),
    {
        self.processed
    }

    pub fn is_eof(&self) -> (r: bool)
        ensures
            r == self.at_eof(),
    {
        self.eof
    }

    /// How many more bytes the read-ahead buffer can take.
    pub fn room(&self) -> (r: usize)
        requires
            self.wf(),
        ensures
            r == self.buffer_capacity() - self.window().len(),
    {
        self.buffer.max_len() - self.buffer.len()
    }

    /// The hash and length of the next chunk in the read-ahead buffer, `(hash, chunk_length)`.
    pub fn cut(&self) -> (r: (u64, usize))
        requires
            self.wf(),
        ensures
            (r.0, r.1 as nat) == cut_point(self.config(), self.window()),
    {
        cut_window(&self.cfg, self.buffer.as_slice())
    }

    /// Decides the next step. When it is `Done`, the chunks emitted are exactly the chunks of
    /// everything consumed.
    pub fn step(&self) -> (r: ChunkStep)
        requires
            self.wf(),
        ensures
            r == self.spec_step(),
            r matches ChunkStep::Emit(_, count) ==> 1 <= count <= self.window().len(),
            r is Done ==> self.at_eof() && self.window().len() == 0,
            r is Done ==> self.emitted() == chunks(self.config(), self.consumed()),
    {
        if !self.eof && self.buffer.len() < self.cfg.max_size {
            return ChunkStep::Fill;
        }
        if self.buffer.len() == 0 {
            assert(chunks(self.cfg, self.consumed@ + Seq::<u8>::empty()) == self.emitted@ + chunks(
                self.cfg,
                self.buffer@ + Seq::<u8>::empty(),
            ));
            assert(self.consumed@ + Seq::<u8>::empty() =~= self.consumed@);
            assert(self.emitted@ + chunks(self.cfg, self.buffer@ + Seq::<u8>::empty()) =~= self.emitted@);
            return ChunkStep::Done;
        }
        proof {
            crate::chunks::lemma_cut_bounds(self.cfg, self.buffer@);
        }
        let (hash, count) = self.cut();
        ChunkStep::Emit(hash, count)
    }

    /// Takes in the result of one read from the source: `bytes` go after the read-ahead
    /// bytes, and an empty read marks the source exhausted.
    pub fn fill_buffer(&mut self, bytes: &[u8])
        requires
            old(self).wf(),
            !old(self).at_eof(),
            old(self).window().len() < old(self).buffer_capacity(),
            old(self).window().len() + bytes@.len() <= old(self).buffer_capacity(),
        ensures
            final(self).wf(),
            final(self).window() == old(self).window() + bytes@,
            final(self).consumed() == old(self).consumed() + bytes@,
            final(self).at_eof() == (bytes@.len() == 0),
            final(self).emitted() == old(self).emitted(),
            final(self).processed() == old(self).processed(),
            final(self).config() == old(self).config(),
            final(self).buffer_capacity() == old(self).buffer_capacity(),
            final(self).buffer_slot() == old(self).buffer_slot(),
    {
        let ghost old_consumed = self.consumed@;
        let ghost old_window = self.buffer@;
        self.buffer.extend_from_slice(bytes);
        if bytes.len() == 0 {
            self.eof = true;
        }
        self.consumed = Ghost(self.consumed@ + bytes@);
        assert forall|rest: Seq<u8>| (self.eof ==> rest.len() == 0) implies #[trigger] chunks(
            self.cfg,
            self.consumed@ + rest,
        ) == self.emitted@ + chunks(self.cfg, self.buffer@ + rest) by {
            let more = bytes@ + rest;
            assert(old(self).wf());
            assert(chunks(self.cfg, old_consumed + more) == self.emitted@ + chunks(
                self.cfg,
                old_window + more,
            ));
            assert(old_consumed + more =~= self.consumed@ + rest);
            assert(old_window + more =~= self.buffer@ + rest);
        }
        assert(self.buffer@ =~= self.consumed@.skip(self.processed as int));
    }

    /// Moves the bytes after the first `count` into `fresh`, which becomes the read-ahead
    /// buffer, and returns the old buffer cut down to those `count` bytes.
    fn drain_bytes(&mut self, count: usize, fresh: MemoryHandle) -> (r: MemoryHandle)
        requires
            old(self).buffer.wf(),
            count <= old(self).buffer@.len(),
            fresh.wf(),
            fresh@.len() == 0,
            fresh.capacity() == old(self).buffer.capacity(),
        ensures
            r.wf(),
            r@ == old(self).buffer@.take(count as int),
            r.capacity() == old(self).buffer.capacity(),
            r.slot() == old(self).buffer.slot(),
            final(self).buffer.wf(),
            final(self).buffer@ == old(self).buffer@.skip(count as int),
            final(self).buffer.capacity() == fresh.capacity(),
            final(self).buffer.slot() == fresh.slot(),
            final(self).cfg == old(self).cfg,
            final(self).processed == old(self).processed,
            final(self).eof == old(self).eof,
            final(self).consumed == old(self).consumed,
            final(self).emitted == old(self).emitted,
    {
        proof {
            self.buffer.lemma_len_within_capacity();
        }
        let mut fresh = fresh;
        let tail = self.buffer.cursor_from(count);
        let mut writer = fresh.cursor_mut();
        writer.put_slice(tail.chunk());
        assert(fresh@ =~= old(self).buffer@.skip(count as int));
        std::mem::swap(&mut self.buffer, &mut fresh);
        fresh.truncate(count);
        assert(self.buffer@ =~= old(self).buffer@.skip(count as int));
        fresh
    }

    /// Emits the chunk that `step` announced, with `fresh` taking over as the read-ahead
    /// buffer. The chunk starts where the previous one ended.
    pub fn emit_chunk(&mut self, hash: u64, count: usize, fresh: MemoryHandle) -> (r: ChunkData)
        requires
            old(self).wf(),
            old(self).spec_step() == ChunkStep::Emit(hash, count),
            fresh.wf(),
            fresh@.len() == 0,
            fresh.capacity() == old(self).buffer_capacity(),
            old(self).processed() + count <= u64::MAX,
        ensures
            final(self).wf(),
            r.hash == hash,
            r.offset == old(self).processed(),
            r.offset == total_len(old(self).emitted()),
            r.data.wf(),
            r.data@ == old(self).window().take(count as int),
            r.data@ == old(self).consumed().subrange(
                old(self).processed() as int,
                old(self).processed() + count,
            ),
            r.data.capacity() == old(self).buffer_capacity(),
            r.data.slot() == old(self).buffer_slot(),
            final(self).window() == old(self).window().skip(count as int),
            final(self).processed() == old(self).processed() + count,
            final(self).emitted() == old(self).emitted().push((hash, count as nat)),
            final(self).consumed() == old(self).consumed(),
            final(self).at_eof() == old(self).at_eof(),
            final(self).config() == old(self).config(),
            final(self).buffer_capacity() == fresh.capacity(),
            final(self).buffer_slot() == fresh.slot(),
    {
        let ghost old_emitted = self.emitted@;
        let ghost old_window = self.buffer@;
        proof {
            crate::chunks::lemma_cut_bounds(self.cfg, self.buffer@);
        }
        let offset = self.processed;
        let data = self.drain_bytes(count, fresh);
        self.processed = self.processed + count as u64;
        self.emitted = Ghost(self.emitted@.push((hash, count as nat)));
        proof {
            lemma_total_len_push(old_emitted, (hash, count as nat));
        }
        assert forall|rest: Seq<u8>| (self.eof ==> rest.len() == 0) implies #[trigger] chunks(
            self.cfg,
            self.consumed@ + rest,
        ) == self.emitted@ + chunks(self.cfg, self.buffer@ + rest) by {
            assert(old(self).wf());
            assert(chunks(self.cfg, self.consumed@ + rest) == old_emitted + chunks(
                self.cfg,
                old_window + rest,
            ));
            lemma_chunks_unfold(self.cfg, old_window, rest);
            assert(self.emitted@ + chunks(self.cfg, self.buffer@ + rest) =~= old_emitted + (seq![
                (hash, count as nat),
            ] + chunks(self.cfg, self.buffer@ + rest)));
        }
        assert(self.buffer@ =~= self.consumed@.skip(self.processed as int));
        assert(data@ =~= self.consumed@.subrange(offset as int, offset + count));
        ChunkData { hash, offset, data }
    }

    /// Gives up the cutter and returns its read-ahead buffer, to go back to the pool.
    pub fn into_buffer(self) -> (r: MemoryHandle)
        requires
            self.wf(),
        ensures
            r.wf(),
            r@ == self.window(),
            r.capacity() == self.buffer_capacity(),
            r.slot() == self.buffer_slot(),
    {
        self.buffer
    }
}

/// Two cutters with the same configuration that have consumed the same bytes and both
/// reached `Done` have emitted the same chunks: the chunks of those bytes. How the source
/// was split into reads makes no difference.
pub proof fn lemma_runs_agree(a: &StreamCdc, b: &StreamCdc)
    requires
        a.wf(),
        b.wf(),
        a.config() == b.config(),
        a.consumed() == b.consumed(),
        a.spec_step() is Done,
        b.spec_step() is Done,
    ensures
        a.emitted() == b.emitted(),
        a.emitted() == chunks(a.config(), a.consumed()),
{
    lemma_done_is_complete(a);
    lemma_done_is_complete(b);
}

/// A cutter that reached `Done` has emitted the chunks of everything it consumed.
pub proof fn lemma_done_is_complete(a: &StreamCdc)
    requires
        a.wf(),
        a.spec_step() is Done,
    ensures
        a.at_eof(),
        a.window().len() == 0,
        a.emitted() == chunks(a.config(), a.consumed()),
{
    if a.buffer@.len() > 0 {
        crate::chunks::lemma_cut_bounds(a.cfg, a.buffer@);
    }
    let e = Seq::<u8>::empty();
    assert(chunks(a.cfg, a.consumed@ + e) == a.emitted@ + chunks(a.cfg, a.buffer@ + e));
    assert(a.consumed@ + e =~= a.consumed@);
    assert(a.emitted@ + chunks(a.cfg, a.buffer@ + e) =~= a.emitted@);
}

/// Appending a chunk adds its length to the total.
proof fn lemma_total_len_push(cs: Seq<(u64, nat)>, x: (u64, nat))
    ensures
        total_len(cs.push(x)) == total_len(cs) + x.1,
    decreases cs.len(),
{
    if cs.len() > 0 {
        assert(cs.push(x).skip(1) =~= cs.skip(1).push(x));
        lemma_total_len_push(cs.skip(1), x);
        assert(cs.push(x)[0] == cs[0]);
        assert(total_len(cs.push(x)) == cs[0].1 + total_len(cs.skip(1).push(x)));
        assert(total_len(cs) == cs[0].1 + total_len(cs.skip(1)));
    } else {
        assert(cs.push(x).skip(1) =~= Seq::<(u64, nat)>::empty());
        assert(total_len(cs.push(x)) == x.1 + total_len(Seq::<(u64, nat)>::empty()));
    }
}

} // verus!
