//! The chunks of a whole source, as a function of its bytes, and what holds of them.
use vstd::prelude::*;

use crate::cdc::{cut_point, roll_first, roll_second, scan, StreamCdcConfig};

verus! {

/// Hash and length of each chunk of `s`, in order. Each chunk is cut from what is left of
/// `s` after the chunks before it. (With ordered sizes a non-empty window always yields a
/// cut of at least one byte and at most its length: see `lemma_cut_bounds`.)
pub open spec fn chunks(cfg: StreamCdcConfig, s: Seq<u8>) -> Seq<(u64, nat)>
    decreases s.len(),
{
    if s.len() == 0 {
        seq![]
    } else {
        let (hash, count) = cut_point(cfg, s);
        if count == 0 || count > s.len() {
            seq![]
        } else {
            seq![(hash, count)] + chunks(cfg, s.skip(count as int))
        }
    }
}

/// The bytes of each chunk of `s`, in order.
pub open spec fn chunk_data(cfg: StreamCdcConfig, s: Seq<u8>) -> Seq<Seq<u8>>
    decreases s.len(),
{
    if s.len() == 0 {
        seq![]
    } else {
        let count = cut_point(cfg, s).1;
        if count == 0 || count > s.len() {
            seq![]
        } else {
            seq![s.take(count as int)] + chunk_data(cfg, s.skip(count as int))
        }
    }
}

/// Sum of the lengths of `cs`.
pub open spec fn total_len(cs: Seq<(u64, nat)>) -> nat
    decreases cs.len(),
{
    if cs.len() == 0 {
        0
    } else {
        cs[0].1 + total_len(cs.skip(1))
    }
}

/// The lengths of `cs`.
pub open spec fn lengths(cs: Seq<(u64, nat)>) -> Seq<nat> {
    cs.map_values(|c: (u64, nat)| c.1)
}

/// Where chunk `i` of `cs` starts: the sum of the lengths before it.
pub open spec fn offset_of(cs: Seq<(u64, nat)>, i: int) -> nat {
    total_len(cs.take(i))
}

/// What a scan returns is either a cut inside the pairs it looked at, or the fallback.
proof fn lemma_scan_bounds(
    cfg: StreamCdcConfig,
    w: Seq<u8>,
    i: nat,
    center_half: nat,
    end_half: nat,
    remaining: nat,
    hash: u64,
)
    ensures
        ({
            let r = scan(cfg, w, i, center_half, end_half, remaining, hash);
            r.1 == remaining || (2 * i <= r.1 && r.1 < 2 * end_half)
        }),
    decreases end_half - i,
{
    if i < end_half {
        let h2 = roll_second(roll_first(hash, w[2 * i as int]), w[2 * i + 1 as int]);
        lemma_scan_bounds(cfg, w, i + 1, center_half, end_half, remaining, h2);
    }
}

/// A scan reads only the bytes of the pairs it looks at.
proof fn lemma_scan_agree(
    cfg: StreamCdcConfig,
    w1: Seq<u8>,
    w2: Seq<u8>,
    i: nat,
    center_half: nat,
    end_half: nat,
    remaining: nat,
    hash: u64,
)
    requires
        forall|j: int| 0 <= j < 2 * end_half ==> w1[j] == w2[j],
    ensures
        scan(cfg, w1, i, center_half, end_half, remaining, hash) == scan(
            cfg,
            w2,
            i,
            center_half,
            end_half,
            remaining,
            hash,
        ),
    decreases end_half - i,
{
    if i < end_half {
        assert(w1[2 * i as int] == w2[2 * i as int]);
        assert(w1[2 * i + 1 as int] == w2[2 * i + 1 as int]);
        let h2 = roll_second(roll_first(hash, w1[2 * i as int]), w1[2 * i + 1 as int]);
        lemma_scan_agree(cfg, w1, w2, i + 1, center_half, end_half, remaining, h2);
    }
}

/// A scan stopped earlier, at pair `end2`, over bytes that agree below `2 * end2` and with
/// masks that agree there, finds the same cut if the longer scan cut before `2 * end2`, and
/// otherwise falls back to its own `remaining2`. The masks agree below `end2` when the two
/// centers are equal or both at least `end2`.
proof fn lemma_scan_truncate(
    cfg: StreamCdcConfig,
    w: Seq<u8>,
    w2: Seq<u8>,
    i: nat,
    center: nat,
    end: nat,
    remaining: nat,
    center2: nat,
    end2: nat,
    remaining2: nat,
    hash: u64,
)
    requires
        end2 <= end,
        2 * end <= remaining,
        forall|j: int| 0 <= j < 2 * end2 ==> w[j] == w2[j],
        center == center2 || (center >= end2 && center2 >= end2),
    ensures
        ({
            let full = scan(cfg, w, i, center, end, remaining, hash);
            let part = scan(cfg, w2, i, center2, end2, remaining2, hash);
            &&& full.1 < 2 * end2 ==> part == full
            &&& full.1 >= 2 * end2 ==> part.1 == remaining2
        }),
    decreases end2 - i,
{
    if i >= end2 {
        lemma_scan_bounds(cfg, w, i, center, end, remaining, hash);
    } else {
        assert(w[2 * i as int] == w2[2 * i as int]);
        assert(w[2 * i + 1 as int] == w2[2 * i + 1 as int]);
        assert(i < center <==> i < center2);
        let h2 = roll_second(roll_first(hash, w[2 * i as int]), w[2 * i + 1 as int]);
        lemma_scan_truncate(
            cfg,
            w,
            w2,
            i + 1,
            center,
            end,
            remaining,
            center2,
            end2,
            remaining2,
            h2,
        );
    }
}

/// Bounds on the first cut of a non-empty window.
pub proof fn lemma_cut_bounds(cfg: StreamCdcConfig, w: Seq<u8>)
    requires
        cfg.sizes_ordered(),
        w.len() > 0,
    ensures
        ({
            let c = cut_point(cfg, w).1;
            &&& 1 <= c <= w.len()
            &&& c <= cfg.max_size
            &&& w.len() <= cfg.min_size ==> c == w.len()
            &&& w.len() > cfg.min_size ==> 2 * (cfg.min_size / 2) <= c
        }),
{
    let n = w.len();
    if n > cfg.min_size {
        let remaining = if n > cfg.max_size { cfg.max_size as nat } else { n };
        let center = if cfg.avg_size < remaining { cfg.avg_size as nat } else { remaining };
        lemma_scan_bounds(cfg, w, cfg.min_size as nat / 2, center / 2, remaining / 2, remaining, 0);
    }
}

/// Once a window holds `max_size` bytes, what follows it does not change its first cut.
pub proof fn lemma_cut_prefix(cfg: StreamCdcConfig, w: Seq<u8>, r: Seq<u8>)
    requires
        cfg.sizes_ordered(),
        w.len() >= cfg.max_size,
    ensures
        cut_point(cfg, w + r) == cut_point(cfg, w),
{
    let s = w + r;
    if r.len() == 0 {
        assert(s =~= w);
    } else if w.len() > cfg.min_size {
        let remaining = cfg.max_size as nat;
        let center = cfg.avg_size as nat;
        assert forall|j: int| 0 <= j < 2 * (remaining / 2) implies s[j] == w[j] by {}
        lemma_scan_agree(cfg, s, w, cfg.min_size as nat / 2, center / 2, remaining / 2, remaining, 0);
    }
}

/// Cutting a prefix of `s` that reaches at least the first cut of `s`, and does not end
/// exactly one byte after it, gives a first chunk of the same length.
proof fn lemma_cut_truncate(cfg: StreamCdcConfig, s: Seq<u8>, len: nat)
    requires
        cfg.sizes_ordered(),
        s.len() > 0,
        cut_point(cfg, s).1 <= len <= s.len(),
        len != cut_point(cfg, s).1 + 1,
    ensures
        cut_point(cfg, s.take(len as int)).1 == cut_point(cfg, s).1,
{
    let c = cut_point(cfg, s).1;
    let n = s.len();
    let t = s.take(len as int);
    lemma_cut_bounds(cfg, s);
    if len == n {
        assert(t =~= s);
    } else if len >= cfg.max_size {
        lemma_cut_prefix(cfg, t, s.skip(len as int));
        assert(t + s.skip(len as int) =~= s);
    } else if len <= cfg.min_size {
    } else {
        let remaining = if n > cfg.max_size { cfg.max_size as nat } else { n };
        let center = if cfg.avg_size < remaining { cfg.avg_size as nat } else { remaining };
        let center2 = if cfg.avg_size < len { cfg.avg_size as nat } else { len };
        let i = cfg.min_size as nat / 2;
        lemma_scan_truncate(
            cfg,
            s,
            t,
            i,
            center / 2,
            remaining / 2,
            remaining,
            center2 / 2,
            len / 2,
            len,
            0,
        );
    }
}

/// The sum of the lengths of `x` followed by `cs`.
proof fn lemma_total_len_cons(x: (u64, nat), cs: Seq<(u64, nat)>)
    ensures
        total_len(seq![x] + cs) == x.1 + total_len(cs),
{
    assert((seq![x] + cs).skip(1) =~= cs);
}

/// Each chunk has at least one byte, so the first `k` chunks hold at least `k` bytes.
proof fn lemma_total_len_take(cfg: StreamCdcConfig, s: Seq<u8>, k: nat)
    requires
        k <= chunks(cfg, s).len(),
    ensures
        total_len(chunks(cfg, s).take(k as int)) >= k,
        k >= 1 ==> total_len(chunks(cfg, s).take(k as int)) >= chunks(cfg, s)[0].1,
    decreases s.len(),
{
    let cs = chunks(cfg, s);
    if k == 0 {
        assert(cs.take(0) =~= Seq::<(u64, nat)>::empty());
    } else {
        let c = cut_point(cfg, s);
        let rest = chunks(cfg, s.skip(c.1 as int));
        assert(cs.take(k as int) =~= seq![c] + rest.take(k - 1));
        lemma_total_len_cons(c, rest.take(k - 1));
        lemma_total_len_take(cfg, s.skip(c.1 as int), (k - 1) as nat);
    }
}

/// The first chunk of a window that holds `max_size` bytes, or all that is left of the
/// source, is the chunk that comes first in the source.
pub proof fn lemma_chunks_unfold(cfg: StreamCdcConfig, w: Seq<u8>, r: Seq<u8>)
    requires
        cfg.sizes_ordered(),
        w.len() > 0,
        w.len() >= cfg.max_size || r.len() == 0,
    ensures
        ({
            let c = cut_point(cfg, w);
            &&& 1 <= c.1 <= w.len()
            &&& chunks(cfg, w + r) == seq![c] + chunks(cfg, w.skip(c.1 as int) + r)
        }),
{
    let c = cut_point(cfg, w);
    lemma_cut_bounds(cfg, w);
    if r.len() == 0 {
        assert(w + r =~= w);
        assert(w.skip(c.1 as int) + r =~= w.skip(c.1 as int));
    } else {
        lemma_cut_prefix(cfg, w, r);
        assert((w + r).skip(c.1 as int) =~= w.skip(c.1 as int) + r);
    }
}

/// The chunks cover the source exactly: their lengths add up to its length, the bytes of
/// chunk `i` are the source bytes from the sum of the lengths before it, and the chunks'
/// bytes, concatenated in order, give back the source.
pub proof fn lemma_chunks_cover(cfg: StreamCdcConfig, s: Seq<u8>)
    requires
        cfg.sizes_ordered(),
    ensures
        total_len(chunks(cfg, s)) == s.len(),
        chunk_data(cfg, s).len() == chunks(cfg, s).len(),
        forall|i: int|
            0 <= i < chunks(cfg, s).len() ==> #[trigger] chunk_data(cfg, s)[i] == s.subrange(
                offset_of(chunks(cfg, s), i) as int,
                offset_of(chunks(cfg, s), i) + chunks(cfg, s)[i].1 as int,
            ),
        chunk_data(cfg, s).flatten() == s,
    decreases s.len(),
{
    let cs = chunks(cfg, s);
    let ds = chunk_data(cfg, s);
    if s.len() == 0 {
        assert(ds.flatten() =~= s);
    } else {
        lemma_cut_bounds(cfg, s);
        let c = cut_point(cfg, s);
        let rest = s.skip(c.1 as int);
        lemma_chunks_cover(cfg, rest);
        let rcs = chunks(cfg, rest);
        let rds = chunk_data(cfg, rest);
        lemma_total_len_cons(c, rcs);
        assert(ds.drop_first() =~= rds);
        assert(ds.flatten() =~= s);
        assert forall|i: int| 0 <= i < cs.len() implies #[trigger] ds[i] == s.subrange(
            offset_of(cs, i) as int,
            offset_of(cs, i) + cs[i].1 as int,
        ) by {
            if i == 0 {
                assert(cs.take(0) =~= Seq::<(u64, nat)>::empty());
                assert(ds[0] =~= s.subrange(0, c.1 as int));
            } else {
                assert(cs.take(i) =~= seq![c] + rcs.take(i - 1));
                lemma_total_len_cons(c, rcs.take(i - 1));
                assert(ds[i] == rds[i - 1]);
                lemma_offset_next(rcs, i - 1);
                lemma_total_len_take_le(rcs, i as nat);
                assert(offset_of(cs, i) == c.1 + offset_of(rcs, i - 1));
                assert(rds[i - 1] == rest.subrange(
                    offset_of(rcs, i - 1) as int,
                    offset_of(rcs, i - 1) + rcs[i - 1].1 as int,
                ));
                assert(ds[i] =~= s.subrange(offset_of(cs, i) as int, offset_of(cs, i) + cs[i].1 as int));
            }
        }
    }
}

/// Every chunk holds between one and `max_size` bytes; every chunk but the last holds at
/// least `min_size` bytes rounded down to an even number.
pub proof fn lemma_chunk_lengths(cfg: StreamCdcConfig, s: Seq<u8>)
    requires
        cfg.sizes_ordered(),
    ensures
        forall|i: int|
            0 <= i < chunks(cfg, s).len() ==> 1 <= #[trigger] chunks(cfg, s)[i].1 <= cfg.max_size,
        forall|i: int|
            0 <= i < chunks(cfg, s).len() - 1 ==> 2 * (cfg.min_size / 2) <= #[trigger] chunks(
                cfg,
                s,
            )[i].1,
    decreases s.len(),
{
    if s.len() > 0 {
        lemma_cut_bounds(cfg, s);
        let c = cut_point(cfg, s);
        let rest = s.skip(c.1 as int);
        lemma_chunk_lengths(cfg, rest);
        let cs = chunks(cfg, s);
        let rcs = chunks(cfg, rest);
        assert forall|i: int| 0 <= i < cs.len() implies 1 <= #[trigger] cs[i].1 <= cfg.max_size by {
            if i > 0 {
                assert(cs[i] == rcs[i - 1]);
            }
        }
        assert forall|i: int| 0 <= i < cs.len() - 1 implies 2 * (cfg.min_size / 2) <= #[trigger] cs[i].1 by {
            if i > 0 {
                assert(cs[i] == rcs[i - 1]);
            } else {
                assert(rcs.len() > 0);
                assert(rest.len() > 0);
            }
        }
    }
}

/// Splitting the source where one of its chunks ends, and chunking the two parts on their
/// own, gives the same chunk boundaries and bytes as chunking the whole source.
#[verifier::rlimit(40)]
pub proof fn lemma_boundary_local(cfg: StreamCdcConfig, s: Seq<u8>, k: nat)
    requires
        cfg.sizes_ordered(),
        k <= chunks(cfg, s).len(),
    ensures
        ({
            let at = offset_of(chunks(cfg, s), k as int) as int;
            &&& lengths(chunks(cfg, s.take(at))) + lengths(chunks(cfg, s.skip(at))) == lengths(
                chunks(cfg, s),
            )
            &&& chunk_data(cfg, s.take(at)) + chunk_data(cfg, s.skip(at)) == chunk_data(cfg, s)
        }),
    decreases k,
{
    let cs = chunks(cfg, s);
    let at = offset_of(cs, k as int) as int;
    if k == 0 {
        assert(cs.take(0) =~= Seq::<(u64, nat)>::empty());
        assert(s.take(0) =~= Seq::<u8>::empty());
        assert(s.skip(0) =~= s);
        assert(lengths(chunks(cfg, s.take(at))) =~= Seq::<nat>::empty());
        assert(lengths(chunks(cfg, s.take(at))) + lengths(chunks(cfg, s.skip(at))) =~= lengths(cs));
        assert(chunk_data(cfg, s.take(at)) + chunk_data(cfg, s.skip(at)) =~= chunk_data(cfg, s));
    } else {
        lemma_cut_bounds(cfg, s);
        lemma_chunks_cover(cfg, s);
        let c = cut_point(cfg, s);
        let rest = s.skip(c.1 as int);
        let rcs = chunks(cfg, rest);
        let at2 = offset_of(rcs, k - 1) as int;
        assert(cs.take(k as int) =~= seq![c] + rcs.take(k - 1));
        lemma_total_len_cons(c, rcs.take(k - 1));
        assert(at == c.1 + at2);
        lemma_boundary_local(cfg, rest, (k - 1) as nat);
        lemma_chunks_cover(cfg, rest);
        assert(cs.take(k as int).len() == k);
        // the prefix reaches past the first chunk
        assert(offset_of(cs, k as int) <= total_len(cs)) by {
            lemma_total_len_take_le(cs, k);
        }
        if at == s.len() {
            assert(s.take(at) =~= s);
            assert(s.skip(at) =~= Seq::<u8>::empty());
            assert(lengths(chunks(cfg, s.take(at))) + lengths(chunks(cfg, s.skip(at))) =~= lengths(cs));
            assert(chunk_data(cfg, s.take(at)) + chunk_data(cfg, s.skip(at)) =~= chunk_data(cfg, s));
        } else {
            if at2 == 1 {
                lemma_total_len_take(cfg, rest, (k - 1) as nat);
                assert(k - 1 == 1);
                assert(rcs.take(1) =~= seq![rcs[0]]);
                assert(rcs.take(1).skip(1) =~= Seq::<(u64, nat)>::empty());
                assert(rcs[0].1 == 1);
                lemma_cut_bounds(cfg, rest);
            }
            let t = s.take(at);
            lemma_cut_truncate(cfg, s, at as nat);
            let ct = cut_point(cfg, t);
            assert(t.skip(c.1 as int) =~= rest.take(at2));
            assert(s.skip(at) =~= rest.skip(at2));
            assert(chunks(cfg, t) == seq![ct] + chunks(cfg, rest.take(at2)));
            assert(lengths(chunks(cfg, t)) =~= seq![c.1] + lengths(chunks(cfg, rest.take(at2))));
            assert(lengths(cs) =~= seq![c.1] + lengths(rcs));
            assert(lengths(chunks(cfg, s.take(at))) + lengths(chunks(cfg, s.skip(at))) =~= lengths(cs));
            assert(t.take(c.1 as int) =~= s.take(c.1 as int));
            assert(chunk_data(cfg, s.take(at)) + chunk_data(cfg, s.skip(at)) =~= chunk_data(cfg, s));
        }
    }
}

/// The offset of chunk `i + 1` is that of chunk `i` plus its length.
proof fn lemma_offset_next(cs: Seq<(u64, nat)>, i: int)
    requires
        0 <= i < cs.len(),
    ensures
        offset_of(cs, i + 1) == offset_of(cs, i) + cs[i].1,
    decreases i,
{
    if i == 0 {
        assert(cs.take(1) =~= seq![cs[0]] + Seq::<(u64, nat)>::empty());
        lemma_total_len_cons(cs[0], Seq::<(u64, nat)>::empty());
        assert(cs.take(0) =~= Seq::<(u64, nat)>::empty());
    } else {
        let t = cs.skip(1);
        lemma_offset_next(t, i - 1);
        assert(cs.take(i + 1) =~= seq![cs[0]] + t.take(i));
        assert(cs.take(i) =~= seq![cs[0]] + t.take(i - 1));
        lemma_total_len_cons(cs[0], t.take(i));
        lemma_total_len_cons(cs[0], t.take(i - 1));
    }
}

/// The first `k` lengths add up to no more than all of them.
proof fn lemma_total_len_take_le(cs: Seq<(u64, nat)>, k: nat)
    requires
        k <= cs.len(),
    ensures
        total_len(cs.take(k as int)) <= total_len(cs),
    decreases k,
{
    if k > 0 {
        assert(cs.take(k as int) =~= seq![cs[0]] + cs.skip(1).take(k - 1));
        lemma_total_len_cons(cs[0], cs.skip(1).take(k - 1));
        lemma_total_len_take_le(cs.skip(1), (k - 1) as nat);
    }
}

} // verus!
