//! The FastCDC 2020 cut-point algorithm and the parameters it derives from a configuration.
use vstd::prelude::*;

use crate::consts::GEAR;

verus! {

/// Four to the power `k`.
pub open spec fn pow4(k: nat) -> nat
    decreases k,
{
    if k == 0 {
        1
    } else {
        4 * pow4((k - 1) as nat)
    }
}

/// `k` is `log2(v)` rounded to the nearest integer: `2^(k - 1/2) <= v < 2^(k + 1/2)`,
/// which, squared and doubled, reads `4^k <= 2 v^2 < 4^(k + 1)`.
/// (`log2(v)` is never exactly halfway between two integers for a whole `v`.)
pub open spec fn is_rounded_log2(v: nat, k: nat) -> bool {
    pow4(k) <= 2 * (v * v) < 4 * pow4(k)
}

/// The largest `k` with `4^k <= x` (zero for `x < 4`).
pub open spec fn log4_floor(x: nat) -> nat
    decreases x,
{
    if x < 4 {
        0
    } else {
        1 + log4_floor(x / 4)
    }
}

/// `log2(v)` rounded to the nearest integer, as `floor(log4(2 v^2))`; zero for zero.
pub open spec fn rounded_log2(v: nat) -> nat {
    log4_floor(2 * (v * v))
}

proof fn lemma_log4_floor(x: nat, k: nat)
    requires
        pow4(k) <= x < 4 * pow4(k),
    ensures
        log4_floor(x) == k,
    decreases k,
{
    if k > 0 {
        lemma_pow4_grows(0, (k - 1) as nat);
        lemma_log4_floor(x / 4, (k - 1) as nat);
    }
}

proof fn lemma_pow4_grows(a: nat, b: nat)
    requires
        a <= b,
    ensures
        1 <= pow4(a) <= pow4(b),
    decreases b,
{
    if b > 0 {
        if a == b {
            lemma_pow4_grows((b - 1) as nat, (b - 1) as nat);
        } else {
            lemma_pow4_grows(a, (b - 1) as nat);
        }
    }
}

/// For `v >= 1`, the `k` with `2^(k - 1/2) <= v < 2^(k + 1/2)`, that is `log2(v)` rounded to
/// the nearest integer, is `rounded_log2(v)`, and no other.
pub proof fn lemma_rounded_log2(v: nat, k: nat)
    requires
        v >= 1,
        is_rounded_log2(v, k),
    ensures
        rounded_log2(v) == k,
{
    lemma_log4_floor(2 * (v * v), k);
}

/// Rounded base-2 logarithm of `value`; zero for zero.
pub fn logarithm2(value: u32) -> (r: u32)
    ensures
        r == rounded_log2(value as nat),
        r <= 32,
        value >= 1 ==> is_rounded_log2(value as nat, r as nat),
        value == 0 ==> r == 0,
{
    let v = value as u128;
    assert(v * v <= 0xffff_ffff * 0xffff_ffff) by (nonlinear_arith)
        requires v <= 0xffff_ffff;
    let twice_square: u128 = 2 * (v * v);
    let mut k: u32 = 0;
    let mut p: u128 = 1;
    while p * 4 <= twice_square
        invariant
            twice_square == 2 * ((value as nat) * (value as nat)),
            twice_square < 0x2_0000_0000_0000_0000u128,
            p == pow4(k as nat),
            k > 0 ==> p <= twice_square,
            k <= 32,
        decreases twice_square - p,
    {
        proof {
            lemma_pow4_grows(0, k as nat);
            reveal_with_fuel(pow4, 34);
            assert(pow4(33) == 0x4_0000_0000_0000_0000u128);
            if k + 1 >= 33 {
                lemma_pow4_grows(33, (k + 1) as nat);
            }
        }
        p = p * 4;
        k = k + 1;
    }
    proof {
        lemma_pow4_grows(0, k as nat);
        assert(value >= 1 ==> (value as nat) * (value as nat) >= 1) by (nonlinear_arith);
        assert(value == 0 ==> twice_square == 0) by (nonlinear_arith)
            requires twice_square == 2 * ((value as nat) * (value as nat));
        if value >= 1 {
            lemma_log4_floor(twice_square as nat, k as nat);
        }
    }
    k
}

/// Validated parameters of a cutter: the chunk size bounds and the judgement masks.
#[derive(Clone, Copy)]
pub struct StreamCdcConfig {
    pub min_size: usize,
    pub avg_size: usize,
    pub max_size: usize,
    /// Mask used before the average size is reached (the stricter one).
    pub mask_s: u64,
    /// Mask used after the average size is reached (the looser one).
    pub mask_l: u64,
    /// `mask_s << 1`.
    pub mask_s_ls: u64,
    /// `mask_l << 1`.
    pub mask_l_ls: u64,
}

impl StreamCdcConfig {
    /// The size bounds are ordered and the minimum is at least two bytes; this is all the cut
    /// algorithm relies on.
    pub open spec fn sizes_ordered(&self) -> bool {
        2 <= self.min_size <= self.avg_size <= self.max_size
    }
}

/// Gear value of byte `b`.
pub open spec fn gear(b: u8) -> u64 {
    GEAR[b as int]
}

/// Left-shifted gear value of byte `b`.
pub open spec fn gear_ls(b: u8) -> u64 {
    GEAR[b as int] << 1u64
}

/// The running hash after rolling in the first byte of a pair.
pub open spec fn roll_first(hash: u64, b: u8) -> u64 {
    (hash << 2u64).wrapping_add(gear_ls(b))
}

/// The running hash after rolling in the second byte of a pair.
pub open spec fn roll_second(hash: u64, b: u8) -> u64 {
    hash.wrapping_add(gear(b))
}

/// Scans the byte pairs of `w` from pair `i` (bytes `2i` and `2i + 1`) up to pair `end_half`,
/// judging with the small masks before pair `center_half` and with the large ones from there.
/// Returns the hash and the cut point found, or `(hash, remaining)` when none is found.
pub open spec fn scan(
    cfg: StreamCdcConfig,
    w: Seq<u8>,
    i: nat,
    center_half: nat,
    end_half: nat,
    remaining: nat,
    hash: u64,
) -> (u64, nat)
    decreases end_half - i,
{
    if i >= end_half {
        (hash, remaining)
    } else {
        let small = i < center_half;
        let mask = if small { cfg.mask_s } else { cfg.mask_l };
        let mask_ls = if small { cfg.mask_s_ls } else { cfg.mask_l_ls };
        let h1 = roll_first(hash, w[2 * i as int]);
        if h1 & mask_ls == 0 {
            (h1, 2 * i)
        } else {
            let h2 = roll_second(h1, w[2 * i + 1 as int]);
            if h2 & mask == 0 {
                (h2, 2 * i + 1)
            } else {
                scan(cfg, w, i + 1, center_half, end_half, remaining, h2)
            }
        }
    }
}

/// The hash and the length of the first chunk of the window `w`.
pub open spec fn cut_point(cfg: StreamCdcConfig, w: Seq<u8>) -> (u64, nat) {
    let n = w.len();
    if n <= cfg.min_size {
        (0, n)
    } else {
        let remaining = if n > cfg.max_size { cfg.max_size as nat } else { n };
        let center = if cfg.avg_size < remaining { cfg.avg_size as nat } else { remaining };
        scan(cfg, w, cfg.min_size as nat / 2, center / 2, remaining / 2, remaining, 0)
    }
}

/// Finds the first cut point in `w`, returning `(hash, chunk_length)`.
pub fn cut_window(cfg: &StreamCdcConfig, w: &[u8]) -> (r: (u64, usize))
    requires
        cfg.sizes_ordered(),
    ensures
        (r.0, r.1 as nat) == cut_point(*cfg, w@),
{
    let n = w.len();
    if n <= cfg.min_size {
        return (0, n);
    }
    let remaining = if n > cfg.max_size { cfg.max_size } else { n };
    let center = if cfg.avg_size < remaining { cfg.avg_size } else { remaining };
    let center_half = center / 2;
    let end_half = remaining / 2;
    let mut index: usize = cfg.min_size / 2;
    let mut hash: u64 = 0;
    while index < end_half
        invariant
            cfg.sizes_ordered(),
            n == w@.len(),
            n > cfg.min_size,
            remaining <= n,
            end_half == remaining / 2,
            center_half <= end_half,
            index <= end_half,
            cut_point(*cfg, w@) == scan(
                *cfg,
                w@,
                index as nat,
                center_half as nat,
                end_half as nat,
                remaining as nat,
                hash,
            ),
        decreases end_half - index,
    {
        let small = index < center_half;
        let mask = if small { cfg.mask_s } else { cfg.mask_l };
        let mask_ls = if small { cfg.mask_s_ls } else { cfg.mask_l_ls };
        let a = index * 2;
        hash = (hash << 2).wrapping_add(GEAR[w[a] as usize] << 1);
        if hash & mask_ls == 0 {
            return (hash, a);
        }
        hash = hash.wrapping_add(GEAR[w[a + 1] as usize]);
        if hash & mask == 0 {
            return (hash, a + 1);
        }
        index = index + 1;
    }
    (hash, remaining)
}

} // verus!
