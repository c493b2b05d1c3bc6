//! The occupancy bitmap of the buffer pool, kept in a `bitvec` bit-vector.
use vstd::prelude::*;

use bitvec::order::Lsb0;
use bitvec::vec::BitVec;

verus! {

/// One bit per buffer slot of the pool; a set bit marks a slot that is handed out.
/// Verus sees the bits only through `bits_of`.
#[verifier::external_body]
pub struct Occupancy {
    bits: BitVec<usize, Lsb0>,
}

/// The bits held by a bit-vector, in index order.
pub uninterp spec fn bits_of(v: Occupancy) -> Seq<bool>;

/// Number of `true` entries in `s`.
pub open spec fn count_set(s: Seq<bool>) -> nat
    decreases s.len(),
{
    if s.len() == 0 {
        0
    } else {
        count_set(s.drop_last()) + if s.last() { 1nat } else { 0nat }
    }
}

/// Relies on `BitVec::repeat`: a bit-vector of `len` bits, all equal to `bit`.
/// It panics above `usize::MAX >> 3` bits, which `requires` leaves out.
#[verifier::external_body]
pub(crate) fn bits_repeat(bit: bool, len: usize) -> (r: Occupancy)
    requires
        len <= usize::MAX / 8,
    ensures
        bits_of(r) == Seq::new(len as nat, |_i: int| bit),
{
    Occupancy { bits: BitVec::repeat(bit, len) }
}

/// Relies on `BitSlice::first_zero`: the index of the first cleared bit, if any.
#[verifier::external_body]
pub(crate) fn bits_first_zero(v: &Occupancy) -> (r: Option<usize>)
    ensures
        match r {
            Some(i) => i < bits_of(*v).len() && !bits_of(*v)[i as int] && forall|j: int|
                0 <= j < i ==> #[trigger] bits_of(*v)[j],
            None => forall|j: int| 0 <= j < bits_of(*v).len() ==> #[trigger] bits_of(*v)[j],
        },
{
    v.bits.first_zero()
}

/// Relies on `BitSlice`'s `Index<usize>`: reads one bit. It panics on an index out of
/// bounds, which `requires` leaves out.
#[verifier::external_body]
pub(crate) fn bits_get(v: &Occupancy, index: usize) -> (r: bool)
    requires
        index < bits_of(*v).len(),
    ensures
        r == bits_of(*v)[index as int],
{
    v.bits[index]
}

/// Relies on `BitSlice::set`: writes one bit. It panics on an index out of bounds, which
/// `requires` leaves out.
#[verifier::external_body]
pub(crate) fn bits_set(v: &mut Occupancy, index: usize, value: bool)
    requires
        index < bits_of(*old(v)).len(),
    ensures
        bits_of(*final(v)) == bits_of(*old(v)).update(index as int, value),
{
    v.bits.set(index, value)
}

/// Relies on `BitSlice::count_ones`: the number of set bits.
#[verifier::external_body]
pub(crate) fn bits_count_ones(v: &Occupancy) -> (r: usize)
    ensures
        r == count_set(bits_of(*v)),
{
    v.bits.count_ones()
}

} // verus!
