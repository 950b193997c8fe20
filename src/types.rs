use vstd::prelude::*;

verus! {

/// A 32-byte transaction hash, held as four big-endian 64-bit words.
#[derive(Clone, Copy, Debug, PartialEq, Eq, Hash, Structural)]
pub struct TxHash(pub u64, pub u64, pub u64, pub u64);

/// A 64-byte peer identifier (the peer's node public key), held as eight big-endian
/// 64-bit words.
#[derive(Clone, Copy, Debug, PartialEq, Eq, Hash, Structural)]
pub struct PeerId(pub u64, pub u64, pub u64, pub u64, pub u64, pub u64, pub u64, pub u64);

/// The 64-bit word whose eight bytes all equal `b`.
pub open spec fn repeated_word(b: u8) -> u64 {
    (b as int * 0x0101010101010101int) as u64
}

fn word_of_byte(b: u8) -> (r: u64)
    ensures
        r == repeated_word(b),
{
    assert(b as int * 0x0101010101010101int <= 0xffff_ffff_ffff_ffffint) by (nonlinear_arith)
        requires b <= 255;
    b as u64 * 0x0101010101010101u64
}

impl TxHash {
    /// The hash whose 32 bytes all equal `b`.
    pub fn repeat_byte(b: u8) -> (r: TxHash)
        ensures
            r == TxHash(repeated_word(b), repeated_word(b), repeated_word(b), repeated_word(b)),
    {
        let w = word_of_byte(b);
        TxHash(w, w, w, w)
    }
}

impl PeerId {
    /// The peer identifier whose 64 bytes all equal `b`.
    pub fn repeat_byte(b: u8) -> (r: PeerId)
        ensures
            r == PeerId(
                repeated_word(b), repeated_word(b), repeated_word(b), repeated_word(b),
                repeated_word(b), repeated_word(b), repeated_word(b), repeated_word(b),
            ),
    {
        let w = word_of_byte(b);
        PeerId(w, w, w, w, w, w, w, w)
    }
}

/// A key that can be compared for equality in executable code.
pub trait CacheKey: Copy + Sized {
    fn same(&self, other: &Self) -> (r: bool)
        ensures
            r == (*self == *other),
    ;
}

impl CacheKey for TxHash {
    fn same(&self, other: &Self) -> (r: bool) {
        *self == *other
    }
}

impl CacheKey for PeerId {
    fn same(&self, other: &Self) -> (r: bool) {
        *self == *other
    }
}

/// Whether `x` is among the elements of `v`.
pub fn vec_contains<T: CacheKey>(v: &Vec<T>, x: &T) -> (r: bool)
    ensures
        r == v@.contains(*x),
{
    let mut i: usize = 0;
    while i < v.len()
        invariant
            i <= v@.len(),
            forall|j: int| 0 <= j < i ==> v@[j] != *x,
        decreases v@.len() - i,
    {
        if v[i].same(x) {
            return true;
        }
        i += 1;
    }
    false
}

} // verus!
