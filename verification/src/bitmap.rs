//! A fixed-capacity bit vector.
//!
//! A [`BitMap`] backed by `n` bytes holds `8 * n` independently addressable
//! bits, viewed abstractly as a `Seq<bool>`. Bit `p` lives in byte `p / 8`
//! at offset `p % 8`.

use vstd::prelude::*;

verus! {

/// Whether bit `off` of the byte `b` is set. Meaningful for `off < 8`.
pub open spec fn nth_bit(b: u8, off: u8) -> bool {
    b & (1u8 << off) != 0u8
}

/// Round trip: for every position `i` in range, `set_bit(i)` yields the
/// view `pre.update(i, true)`, on which `has_bit_set(i)` — the view at
/// `i` — reads true; `clear_bit(i)` yields `pre.update(i, false)`, on
/// which it reads false.
pub proof fn lemma_bit_round_trip(pre: Seq<bool>, i: int)
    requires
        0 <= i < pre.len(),
    ensures
        pre.update(i, true)[i],
        !pre.update(i, false)[i],
{
}

/// A fixed-size bit vector over a byte buffer: `n` bytes hold `8 * n` bits.
#[derive(Debug, Clone)]
pub struct BitMap(pub Vec<u8>);

impl View for BitMap {
    type V = Seq<bool>;

    open spec fn view(&self) -> Seq<bool> {
        Seq::new(8 * self.0@.len(), |i: int| nth_bit(self.0@[i / 8], (i % 8) as u8))
    }
}

proof fn lemma_byte_bit_set(b: u8, off: u8, o2: u8)
    by (bit_vector)
    requires
        off < 8,
        o2 < 8,
    ensures
        nth_bit(b | (1u8 << off), o2) == (o2 == off || nth_bit(b, o2)),
{
}

proof fn lemma_byte_bit_clear(b: u8, off: u8, o2: u8)
    by (bit_vector)
    requires
        off < 8,
        o2 < 8,
    ensures
        nth_bit(b & !(1u8 << off), o2) == (o2 != off && nth_bit(b, o2)),
{
}

proof fn lemma_byte_bit_zero(off: u8)
    by (bit_vector)
    requires
        off < 8,
    ensures
        !nth_bit(0u8, off),
{
}

/// Positions below `8 * len` decompose into a valid byte index and offset.
proof fn lemma_pos_decomposition(pos: int, len: int)
    requires
        0 <= pos < 8 * len,
    ensures
        0 <= pos / 8 < len,
        0 <= pos % 8 < 8,
{
    vstd::arithmetic::div_mod::lemma_fundamental_div_mod(pos, 8);
    vstd::arithmetic::div_mod::lemma_mod_bound(pos, 8);
}

/// Two positions agreeing on byte index and offset are the same position.
proof fn lemma_pos_injective(a: int, b: int)
    requires
        0 <= a,
        0 <= b,
        a / 8 == b / 8,
        a % 8 == b % 8,
    ensures
        a == b,
{
    vstd::arithmetic::div_mod::lemma_fundamental_div_mod(a, 8);
    vstd::arithmetic::div_mod::lemma_fundamental_div_mod(b, 8);
}

impl BitMap {
    /// An all-zero bit vector over `sz` bytes, capable of holding `8 * sz` bits.
    pub fn new(sz: usize) -> (bm: Self)
        ensures
            bm@.len() == 8 * sz,
            forall|i: int| 0 <= i < bm@.len() ==> !bm@[i],
    {
        let mut bytes: Vec<u8> = Vec::new();
        while bytes.len() < sz
            invariant
                bytes@.len() <= sz,
                forall|k: int| 0 <= k < bytes@.len() ==> bytes@[k] == 0u8,
            decreases sz - bytes.len(),
        {
            bytes.push(0u8);
        }
        let bm = BitMap(bytes);
        proof {
            assert forall|i: int| 0 <= i < bm@.len() implies !bm@[i] by {
                lemma_pos_decomposition(i, bm.0@.len() as int);
                lemma_byte_bit_zero((i % 8) as u8);
            }
        }
        bm
    }

    /// Sets bit `pos` to 1; every other bit keeps its value. Returns the
    /// mutated value for chaining.
    pub fn set_bit(&mut self, pos: usize) -> (ret: &mut Self)
        requires
            pos < old(self)@.len(),
        ensures
            (*ret)@ == old(self)@.update(pos as int, true),
            *final(self) == *final(ret),
    {
        proof {
            lemma_pos_decomposition(pos as int, self.0@.len() as int);
        }
        let idx = pos / 8;
        let off = (pos % 8) as u8;
        let ghost pre = *self;
        self.0[idx] = self.0[idx] | (1u8 << off);
        proof {
            assert forall|j: int| 0 <= j < self@.len() implies self@[j] == pre@.update(
                pos as int,
                true,
            )[j] by {
                lemma_pos_decomposition(j, self.0@.len() as int);
                if j / 8 == idx {
                    lemma_byte_bit_set(pre.0@[j / 8], off, (j % 8) as u8);
                    if j % 8 == pos % 8 {
                        lemma_pos_injective(j, pos as int);
                    }
                }
            }
            assert(self@ =~= pre@.update(pos as int, true));
        }
        self
    }

    /// Sets bit `pos` to 0; every other bit keeps its value. Returns the
    /// mutated value for chaining.
    pub fn clear_bit(&mut self, pos: usize) -> (ret: &mut Self)
        requires
            pos < old(self)@.len(),
        ensures
            (*ret)@ == old(self)@.update(pos as int, false),
            *final(self) == *final(ret),
    {
        proof {
            lemma_pos_decomposition(pos as int, self.0@.len() as int);
        }
        let idx = pos / 8;
        let off = (pos % 8) as u8;
        let ghost pre = *self;
        self.0[idx] = self.0[idx] & !(1u8 << off);
        proof {
            assert forall|j: int| 0 <= j < self@.len() implies self@[j] == pre@.update(
                pos as int,
                false,
            )[j] by {
                lemma_pos_decomposition(j, self.0@.len() as int);
                if j / 8 == idx {
                    lemma_byte_bit_clear(pre.0@[j / 8], off, (j % 8) as u8);
                    if j % 8 == pos % 8 {
                        lemma_pos_injective(j, pos as int);
                    }
                }
            }
            assert(self@ =~= pre@.update(pos as int, false));
        }
        self
    }

    /// Whether bit `pos` is 1.
    pub fn has_bit_set(&self, pos: usize) -> (r: bool)
        requires
            pos < self@.len(),
        ensures
            r == self@[pos as int],
    {
        proof {
            lemma_pos_decomposition(pos as int, self.0@.len() as int);
        }
        let idx = pos / 8;
        let off = (pos % 8) as u8;
        (self.0[idx] & (1u8 << off)) > 0
    }
}

} // verus!
