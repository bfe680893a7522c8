//! Reinterpretation of 16-bit code units as bytes and back.
//!
//! Firmware payloads are byte buffers while the domain data is a sequence of
//! 16-bit code units stored little-endian; these functions convert between
//! the two views, preserving element order.

use vstd::arithmetic::div_mod::{lemma_fundamental_div_mod, lemma_fundamental_div_mod_converse};
use vstd::prelude::*;

verus! {

/// One 16-bit unit as its two bytes, little-endian.
pub open spec fn le_bytes_of_unit(u: u16) -> Seq<u8> {
    seq![(u % 256) as u8, (u / 256) as u8]
}

/// One 16-bit unit from its two bytes, little-endian.
pub open spec fn unit_of_le_bytes(lo: u8, hi: u8) -> u16 {
    (lo + hi * 256) as u16
}

/// The byte view of a sequence of 16-bit units: each unit contributes its two
/// little-endian bytes, in order.
pub open spec fn bytes_of_units(us: Seq<u16>) -> Seq<u8>
    decreases us.len(),
{
    if us.len() == 0 {
        Seq::empty()
    } else {
        le_bytes_of_unit(us[0]) + bytes_of_units(us.drop_first())
    }
}

/// The 16-bit-unit view of a byte sequence: consecutive little-endian pairs.
/// A trailing lone byte, possible only for odd lengths, belongs to no unit.
pub open spec fn units_of_bytes(bs: Seq<u8>) -> Seq<u16>
    decreases bs.len(),
{
    if bs.len() < 2 {
        Seq::empty()
    } else {
        seq![unit_of_le_bytes(bs[0], bs[1])] + units_of_bytes(bs.skip(2))
    }
}

pub proof fn lemma_unit_bytes_round_trip(u: u16)
    ensures
        unit_of_le_bytes(le_bytes_of_unit(u)[0], le_bytes_of_unit(u)[1]) == u,
{
    lemma_fundamental_div_mod(u as int, 256);
}

pub proof fn lemma_bytes_unit_round_trip(lo: u8, hi: u8)
    ensures
        le_bytes_of_unit(unit_of_le_bytes(lo, hi)) == seq![lo, hi],
{
    let u = unit_of_le_bytes(lo, hi);
    lemma_fundamental_div_mod_converse(u as int, 256, hi as int, lo as int);
    assert(le_bytes_of_unit(u) =~= seq![lo, hi]);
}

pub proof fn lemma_bytes_of_units_len(us: Seq<u16>)
    ensures
        bytes_of_units(us).len() == 2 * us.len(),
    decreases us.len(),
{
    if us.len() > 0 {
        lemma_bytes_of_units_len(us.drop_first());
    }
}

pub proof fn lemma_units_of_bytes_len(bs: Seq<u8>)
    ensures
        units_of_bytes(bs).len() == bs.len() / 2,
    decreases bs.len(),
{
    if bs.len() >= 2 {
        lemma_units_of_bytes_len(bs.skip(2));
    }
}

pub proof fn lemma_bytes_of_one_unit(u: u16)
    ensures
        bytes_of_units(seq![u]) == le_bytes_of_unit(u),
{
    assert(seq![u].drop_first() =~= Seq::<u16>::empty());
    assert(bytes_of_units(seq![u].drop_first()) =~= Seq::<u8>::empty());
    assert(bytes_of_units(seq![u]) =~= le_bytes_of_unit(u));
}

pub proof fn lemma_bytes_of_two_units(a: u16, b: u16)
    ensures
        bytes_of_units(seq![a, b]) == le_bytes_of_unit(a) + le_bytes_of_unit(b),
{
    assert(seq![a, b].drop_first() =~= seq![b]);
    lemma_bytes_of_one_unit(b);
    assert(bytes_of_units(seq![a, b]) =~= le_bytes_of_unit(a) + le_bytes_of_unit(b));
}

/// Appending one unit appends its two bytes.
pub proof fn lemma_bytes_of_units_push(us: Seq<u16>, u: u16)
    ensures
        bytes_of_units(us.push(u)) == bytes_of_units(us) + le_bytes_of_unit(u),
    decreases us.len(),
{
    if us.len() == 0 {
        assert(us.push(u)[0] == u);
        assert(us.push(u).drop_first() =~= Seq::<u16>::empty());
        assert(bytes_of_units(us.push(u).drop_first()) =~= Seq::<u8>::empty());
        assert(bytes_of_units(us.push(u)) =~= le_bytes_of_unit(u));
        assert(bytes_of_units(us) =~= Seq::<u8>::empty());
        assert(bytes_of_units(us.push(u)) =~= bytes_of_units(us) + le_bytes_of_unit(u));
    } else {
        assert(us.push(u).drop_first() =~= us.drop_first().push(u));
        lemma_bytes_of_units_push(us.drop_first(), u);
        assert(bytes_of_units(us.push(u)) =~= bytes_of_units(us) + le_bytes_of_unit(u));
    }
}

/// Appending one little-endian pair appends one unit, as long as the prefix
/// holds whole pairs only.
pub proof fn lemma_units_of_bytes_push_pair(bs: Seq<u8>, lo: u8, hi: u8)
    requires
        bs.len() % 2 == 0,
    ensures
        units_of_bytes(bs.push(lo).push(hi)) == units_of_bytes(bs).push(unit_of_le_bytes(lo, hi)),
    decreases bs.len(),
{
    let grown = bs.push(lo).push(hi);
    assert(grown[0] == if bs.len() == 0 {
        lo
    } else {
        bs[0]
    });
    assert(grown[1] == if bs.len() <= 1 {
        hi
    } else {
        bs[1]
    });
    if bs.len() == 0 {
        assert(grown.skip(2).len() == 0);
        assert(units_of_bytes(grown.skip(2)) =~= Seq::<u16>::empty());
        assert(units_of_bytes(grown) =~= seq![unit_of_le_bytes(lo, hi)]);
        assert(units_of_bytes(bs) =~= Seq::<u16>::empty());
        assert(units_of_bytes(grown) =~= units_of_bytes(bs).push(unit_of_le_bytes(lo, hi)));
    } else {
        assert(grown.skip(2) =~= bs.skip(2).push(lo).push(hi));
        lemma_units_of_bytes_push_pair(bs.skip(2), lo, hi);
        assert(units_of_bytes(grown) =~= units_of_bytes(bs).push(unit_of_le_bytes(lo, hi)));
    }
}

pub proof fn lemma_units_bytes_of_units(us: Seq<u16>)
    ensures
        units_of_bytes(bytes_of_units(us)) == us,
    decreases us.len(),
{
    if us.len() == 0 {
        assert(units_of_bytes(bytes_of_units(us)) =~= us);
    } else {
        lemma_units_bytes_of_units(us.drop_first());
        lemma_unit_bytes_round_trip(us[0]);
        assert(bytes_of_units(us).skip(2) =~= bytes_of_units(us.drop_first()));
        assert(units_of_bytes(bytes_of_units(us)) =~= us);
    }
}

pub proof fn lemma_bytes_units_of_bytes_even(bs: Seq<u8>)
    requires
        bs.len() % 2 == 0,
    ensures
        bytes_of_units(units_of_bytes(bs)) == bs,
    decreases bs.len(),
{
    if bs.len() == 0 {
        assert(bytes_of_units(units_of_bytes(bs)) =~= bs);
    } else {
        lemma_bytes_units_of_bytes_even(bs.skip(2));
        lemma_bytes_unit_round_trip(bs[0], bs[1]);
        assert(units_of_bytes(bs).drop_first() =~= units_of_bytes(bs.skip(2)));
        assert(bytes_of_units(units_of_bytes(bs)) =~= bs);
    }
}

/// Law: the byte view of a buffer of `L` 16-bit units has length exactly
/// `2 * L` and converts back to the same units; a byte buffer survives the
/// inverse round trip exactly when its length is even.
pub proof fn lemma_reinterpretation_laws(us: Seq<u16>, bs: Seq<u8>)
    ensures
        bytes_of_units(us).len() == 2 * us.len(),
        units_of_bytes(bytes_of_units(us)) == us,
        (bytes_of_units(units_of_bytes(bs)) == bs) <==> (bs.len() % 2 == 0),
{
    lemma_bytes_of_units_len(us);
    lemma_units_bytes_of_units(us);
    if bs.len() % 2 == 0 {
        lemma_bytes_units_of_bytes_even(bs);
    } else {
        lemma_units_of_bytes_len(bs);
        lemma_bytes_of_units_len(units_of_bytes(bs));
    }
}

/// Access to a buffer of 16-bit units as a double-sized buffer of bytes.
pub trait U16ArrayExt {
    /// The unit buffer as seen through [`bytes_of_units`].
    spec fn unit_seq(&self) -> Seq<u16>;

    /// Returns the little-endian byte rendering of the buffer.
    fn as_u8(&self) -> (r: Vec<u8>)
        requires
            2 * self.unit_seq().len() <= usize::MAX,
        ensures
            r@ == bytes_of_units(self.unit_seq()),
    ;
}

impl U16ArrayExt for Vec<u16> {
    open spec fn unit_seq(&self) -> Seq<u16> {
        self@
    }

    fn as_u8(&self) -> (r: Vec<u8>)
        ensures
            r@ == bytes_of_units(self@),
    {
        let mut r: Vec<u8> = Vec::new();
        let mut i: usize = 0;
        while i < self.len()
            invariant
                i <= self@.len(),
                2 * self@.len() <= usize::MAX,
                r@ == bytes_of_units(self@.take(i as int)),
            decreases self@.len() - i,
        {
            let u = self[i];
            proof {
                lemma_bytes_of_units_push(self@.take(i as int), u);
                assert(self@.take(i as int).push(u) =~= self@.take(i as int + 1));
            }
            r.push((u % 256) as u8);
            r.push((u / 256) as u8);
            i = i + 1;
        }
        proof {
            assert(self@.take(self@.len() as int) =~= self@);
        }
        r
    }
}

/// Returns the 16-bit units stored little-endian in `bs`; a trailing lone
/// byte of an odd-length buffer is ignored.
pub fn units_from_bytes(bs: &[u8]) -> (r: Vec<u16>)
    ensures
        r@ == units_of_bytes(bs@),
{
    let mut r: Vec<u16> = Vec::new();
    let mut i: usize = 0;
    while i + 1 < bs.len()
        invariant
            i % 2 == 0,
            i <= bs@.len(),
            r@ == units_of_bytes(bs@.take(i as int)),
        decreases bs@.len() - i,
    {
        let lo = bs[i];
        let hi = bs[i + 1];
        proof {
            lemma_units_of_bytes_push_pair(bs@.take(i as int), lo, hi);
            assert(bs@.take(i as int).push(lo).push(hi) =~= bs@.take(i as int + 2));
        }
        r.push(lo as u16 + 256 * (hi as u16));
        i = i + 2;
    }
    proof {
        if bs@.len() % 2 == 0 {
            assert(bs@.take(bs@.len() as int) =~= bs@);
        } else {
            assert(units_of_bytes(bs@.take(bs@.len() - 1)) =~= units_of_bytes(bs@)) by {
                lemma_units_of_bytes_take_even(bs@, bs@.len() - 1);
            }
        }
    }
    r
}

/// Dropping a lone trailing byte does not change the unit view.
proof fn lemma_units_of_bytes_take_even(bs: Seq<u8>, n: int)
    requires
        n % 2 == 0,
        n <= bs.len() < n + 2,
    ensures
        units_of_bytes(bs.take(n)) == units_of_bytes(bs),
    decreases n,
{
    if n == 0 {
        assert(units_of_bytes(bs.take(0)) =~= units_of_bytes(bs));
    } else {
        lemma_units_of_bytes_take_even(bs.skip(2), n - 2);
        assert(bs.take(n).skip(2) =~= bs.skip(2).take(n - 2));
        assert(units_of_bytes(bs.take(n)) =~= units_of_bytes(bs));
    }
}

/// Divide `dividend` by `divisor` and round the result up.
pub open spec fn spec_divide_up(dividend: nat, divisor: nat) -> nat
    recommends
        divisor > 0,
{
    dividend / divisor + (if dividend % divisor != 0 {
        1nat
    } else {
        0nat
    })
}

/// Divide `dividend` by `divisor` and round the result up.
pub fn divide_up(dividend: usize, divisor: usize) -> (r: usize)
    requires
        divisor > 0,
    ensures
        r == spec_divide_up(dividend as nat, divisor as nat),
{
    proof {
        if dividend % divisor != 0 {
            assert(divisor >= 2) by {
                if divisor == 1 {
                    vstd::arithmetic::div_mod::lemma_mod_is_zero(dividend as nat, 1);
                }
            }
            assert(dividend > 0) by {
                if dividend == 0 {
                    vstd::arithmetic::div_mod::lemma_small_mod(0, divisor as nat);
                }
            }
            vstd::arithmetic::div_mod::lemma_div_decreases(dividend as int, divisor as int);
        }
    }
    dividend / divisor + (if dividend % divisor != 0 {
        1
    } else {
        0
    })
}

} // verus!
