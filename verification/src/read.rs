//! Reading a variable's full payload through a geometrically growing buffer.
//!
//! The store's read primitive cannot report a required size except by
//! rejecting an undersized buffer, so the reader starts small, doubles on
//! every rejection, and gives up at a hard ceiling.

use crate::error::{Error, StoreError};
use crate::store::{VarId, VarStore};
use crate::units::{spec_divide_up, units_from_bytes, units_of_bytes};
use vstd::arithmetic::power2::{lemma2_to64, lemma_pow2_strictly_increases, lemma_pow2_unfold, pow2};
use vstd::prelude::*;
use vstd::slice::{slice_subrange, slice_to_vec};

verus! {

/// First buffer size that a read attempts, in 16-bit units.
pub const INITIAL_BUFFER_UNITS: usize = 512;

/// Hard ceiling on the read buffer, in 16-bit units: 8 MiB of bytes.
pub const MAX_BUFFER_UNITS: usize = 8 * 512 * 1024;

/// Ceiling on a payload that a read can return, in bytes.
pub const MAX_PAYLOAD_BYTES: usize = 2 * (8 * 512 * 1024);

/// A byte payload as 16-bit units: little-endian pairs, with a lone
/// trailing byte of an odd-length payload padded by a zero byte.
pub open spec fn padded_units(bs: Seq<u8>) -> Seq<u16> {
    if bs.len() % 2 == 0 {
        units_of_bytes(bs)
    } else {
        units_of_bytes(bs.push(0))
    }
}

/// How many read attempts the doubling schedule makes until a buffer of
/// `units` 16-bit units has grown to hold `need` bytes: one attempt if the
/// payload already fits, one more after each doubling.
pub open spec fn read_attempts(units: nat, need: nat) -> nat
    decreases (if 2 * units < need {
        need - units
    } else {
        0
    }),
{
    if units == 0 {
        0
    } else if 2 * units >= need {
        1
    } else {
        1 + read_attempts(2 * units, need)
    }
}

/// The ceiling of the base-two logarithm.
pub open spec fn log2_ceil(n: nat) -> nat
    decreases n,
{
    if n <= 1 {
        0
    } else {
        1 + log2_ceil(spec_divide_up(n, 2))
    }
}

/// A payload of at most `2 * units * 2^k` bytes is reached within `k + 1`
/// attempts of the doubling schedule.
proof fn lemma_read_attempts_pow(units: nat, k: nat, need: nat)
    requires
        0 < units,
        need <= 2 * units * pow2(k),
    ensures
        read_attempts(units, need) <= k + 1,
    decreases k,
{
    if 2 * units >= need {
    } else {
        assert(k > 0) by {
            if k == 0 {
                assert(pow2(0) == 1) by {
                    lemma2_to64();
                }
            }
        }
        lemma_pow2_unfold(k);
        let p = pow2((k - 1) as nat);
        assert(pow2(k) == 2 * p);
        assert(2 * (2 * units) * p == 2 * units * (2 * p)) by (nonlinear_arith);
        lemma_read_attempts_pow(2 * units, (k - 1) as nat, need);
    }
}

/// The schedule makes at least `k + 1` attempts before a buffer grown from
/// `units` covers a payload larger than `units * 2^k` bytes.
proof fn lemma_read_attempts_lower(units: nat, k: nat, need: nat)
    requires
        0 < units,
        need > units * pow2(k),
    ensures
        read_attempts(units, need) >= k + 1,
    decreases k,
{
    if k == 0 {
        assert(pow2(0) == 1) by {
            lemma2_to64();
        }
    } else {
        lemma_pow2_unfold(k);
        let p = pow2((k - 1) as nat);
        assert(pow2(k) == 2 * p);
        vstd::arithmetic::power2::lemma_pow2_pos((k - 1) as nat);
        assert(units * (2 * p) >= units * 2) by (nonlinear_arith)
            requires
                p >= 1,
                units > 0,
        ;
        assert(2 * units * p == units * (2 * p)) by (nonlinear_arith);
        lemma_read_attempts_lower(2 * units, (k - 1) as nat, need);
    }
}

/// Any positive count is at most two to its ceiling logarithm.
proof fn lemma_pow2_log2_ceil(m: nat)
    ensures
        m <= pow2(log2_ceil(m)),
    decreases m,
{
    if m <= 1 {
        assert(pow2(0) == 1) by {
            lemma2_to64();
        }
    } else {
        let h = spec_divide_up(m, 2);
        lemma_pow2_log2_ceil(h);
        lemma_pow2_unfold(log2_ceil(m));
        assert(m <= 2 * h);
    }
}

/// Law: the growing reader reaches a buffer large enough for a payload of
/// `n` bytes within `log2_ceil(divide_up(n, 1024)) + 1` read attempts,
/// counting from its 512-unit (1024-byte) starting buffer.
pub proof fn lemma_reader_attempt_bound(n: nat)
    ensures
        read_attempts(INITIAL_BUFFER_UNITS as nat, n) <= log2_ceil(spec_divide_up(n, 1024)) + 1,
{
    let m = spec_divide_up(n, 1024);
    assert(n <= 1024 * m) by {
        vstd::arithmetic::div_mod::lemma_fundamental_div_mod(n as int, 1024);
    }
    lemma_pow2_log2_ceil(m);
    assert(n <= 1024 * pow2(log2_ceil(m))) by {
        vstd::arithmetic::mul::lemma_mul_inequality(
            m as int,
            pow2(log2_ceil(m)) as int,
            1024,
        );
    }
    lemma_read_attempts_pow(512, log2_ceil(m), n);
}

/// A payload within the ceiling is read in at most fourteen attempts: the
/// schedule 512, 1024, ... unit buffers reaches the 8 MiB ceiling after
/// thirteen doublings.
pub proof fn lemma_reader_attempts_capped(n: nat)
    requires
        n <= MAX_PAYLOAD_BYTES as nat,
    ensures
        read_attempts(INITIAL_BUFFER_UNITS as nat, n) <= 14,
{
    lemma2_to64();
    lemma_read_attempts_pow(512, 13, n);
}

/// Reads the full payload of the variable `id` into a vector of 16-bit
/// units, without prior knowledge of its size.
///
/// The read starts with a 512-unit buffer and doubles it on every
/// `BufferTooSmall` signal; a payload larger than the 8 MiB ceiling fails
/// with `SizeExceeded` instead of growing further. An absent variable is an
/// explicit `None`, not an error. Any other store failure is wrapped with
/// the variable's name.
pub fn read_u16_bytes<S: VarStore>(store: &S, id: &VarId) -> (r: Result<
    Option<(Vec<u16>, u32)>,
    Error,
>)
    ensures
        r matches Ok(Some((units, attrs))) ==> {
            &&& store.vars().contains_key(id@)
            &&& units@ == padded_units(store.vars()[id@].0)
            &&& units@.len() == spec_divide_up(store.vars()[id@].0.len(), 2)
            &&& attrs == store.vars()[id@].1
            &&& store.vars()[id@].0.len() <= MAX_PAYLOAD_BYTES
        },
        r matches Ok(None) ==> !store.vars().contains_key(id@),
        r matches Err(e) ==> match e {
            Error::SizeExceeded { name, attempted_bytes } => {
                &&& store.vars().contains_key(id@)
                &&& store.vars()[id@].0.len() > MAX_PAYLOAD_BYTES
                &&& name@ == id@.0
                &&& attempted_bytes == MAX_PAYLOAD_BYTES
            },
            Error::Store { name, error } => name@ == id@.0 && !(error is NotFound) && !(
            error is BufferTooSmall),
            _ => false,
        },
{
    let mut units: usize = INITIAL_BUFFER_UNITS;
    let ghost mut doublings: nat = 0;
    let mut buf: Vec<u8> = vec![0u8; 2 * INITIAL_BUFFER_UNITS];
    proof {
        assert(pow2(0) == 1) by {
            lemma2_to64();
        }
    }
    loop
        invariant
            INITIAL_BUFFER_UNITS <= units <= MAX_BUFFER_UNITS,
            units == 512 * pow2(doublings),
            buf@.len() == 2 * units,
            doublings > 0 ==> store.vars().contains_key(id@) && store.vars()[id@].0.len()
                > units,
        decreases MAX_BUFFER_UNITS - units,
    {
        match store.read(id, &mut buf) {
            Ok((length, attrs)) => {
                proof {
                    assert(buf@.subrange(0, length as int) =~= store.vars()[id@].0);
                }
                let mut data: Vec<u8> = slice_to_vec(
                    slice_subrange(buf.as_slice(), 0, length),
                );
                if data.len() % 2 == 1 {
                    data.push(0);
                }
                let result = units_from_bytes(data.as_slice());
                proof {
                    assert(result@ == padded_units(store.vars()[id@].0));
                    crate::units::lemma_units_of_bytes_len(data@);
                    // This successful read was the loop's attempt number
                    // `doublings + 1`, which lies within the modeled
                    // schedule that the attempt-bound laws speak of.
                    let need = store.vars()[id@].0.len();
                    if doublings > 0 {
                        lemma_read_attempts_lower(512, doublings, need);
                    }
                    assert(doublings + 1 <= read_attempts(512, need));
                }
                return Ok(Some((result, attrs)));
            },
            Err(StoreError::NotFound) => {
                return Ok(None);
            },
            Err(StoreError::BufferTooSmall) => {
                if units >= MAX_BUFFER_UNITS {
                    // The store holds more than the ceiling allows.
                    return Err(Error::SizeExceeded {
                        name: id.name.clone(),
                        attempted_bytes: MAX_PAYLOAD_BYTES,
                    });
                }
                proof {
                    assert(units < MAX_BUFFER_UNITS);
                    assert(MAX_BUFFER_UNITS == 512 * pow2(13)) by {
                        lemma2_to64();
                    }
                    assert(doublings < 13) by {
                        if doublings >= 13 {
                            if doublings > 13 {
                                lemma_pow2_strictly_increases(13, doublings);
                            }
                        }
                    }
                    assert(512 * pow2(doublings + 1) == 2 * (512 * pow2(doublings))) by {
                        lemma_pow2_unfold(doublings + 1);
                    }
                    assert(pow2(doublings + 1) <= pow2(13)) by {
                        if doublings + 1 < 13 {
                            lemma_pow2_strictly_increases(doublings + 1, 13);
                        }
                    }
                    doublings = doublings + 1;
                }
                units = units * 2;
                buf = vec![0u8; 2 * units];
            },
            Err(e) => {
                return Err(Error::Store { name: id.name.clone(), error: e });
            },
        }
    }
}

/// Reads the variable `id` as text: the payload units are decoded with the
/// NUL-termination convention of [`crate::codec::decode_utf16_string`].
///
/// An absent variable is an explicit `None`; an invalid UTF-16 payload
/// fails with a decode error holding a lossy rendering for diagnostics.
pub fn read_utf16_string<S: VarStore>(store: &S, id: &VarId) -> (r: Result<
    Option<(String, u32)>,
    Error,
>)
    ensures
        r matches Ok(Some((text, attrs))) ==> {
            &&& store.vars().contains_key(id@)
            &&& crate::codec::decoded_text(padded_units(store.vars()[id@].0)) == Some(text@)
            &&& attrs == store.vars()[id@].1
            &&& store.vars()[id@].0.len() <= MAX_PAYLOAD_BYTES
        },
        r matches Ok(None) ==> !store.vars().contains_key(id@),
        r matches Err(e) ==> match e {
            Error::Decode { name, lossy } => {
                &&& store.vars().contains_key(id@)
                &&& crate::codec::decoded_text(padded_units(store.vars()[id@].0)) is None
                &&& name@ == id@.0
                &&& lossy@ == crate::codec::decode_units_lossy(
                    crate::codec::trim_terminator(padded_units(store.vars()[id@].0)),
                )
            },
            Error::SizeExceeded { name, attempted_bytes } => {
                &&& store.vars().contains_key(id@)
                &&& store.vars()[id@].0.len() > MAX_PAYLOAD_BYTES
                &&& name@ == id@.0
                &&& attempted_bytes == MAX_PAYLOAD_BYTES
            },
            Error::Store { name, error } => name@ == id@.0 && !(error is NotFound) && !(
            error is BufferTooSmall),
            _ => false,
        },
{
    let (units, attrs) = match read_u16_bytes(store, id)? {
        Some(data) => data,
        None => {
            return Ok(None);
        },
    };
    match crate::codec::decode_utf16_string(units.as_slice()) {
        Ok(text) => Ok(Some((text, attrs))),
        Err(lossy) => Err(Error::Decode { name: id.name.clone(), lossy }),
    }
}

} // verus!
