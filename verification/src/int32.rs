//! Two's-complement reinterpretation, little-endian byte encoding, and
//! wrapping arithmetic for signed 32-bit machine values.

use vstd::prelude::*;
use vstd::arithmetic::div_mod::{
    lemma_div_is_ordered_by_denominator, lemma_div_nonincreasing, lemma_div_pos_is_pos,
    lemma_mod_division_less_than_divisor,
};
use vstd::bytes::{
    lemma_auto_spec_u32_to_from_le_bytes, spec_u32_from_le_bytes, spec_u32_to_le_bytes,
    u32_from_le_bytes, u32_to_le_bytes,
};
use vstd::pervasive::VecAdditionalExecFns;
use vstd::slice::slice_subrange;

verus! {

/// The unsigned 32-bit value with the same two's-complement bit pattern as `v`.
pub open spec fn i32_as_u32(v: i32) -> u32 {
    if v >= 0 {
        v as u32
    } else {
        (v as int + 0x1_0000_0000) as u32
    }
}

/// The signed 32-bit value with the same two's-complement bit pattern as `u`.
pub open spec fn u32_as_i32(u: u32) -> i32 {
    if u < 0x8000_0000 {
        u as i32
    } else {
        (u as int - 0x1_0000_0000) as i32
    }
}

pub proof fn lemma_i32_u32_roundtrip(v: i32)
    ensures
        u32_as_i32(i32_as_u32(v)) == v,
{
}

/// The four little-endian bytes encoding `v`.
pub open spec fn spec_i32_to_le_bytes(v: i32) -> Seq<u8> {
    spec_u32_to_le_bytes(i32_as_u32(v))
}

/// The signed 32-bit value read from four little-endian bytes.
pub open spec fn spec_i32_from_le_bytes(s: Seq<u8>) -> i32
    recommends
        s.len() == 4,
{
    u32_as_i32(spec_u32_from_le_bytes(s))
}

pub proof fn lemma_i32_le_bytes_roundtrip(v: i32)
    ensures
        spec_i32_to_le_bytes(v).len() == 4,
        spec_i32_from_le_bytes(spec_i32_to_le_bytes(v)) == v,
{
    lemma_auto_spec_u32_to_from_le_bytes();
    lemma_i32_u32_roundtrip(v);
    let u = i32_as_u32(v);
    assert(spec_u32_to_le_bytes(u).len() == 4);
    assert(spec_u32_from_le_bytes(spec_u32_to_le_bytes(u)) == u);
}

fn reinterpret_unsigned(v: i32) -> (u: u32)
    ensures
        u == i32_as_u32(v),
{
    if v >= 0 {
        v as u32
    } else {
        ((v + 0x7fff_ffff) + 1) as u32 + 0x8000_0000
    }
}

fn reinterpret_signed(u: u32) -> (v: i32)
    ensures
        v == u32_as_i32(u),
{
    if u < 0x8000_0000 {
        u as i32
    } else {
        ((u - 0x8000_0000) as i32 - 0x7fff_ffff) - 1
    }
}

/// Read the signed 32-bit value stored little-endian at `bytes[pos..pos + 4]`.
pub fn read_i32_le(bytes: &[u8], pos: usize) -> (v: i32)
    requires
        pos + 4 <= bytes@.len(),
    ensures
        v == spec_i32_from_le_bytes(bytes@.subrange(pos as int, pos as int + 4)),
{
    // reading the length bounds pos + 4 within usize
    let _n = bytes.len();
    let quad = slice_subrange(bytes, pos, pos + 4);
    reinterpret_signed(u32_from_le_bytes(quad))
}

/// Append the four little-endian bytes of `v` to `buf`.
pub fn append_i32_le(buf: &mut Vec<u8>, v: i32)
    ensures
        final(buf)@ == old(buf)@ + spec_i32_to_le_bytes(v),
{
    let mut quad = u32_to_le_bytes(reinterpret_unsigned(v));
    buf.append(&mut quad);
}

/// Overwrite `buf[pos..pos + 4]` with the little-endian bytes of `v`,
/// leaving every other byte unchanged.
pub fn store_i32_le(buf: &mut Vec<u8>, pos: usize, v: i32)
    requires
        pos + 4 <= old(buf)@.len(),
    ensures
        final(buf)@.len() == old(buf)@.len(),
        final(buf)@.subrange(pos as int, pos as int + 4) == spec_i32_to_le_bytes(v),
        forall|i: int|
            0 <= i < old(buf)@.len() && !(pos <= i < pos + 4) ==> final(buf)@[i] == old(buf)@[i],
{
    // reading the length bounds pos + 3 within usize
    let _n = buf.len();
    let quad = u32_to_le_bytes(reinterpret_unsigned(v));
    buf.set(pos, quad[0]);
    buf.set(pos + 1, quad[1]);
    buf.set(pos + 2, quad[2]);
    buf.set(pos + 3, quad[3]);
    proof {
        assert(final(buf)@.subrange(pos as int, pos as int + 4) =~= spec_i32_to_le_bytes(v));
    }
}

/// Truncating division as the machine's `div` instruction defines it:
/// the one overflowing case, `i32::MIN / -1`, wraps to `i32::MIN`.
pub open spec fn vm_div(a: i32, b: i32) -> i32
    recommends
        b != 0,
{
    if a == i32::MIN && b == -1 {
        i32::MIN
    } else {
        let x = a as int;
        let d = b as int;
        let q = if x >= 0 && d > 0 {
            x / d
        } else if x < 0 && d < 0 {
            (-x) / (-d)
        } else if x < 0 {
            -((-x) / d)
        } else {
            -(x / (-d))
        };
        q as i32
    }
}

/// Remainder paired with `vm_div`: the sign follows the dividend, and the
/// one overflowing case, `i32::MIN % -1`, wraps to `0`.
pub open spec fn vm_mod(a: i32, b: i32) -> i32
    recommends
        b != 0,
{
    if a == i32::MIN && b == -1 {
        0
    } else {
        let x = a as int;
        let d = b as int;
        let r = if x >= 0 && d > 0 {
            x % d
        } else if x < 0 && d < 0 {
            -((-x) % (-d))
        } else if x < 0 {
            -((-x) % d)
        } else {
            x % (-d)
        };
        r as i32
    }
}

proof fn lemma_trunc_div_in_range(a: i32, b: i32)
    requires
        b != 0,
        !(a == i32::MIN && b == -1),
    ensures
        ({
            let x = a as int;
            let d = b as int;
            let q = if x >= 0 && d > 0 {
                x / d
            } else if x < 0 && d < 0 {
                (-x) / (-d)
            } else if x < 0 {
                -((-x) / d)
            } else {
                -(x / (-d))
            };
            i32::MIN <= q <= i32::MAX
        }),
{
    let x = a as int;
    let d = b as int;
    if x >= 0 && d > 0 {
        lemma_div_pos_is_pos(x, d);
        lemma_div_nonincreasing(x, d);
    } else if x < 0 && d < 0 {
        lemma_div_pos_is_pos(-x, -d);
        lemma_div_nonincreasing(-x, -d);
        if -x == 0x8000_0000 {
            lemma_div_is_ordered_by_denominator(0x8000_0000, 2, -d);
        }
    } else if x < 0 {
        lemma_div_pos_is_pos(-x, d);
        lemma_div_nonincreasing(-x, d);
    } else {
        lemma_div_pos_is_pos(x, -d);
        lemma_div_nonincreasing(x, -d);
    }
}

/// Execute the machine's truncating division; see [`vm_div`].
pub fn div_wrap(a: i32, b: i32) -> (r: i32)
    requires
        b != 0,
    ensures
        r == vm_div(a, b),
{
    if a == i32::MIN && b == -1 {
        i32::MIN
    } else {
        proof {
            lemma_trunc_div_in_range(a, b);
        }
        match a.checked_div(b) {
            Some(q) => q,
            None => 0,
        }
    }
}

proof fn lemma_trunc_mod_in_range(a: i32, b: i32)
    requires
        b != 0,
        !(a == i32::MIN && b == -1),
    ensures
        ({
            let x = a as int;
            let d = b as int;
            let r = if x >= 0 && d > 0 {
                x % d
            } else if x < 0 && d < 0 {
                -((-x) % (-d))
            } else if x < 0 {
                -((-x) % d)
            } else {
                x % (-d)
            };
            i32::MIN < r <= i32::MAX
        }),
{
    let x = a as int;
    let d = b as int;
    if x >= 0 && d > 0 {
        lemma_mod_division_less_than_divisor(x, d);
    } else if x < 0 && d < 0 {
        lemma_mod_division_less_than_divisor(-x, -d);
    } else if x < 0 {
        lemma_mod_division_less_than_divisor(-x, d);
    } else {
        lemma_mod_division_less_than_divisor(x, -d);
    }
}

/// Execute the machine's remainder; see [`vm_mod`].
pub fn mod_wrap(a: i32, b: i32) -> (r: i32)
    requires
        b != 0,
    ensures
        r == vm_mod(a, b),
{
    if a == i32::MIN && b == -1 {
        0
    } else {
        proof {
            lemma_trunc_mod_in_range(a, b);
        }
        match a.checked_rem(b) {
            Some(r) => r,
            None => 0,
        }
    }
}

} // verus!
