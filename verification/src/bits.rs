//! Arithmetic views of IEEE 754 bit patterns and lexicographic byte
//! comparison. Floating-point payloads are carried as their raw bits, so
//! equality and ordering are computed here with integer arithmetic alone.

use vstd::prelude::*;
use vstd::string::StringSliceAdditionalSpecFns;
use core::cmp::Ordering;

verus! {

/// The magnitude (absolute-value bits) of a 32-bit IEEE pattern.
pub open spec fn f32_magnitude(bits: u32) -> int {
    if bits >= 0x8000_0000 {
        bits - 0x8000_0000
    } else {
        bits as int
    }
}

/// A 32-bit IEEE pattern is a NaN when its magnitude exceeds that of
/// infinity.
pub open spec fn f32_is_nan(bits: u32) -> bool {
    f32_magnitude(bits) > 0x7f80_0000
}

/// The position of a non-NaN 32-bit IEEE pattern on the number line:
/// negative sign flips the magnitude, and both zeros sit at the origin.
pub open spec fn f32_order_key(bits: u32) -> int {
    if bits >= 0x8000_0000 {
        -f32_magnitude(bits)
    } else {
        f32_magnitude(bits)
    }
}

/// IEEE equality of two 32-bit patterns: both are numbers (not NaN) at
/// the same position; the two zeros are equal.
pub open spec fn f32_eq(a: u32, b: u32) -> bool {
    !f32_is_nan(a) && !f32_is_nan(b) && f32_order_key(a) == f32_order_key(b)
}

/// IEEE partial order of two 32-bit patterns: no order when either is a
/// NaN, else the order of their positions.
pub open spec fn f32_cmp(a: u32, b: u32) -> Option<Ordering> {
    if f32_is_nan(a) || f32_is_nan(b) {
        None
    } else if f32_order_key(a) < f32_order_key(b) {
        Some(Ordering::Less)
    } else if f32_order_key(a) == f32_order_key(b) {
        Some(Ordering::Equal)
    } else {
        Some(Ordering::Greater)
    }
}

/// The magnitude (absolute-value bits) of a 64-bit IEEE pattern.
pub open spec fn f64_magnitude(bits: u64) -> int {
    if bits >= 0x8000_0000_0000_0000 {
        bits - 0x8000_0000_0000_0000
    } else {
        bits as int
    }
}

/// A 64-bit IEEE pattern is a NaN when its magnitude exceeds that of
/// infinity.
pub open spec fn f64_is_nan(bits: u64) -> bool {
    f64_magnitude(bits) > 0x7ff0_0000_0000_0000
}

/// The position of a non-NaN 64-bit IEEE pattern on the number line.
pub open spec fn f64_order_key(bits: u64) -> int {
    if bits >= 0x8000_0000_0000_0000 {
        -f64_magnitude(bits)
    } else {
        f64_magnitude(bits)
    }
}

/// IEEE equality of two 64-bit patterns.
pub open spec fn f64_eq(a: u64, b: u64) -> bool {
    !f64_is_nan(a) && !f64_is_nan(b) && f64_order_key(a) == f64_order_key(b)
}

/// IEEE partial order of two 64-bit patterns.
pub open spec fn f64_cmp(a: u64, b: u64) -> Option<Ordering> {
    if f64_is_nan(a) || f64_is_nan(b) {
        None
    } else if f64_order_key(a) < f64_order_key(b) {
        Some(Ordering::Less)
    } else if f64_order_key(a) == f64_order_key(b) {
        Some(Ordering::Equal)
    } else {
        Some(Ordering::Greater)
    }
}

/// Decide IEEE equality of two 32-bit patterns.
pub fn f32_bits_eq(a: u32, b: u32) -> (r: bool)
    ensures
        r == f32_eq(a, b),
{
    let ma: u32 = if a >= 0x8000_0000 { a - 0x8000_0000 } else { a };
    let mb: u32 = if b >= 0x8000_0000 { b - 0x8000_0000 } else { b };
    if ma > 0x7f80_0000 || mb > 0x7f80_0000 {
        return false;
    }
    if ma == 0 && mb == 0 {
        return true;
    }
    a == b
}

/// Decide the IEEE partial order of two 32-bit patterns.
pub fn f32_bits_cmp(a: u32, b: u32) -> (r: Option<Ordering>)
    ensures
        r == f32_cmp(a, b),
{
    let ma: u32 = if a >= 0x8000_0000 { a - 0x8000_0000 } else { a };
    let mb: u32 = if b >= 0x8000_0000 { b - 0x8000_0000 } else { b };
    if ma > 0x7f80_0000 || mb > 0x7f80_0000 {
        return None;
    }
    let sa = a >= 0x8000_0000;
    let sb = b >= 0x8000_0000;
    if !sa && !sb {
        if ma < mb {
            Some(Ordering::Less)
        } else if ma == mb {
            Some(Ordering::Equal)
        } else {
            Some(Ordering::Greater)
        }
    } else if sa && sb {
        if mb < ma {
            Some(Ordering::Less)
        } else if ma == mb {
            Some(Ordering::Equal)
        } else {
            Some(Ordering::Greater)
        }
    } else if sa {
        if ma == 0 && mb == 0 {
            Some(Ordering::Equal)
        } else {
            Some(Ordering::Less)
        }
    } else {
        if ma == 0 && mb == 0 {
            Some(Ordering::Equal)
        } else {
            Some(Ordering::Greater)
        }
    }
}

/// Decide IEEE equality of two 64-bit patterns.
pub fn f64_bits_eq(a: u64, b: u64) -> (r: bool)
    ensures
        r == f64_eq(a, b),
{
    let ma: u64 = if a >= 0x8000_0000_0000_0000 { a - 0x8000_0000_0000_0000 } else { a };
    let mb: u64 = if b >= 0x8000_0000_0000_0000 { b - 0x8000_0000_0000_0000 } else { b };
    if ma > 0x7ff0_0000_0000_0000 || mb > 0x7ff0_0000_0000_0000 {
        return false;
    }
    if ma == 0 && mb == 0 {
        return true;
    }
    a == b
}

/// Decide the IEEE partial order of two 64-bit patterns.
pub fn f64_bits_cmp(a: u64, b: u64) -> (r: Option<Ordering>)
    ensures
        r == f64_cmp(a, b),
{
    let ma: u64 = if a >= 0x8000_0000_0000_0000 { a - 0x8000_0000_0000_0000 } else { a };
    let mb: u64 = if b >= 0x8000_0000_0000_0000 { b - 0x8000_0000_0000_0000 } else { b };
    if ma > 0x7ff0_0000_0000_0000 || mb > 0x7ff0_0000_0000_0000 {
        return None;
    }
    let sa = a >= 0x8000_0000_0000_0000;
    let sb = b >= 0x8000_0000_0000_0000;
    if !sa && !sb {
        if ma < mb {
            Some(Ordering::Less)
        } else if ma == mb {
            Some(Ordering::Equal)
        } else {
            Some(Ordering::Greater)
        }
    } else if sa && sb {
        if mb < ma {
            Some(Ordering::Less)
        } else if ma == mb {
            Some(Ordering::Equal)
        } else {
            Some(Ordering::Greater)
        }
    } else if sa {
        if ma == 0 && mb == 0 {
            Some(Ordering::Equal)
        } else {
            Some(Ordering::Less)
        }
    } else {
        if ma == 0 && mb == 0 {
            Some(Ordering::Equal)
        } else {
            Some(Ordering::Greater)
        }
    }
}

/// The UTF-8 bytes that a string's characters encode to.
pub open spec fn string_bytes(s: String) -> Seq<u8> {
    vstd::utf8::encode_utf8(s@)
}

/// Lexicographic order of two byte sequences: the first differing byte
/// decides; a proper prefix comes first.
pub open spec fn bytes_cmp_spec(a: Seq<u8>, b: Seq<u8>) -> Ordering
    decreases a.len(),
{
    if a.len() == 0 && b.len() == 0 {
        Ordering::Equal
    } else if a.len() == 0 {
        Ordering::Less
    } else if b.len() == 0 {
        Ordering::Greater
    } else if a[0] < b[0] {
        Ordering::Less
    } else if a[0] > b[0] {
        Ordering::Greater
    } else {
        bytes_cmp_spec(a.skip(1), b.skip(1))
    }
}

/// The lexicographic order calls two byte sequences equal exactly when
/// they are the same sequence.
pub proof fn lemma_bytes_cmp_equal(a: Seq<u8>, b: Seq<u8>)
    ensures
        (bytes_cmp_spec(a, b) == Ordering::Equal) <==> a == b,
    decreases a.len(),
{
    if a.len() == 0 && b.len() == 0 {
        assert(a =~= b);
    } else if a.len() == 0 || b.len() == 0 {
        assert(a != b);
    } else if a[0] == b[0] {
        lemma_bytes_cmp_equal(a.skip(1), b.skip(1));
        if bytes_cmp_spec(a, b) == Ordering::Equal {
            assert(a.skip(1) == b.skip(1));
            assert forall|i: int| 0 <= i < a.len() implies a[i] == b[i] by {
                if i >= 1 {
                    assert(a[i] == a.skip(1)[i - 1]);
                    assert(b[i] == b.skip(1)[i - 1]);
                }
            }
            assert(a =~= b);
        } else {
            if a == b {
                assert(a.skip(1) =~= b.skip(1));
            }
        }
    } else {
        if a == b {
            assert(a[0] == b[0]);
        }
    }
}

/// Compare two byte slices lexicographically.
pub fn bytes_cmp(a: &[u8], b: &[u8]) -> (r: Ordering)
    ensures
        r == bytes_cmp_spec(a@, b@),
{
    let alen = a.len();
    let blen = b.len();
    let mut i: usize = 0;
    proof {
        assert(a@.skip(0) =~= a@);
        assert(b@.skip(0) =~= b@);
    }
    loop
        invariant
            i <= alen,
            i <= blen,
            alen == a@.len(),
            blen == b@.len(),
            bytes_cmp_spec(a@, b@) == bytes_cmp_spec(a@.skip(i as int), b@.skip(i as int)),
        decreases a@.len() - i,
    {
        if i == alen && i == blen {
            return Ordering::Equal;
        } else if i == alen {
            return Ordering::Less;
        } else if i == blen {
            return Ordering::Greater;
        } else {
            let x = a[i];
            let y = b[i];
            if x < y {
                return Ordering::Less;
            } else if x > y {
                return Ordering::Greater;
            }
            proof {
                assert(a@.skip(i as int).skip(1) =~= a@.skip(i + 1));
                assert(b@.skip(i as int).skip(1) =~= b@.skip(i + 1));
            }
            i = i + 1;
        }
    }
}

/// Decide whether two byte slices hold the same bytes.
pub fn bytes_eq(a: &[u8], b: &[u8]) -> (r: bool)
    ensures
        r == (a@ == b@),
{
    proof {
        lemma_bytes_cmp_equal(a@, b@);
    }
    let r = bytes_cmp(a, b);
    match r {
        Ordering::Equal => true,
        _ => false,
    }
}

/// Compare the UTF-8 bytes of two strings lexicographically; for UTF-8
/// this is also the order of the code points.
pub fn str_cmp(a: &str, b: &str) -> (r: Ordering)
    ensures
        r == bytes_cmp_spec(a.spec_bytes(), b.spec_bytes()),
{
    bytes_cmp(a.as_bytes(), b.as_bytes())
}

/// Decide whether two strings hold the same UTF-8 bytes.
pub fn str_bytes_eq(a: &str, b: &str) -> (r: bool)
    ensures
        r == (a.spec_bytes() == b.spec_bytes()),
{
    bytes_eq(a.as_bytes(), b.as_bytes())
}

/// The unsigned 64-bit pattern that carries a signed 64-bit value: the
/// value itself when non-negative, the value shifted up by 2^64 when
/// negative.
pub open spec fn i64_bits_spec(v: i64) -> u64 {
    if v >= 0 {
        v as u64
    } else {
        ((v as int) + 0x1_0000_0000_0000_0000) as u64
    }
}

/// Carry a signed 64-bit value as its unsigned bit pattern.
pub fn i64_bits(v: i64) -> (r: u64)
    ensures
        r == i64_bits_spec(v),
{
    if v >= 0 {
        v as u64
    } else {
        let wide: i128 = (v as i128) + 0x1_0000_0000_0000_0000i128;
        wide as u64
    }
}

/// The upper 64 bits of an unsigned 128-bit value.
pub open spec fn u128_hi_spec(v: u128) -> u64 {
    (v / 0x1_0000_0000_0000_0000) as u64
}

/// The lower 64 bits of an unsigned 128-bit value.
pub open spec fn u128_lo_spec(v: u128) -> u64 {
    (v % 0x1_0000_0000_0000_0000) as u64
}

/// Split an unsigned 128-bit value into its two 64-bit halves.
pub fn u128_split(v: u128) -> (r: (u64, u64))
    ensures
        r.0 == u128_hi_spec(v),
        r.1 == u128_lo_spec(v),
{
    let hi = (v / 0x1_0000_0000_0000_0000u128) as u64;
    let lo = (v % 0x1_0000_0000_0000_0000u128) as u64;
    (hi, lo)
}

} // verus!
