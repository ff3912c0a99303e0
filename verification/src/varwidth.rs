use crate::cursor::ByteCursor;
use crate::errors::{ErrorReason, IonError};
use vstd::arithmetic::div_mod::*;
use vstd::arithmetic::mul::*;
use vstd::arithmetic::power2::*;
use vstd::prelude::*;

verus! {

// ---------------------------------------------------------------------------
// Little-endian byte arithmetic
// ---------------------------------------------------------------------------

/// The value of a little-endian byte sequence as a natural number.
pub open spec fn le_nat(s: Seq<u8>) -> nat
    decreases s.len(),
{
    if s.len() == 0 {
        0
    } else {
        s[0] as nat + 256 * le_nat(s.subrange(1, s.len() as int))
    }
}

/// A little-endian byte sequence read as a two's-complement signed integer.
pub open spec fn le_int(s: Seq<u8>) -> int {
    if s.len() == 0 {
        0
    } else if le_nat(s) < pow2((8 * s.len() - 1) as nat) {
        le_nat(s) as int
    } else {
        le_nat(s) - pow2(8 * s.len())
    }
}

pub proof fn lemma_le_nat_bound(s: Seq<u8>)
    ensures
        le_nat(s) < pow2(8 * s.len()),
    decreases s.len(),
{
    lemma2_to64();
    if s.len() > 0 {
        let t = s.subrange(1, s.len() as int);
        lemma_le_nat_bound(t);
        lemma_pow2_adds(8, 8 * t.len());
        lemma_mul_inequality(le_nat(t) as int, pow2(8 * t.len()) as int - 1, 256);
    }
}

/// Unfolds `le_nat` one byte at a time over a subrange.
pub proof fn lemma_le_nat_unfold(s: Seq<u8>, i: int, j: int)
    requires
        0 <= i < j <= s.len(),
    ensures
        le_nat(s.subrange(i, j)) == s[i] as nat + 256 * le_nat(s.subrange(i + 1, j)),
{
    let t = s.subrange(i, j);
    assert(t.subrange(1, t.len() as int) =~= s.subrange(i + 1, j));
}

/// The little-endian bytes of `x` over exactly `l` byte positions.
pub open spec fn nat_to_le(x: nat, l: nat) -> Seq<u8>
    decreases l,
{
    if l == 0 {
        Seq::empty()
    } else {
        seq![(x % 256) as u8] + nat_to_le(x / 256, (l - 1) as nat)
    }
}

pub proof fn lemma_nat_to_le_len(x: nat, l: nat)
    ensures
        nat_to_le(x, l).len() == l,
    decreases l,
{
    if l > 0 {
        lemma_nat_to_le_len(x / 256, (l - 1) as nat);
    }
}

pub proof fn lemma_nat_to_le_index(x: nat, l: nat, i: nat)
    requires
        i < l,
    ensures
        nat_to_le(x, l)[i as int] == ((x / pow2(8 * i)) % 256) as u8,
    decreases i,
{
    lemma_nat_to_le_len(x / 256, (l - 1) as nat);
    if i == 0 {
        lemma2_to64();
        lemma_div_basics_2(x as int);
    } else {
        lemma_nat_to_le_index(x / 256, (l - 1) as nat, (i - 1) as nat);
        lemma2_to64();
        lemma_pow2_adds(8, 8 * (i - 1) as nat);
        lemma_pow2_pos(8 * (i - 1) as nat);
        lemma_div_denominator(x as int, 256, pow2(8 * (i - 1) as nat) as int);
    }
}

pub proof fn lemma_le_nat_of_nat_to_le(x: nat, l: nat)
    requires
        x < pow2(8 * l),
    ensures
        nat_to_le(x, l).len() == l,
        le_nat(nat_to_le(x, l)) == x,
    decreases l,
{
    lemma_nat_to_le_len(x, l);
    lemma2_to64();
    if l == 0 {
    } else {
        let s = nat_to_le(x, l);
        lemma_pow2_adds(8, 8 * (l - 1) as nat);
        lemma_pow2_pos(8 * (l - 1) as nat);
        lemma_multiply_divide_lt(x as int, 256, pow2(8 * (l - 1) as nat) as int);
        lemma_le_nat_of_nat_to_le(x / 256, (l - 1) as nat);
        assert(s.subrange(1, s.len() as int) =~= nat_to_le(x / 256, (l - 1) as nat));
        lemma_fundamental_div_mod(x as int, 256);
    }
}

// ---------------------------------------------------------------------------
// The encoded length declared by the first byte
// ---------------------------------------------------------------------------

/// The total encoded length declared by the first byte of a variable-width
/// integer: one more than the index of its least-significant set bit.
/// Meaningful only for a nonzero byte.
pub open spec fn vw_len(b: u8) -> nat
    decreases b,
{
    if b % 2 == 1 || b == 0 {
        1
    } else {
        1 + vw_len(b / 2)
    }
}

proof fn lemma_vw_len_le(b: u8, n: nat)
    requires
        b != 0,
        b < pow2(n),
        n >= 1,
    ensures
        vw_len(b) <= n,
    decreases b,
{
    if b % 2 != 1 {
        lemma_pow2_unfold(n);
        if n == 1 {
            lemma2_to64();
            assert(false);
        } else {
            lemma_vw_len_le(b / 2, (n - 1) as nat);
        }
    }
}

pub proof fn lemma_vw_len_bounds(b: u8)
    requires
        b != 0,
    ensures
        1 <= vw_len(b) <= 8,
        (b as nat) % pow2(vw_len(b)) == pow2((vw_len(b) - 1) as nat),
    decreases b,
{
    lemma2_to64();
    if b % 2 == 1 {
        assert((b as nat) % 2 == 1);
    } else {
        let h = b / 2;
        lemma_vw_len_bounds(h);
        let k = vw_len(h);
        lemma_vw_len_le(b, 8);
        // b == 2 * h, so b % 2^(k+1) == 2 * (h % 2^k)
        lemma_pow2_pos(k);
        lemma_breakdown(b as int, 2, pow2(k) as int);
        lemma_pow2_adds(1, k);
        assert(b as nat % pow2(k + 1) == 2 * (h as nat % pow2(k)) + b as nat % 2);
        lemma_pow2_adds(1, (k - 1) as nat);
    }
}

proof fn lemma_pow2_mod_pow2(a: nat, b: nat)
    requires
        b <= a,
    ensures
        pow2(a) % pow2(b) == 0,
{
    lemma_pow2_adds(b, (a - b) as nat);
    lemma_pow2_pos(b);
    lemma_mod_multiples_basic(pow2((a - b) as nat) as int, pow2(b) as int);
}

/// A nonzero byte declares exactly one encoded length: if the byte's low `l`
/// bits are exactly the single stop bit at position `l - 1`, then `vw_len`
/// agrees with `l`.
pub proof fn lemma_vw_len_unique(b: u8, l: nat)
    requires
        1 <= l <= 8,
        (b as nat) % pow2(l) == pow2((l - 1) as nat),
    ensures
        b != 0,
        vw_len(b) == l,
{
    lemma_pow2_pos((l - 1) as nat);
    lemma_pow2_pos(l);
    if b == 0 {
        lemma_small_mod(0, pow2(l));
        assert(false);
    }
    lemma_vw_len_bounds(b);
    let k = vw_len(b);
    if k != l {
        let lo = if k < l { k } else { l };
        let hi = if k < l { l } else { k };
        // In either order, b mod 2^lo is both pow2(lo - 1) and the residue of
        // pow2(hi - 1) mod pow2(lo), which is 0 -- a contradiction.
        lemma_pow2_pos(lo);
        lemma_pow2_pos(hi);
        lemma_pow2_pos((hi - lo) as nat);
        lemma_pow2_adds(lo, (hi - lo) as nat);
        lemma_breakdown(b as int, pow2(lo) as int, pow2((hi - lo) as nat) as int);
        // b % 2^hi == 2^lo * ((b / 2^lo) % 2^(hi-lo)) + b % 2^lo
        let q = ((b as int / pow2(lo) as int) % pow2((hi - lo) as nat) as int);
        assert(b as nat % pow2(hi) == pow2(lo) * q + b as nat % pow2(lo));
        assert(b as nat % pow2(hi) == pow2((hi - 1) as nat));
        lemma_pow2_adds(lo, (hi - 1 - lo) as nat);
        // pow2(hi - 1) == pow2(lo) * pow2(hi - 1 - lo), so b % 2^lo is a
        // multiple of 2^lo below 2^lo, hence 0.
        lemma_fundamental_div_mod_converse(
            pow2((hi - 1) as nat) as int,
            pow2(lo) as int,
            q,
            (b as nat % pow2(lo)) as int,
        );
        lemma_pow2_mod_pow2((hi - 1) as nat, lo);
        lemma_pow2_pos((lo - 1) as nat);
        assert(false);
    }
}

// ---------------------------------------------------------------------------
// Decoding, specified over byte sequences
// ---------------------------------------------------------------------------

/// Outcome of decoding a variable-width unsigned integer from the front of a
/// byte sequence.
pub enum VwUnsigned {
    /// A value and the total number of encoded bytes it occupied.
    Value { v: nat, len: nat },
    /// The first byte was zero: a reserved extended-length form this decoder
    /// treats as an error.
    Reserved,
    /// Fewer bytes remain than the first byte declares.
    Truncated,
}

/// Outcome of decoding a variable-width signed integer.
pub enum VwSigned {
    Value { v: int, len: nat },
    Reserved,
    Truncated,
}

/// Decodes a variable-width unsigned integer from the front of `s`: the
/// first byte's least-significant set bit gives the total length `len`, the
/// `len` bytes form a little-endian integer, and shifting out the `len` flag
/// bits (division by `2^len`) yields the magnitude.
pub open spec fn vw_decode_u(s: Seq<u8>) -> VwUnsigned {
    if s.len() == 0 {
        VwUnsigned::Truncated
    } else if s[0] == 0 {
        VwUnsigned::Reserved
    } else {
        let l = vw_len(s[0]);
        if s.len() < l {
            VwUnsigned::Truncated
        } else {
            VwUnsigned::Value { v: le_nat(s.subrange(0, l as int)) / pow2(l), len: l }
        }
    }
}

/// Decodes a variable-width signed integer: the unsigned magnitude is
/// reinterpreted as a two's-complement value of width `7 * len` bits.
pub open spec fn vw_decode_s(s: Seq<u8>) -> VwSigned {
    match vw_decode_u(s) {
        VwUnsigned::Value { v, len } => VwSigned::Value {
            v: if v < pow2((7 * len - 1) as nat) {
                v as int
            } else {
                v - pow2(7 * len)
            },
            len,
        },
        VwUnsigned::Reserved => VwSigned::Reserved,
        VwUnsigned::Truncated => VwSigned::Truncated,
    }
}

/// A decoded magnitude always fits in `7 * len` bits, and the length is
/// between 1 and 8 bytes and available in the input.
pub proof fn lemma_vw_value_bound(s: Seq<u8>)
    requires
        vw_decode_u(s) matches VwUnsigned::Value { .. },
    ensures
        ({
            let r = vw_decode_u(s);
            match r {
                VwUnsigned::Value { v, len } => {
                    &&& 1 <= len <= 8
                    &&& len <= s.len()
                    &&& v < pow2(7 * len)
                },
                _ => true,
            }
        }),
{
    lemma_vw_len_bounds(s[0]);
    let l = vw_len(s[0]);
    let sub = s.subrange(0, l as int);
    assert(sub.len() == l);
    let x = le_nat(sub);
    lemma_le_nat_bound(sub);
    lemma_pow2_adds(l, 7 * l);
    lemma_pow2_pos(l);
    assert(x < pow2(l) * pow2(7 * l));
    lemma_multiply_divide_lt(x as int, pow2(l) as int, pow2(7 * l) as int);
}

// ---------------------------------------------------------------------------
// Encoding, specified over byte sequences
// ---------------------------------------------------------------------------

/// The `l`-byte encoding of the non-negative integer `n`: the magnitude is
/// shifted left past `l` flag bits and the single stop bit at position
/// `l - 1` is set.
pub open spec fn vw_encode_u(n: nat, l: nat) -> Seq<u8>
    recommends
        1 <= l,
        n < pow2(7 * l),
{
    nat_to_le(n * pow2(l) + pow2((l - 1) as nat), l)
}

/// The `l`-byte encoding of the signed integer `n`, stored as its
/// two's-complement magnitude of width `7 * l` bits.
pub open spec fn vw_encode_s(n: int, l: nat) -> Seq<u8>
    recommends
        1 <= l,
        -pow2((7 * l - 1) as nat) <= n < pow2((7 * l - 1) as nat),
{
    vw_encode_u(if n >= 0 { n as nat } else { (n + pow2(7 * l)) as nat }, l)
}

/// Round trip for unsigned encodings: decoding an `l`-byte encoding of `n`
/// yields `n` again, for every permissible length `l` -- including
/// over-padded, non-minimal encodings.
pub proof fn lemma_unsigned_round_trip(n: nat, l: nat)
    requires
        1 <= l <= 8,
        n < pow2(7 * l),
    ensures
        vw_decode_u(vw_encode_u(n, l)) == (VwUnsigned::Value { v: n, len: l }),
{
    lemma2_to64();
    let p = pow2(l);
    let h = pow2((l - 1) as nat);
    lemma_pow2_pos(l);
    lemma_pow2_pos((l - 1) as nat);
    lemma_pow2_unfold(l);
    let x = n * p + h;
    // x < pow2(8 * l)
    lemma_pow2_adds(7 * l, l);
    assert(x < pow2(8 * l)) by (nonlinear_arith)
        requires
            x == n * p + h,
            n < pow2(7 * l),
            0 < h,
            2 * h == p,
            pow2(7 * l) * p == pow2(8 * l),
    ;
    let s = vw_encode_u(n, l);
    lemma_le_nat_of_nat_to_le(x, l);
    // x % pow2(l) == h and x / pow2(l) == n
    lemma_fundamental_div_mod_converse(x as int, p as int, n as int, h as int);
    // s[0] == x % 256, and its low l bits are exactly the stop bit
    lemma_nat_to_le_index(x, l, 0);
    lemma_div_basics_2(x as int);
    assert(s[0] == (x % 256) as u8);
    lemma_pow2_adds(l, (8 - l) as nat);
    lemma_pow2_pos((8 - l) as nat);
    lemma_breakdown(x as int, p as int, pow2((8 - l) as nat) as int);
    let q = (x as int / p as int) % pow2((8 - l) as nat) as int;
    assert(x % pow2(8) == p * q + x % p);
    lemma_mod_bound(x as int, 256);
    assert(s[0] as nat == x % 256);
    lemma_mod_multiples_vanish(q, (x % p) as int, p as int);
    lemma_small_mod((x % p) as nat, p);
    assert((s[0] as nat) % p == h);
    lemma_vw_len_unique(s[0], l);
    assert(s.subrange(0, l as int) =~= s);
}

/// Round trip for signed encodings, again for every permissible length.
pub proof fn lemma_signed_round_trip(n: int, l: nat)
    requires
        1 <= l <= 8,
        -pow2((7 * l - 1) as nat) <= n < pow2((7 * l - 1) as nat),
    ensures
        vw_decode_s(vw_encode_s(n, l)) == (VwSigned::Value { v: n, len: l }),
{
    let half = pow2((7 * l - 1) as nat);
    let full = pow2(7 * l);
    lemma_pow2_unfold(7 * l);
    lemma_pow2_adds((7 * l - 1) as nat, 1);
    assert(full == half * 2);
    let m: nat = if n >= 0 { n as nat } else { (n + full) as nat };
    lemma_unsigned_round_trip(m, l);
}

// ---------------------------------------------------------------------------
// Executable decoding
// ---------------------------------------------------------------------------

/// 2 to the power `l`, for exponents that fit in a `u64`.
fn pow2_u64(l: usize) -> (p: u64)
    requires
        l <= 63,
    ensures
        p == pow2(l as nat),
{
    let mut p: u64 = 1;
    let mut i: usize = 0;
    proof {
        lemma2_to64();
    }
    while i < l
        invariant
            i <= l <= 63,
            p == pow2(i as nat),
        decreases l - i,
    {
        proof {
            lemma_pow2_adds(i as nat, 1);
            lemma2_to64();
            lemma_pow2_strictly_increases(i as nat, 64);
            if i as nat + 1 < 64 {
                lemma_pow2_strictly_increases((i + 1) as nat, 64);
            }
            lemma2_to64_rest();
        }
        p = p * 2;
        i = i + 1;
    }
    p
}

/// The encoded length declared by a nonzero first byte.
fn vw_len_exec(b: u8) -> (l: usize)
    requires
        b != 0,
    ensures
        l == vw_len(b),
        1 <= l <= 8,
{
    let mut x: u8 = b;
    let mut l: usize = 1;
    proof {
        lemma2_to64();
    }
    while x % 2 == 0
        invariant
            x != 0,
            1 <= l <= 8,
            vw_len(b) == (l - 1) + vw_len(x),
            x < pow2((9 - l) as nat),
        decreases x,
    {
        proof {
            lemma2_to64();
            if l == 8 {
                assert(x < 2);
                assert(false);
            }
            lemma_pow2_unfold((9 - l) as nat);
        }
        x = x / 2;
        l = l + 1;
    }
    l
}

/// Reads `l` bytes from the front of `c` as a little-endian integer.
fn read_raw(c: &ByteCursor, l: usize) -> (raw: u64)
    requires
        c.wf(),
        1 <= l <= 8,
        l <= c.bytes().len(),
    ensures
        raw == le_nat(c.bytes().subrange(0, l as int)),
{
    let mut raw: u64 = 0;
    let mut i: usize = l;
    proof {
        assert(c.bytes().subrange(l as int, l as int) =~= Seq::<u8>::empty());
        lemma2_to64();
    }
    while i > 0
        invariant
            c.wf(),
            1 <= l <= 8,
            l <= c.bytes().len(),
            i <= l,
            raw == le_nat(c.bytes().subrange(i as int, l as int)),
            raw < pow2(8 * (l - i) as nat),
        decreases i,
    {
        i = i - 1;
        let b = c.get(i);
        proof {
            lemma_le_nat_unfold(c.bytes(), i as int, l as int);
            lemma_pow2_adds(8 * (l - i - 1) as nat, 8);
            lemma2_to64();
            lemma2_to64_rest();
            lemma_mul_inequality(raw as int, pow2(8 * (l - i - 1) as nat) as int - 1, 256);
            if 8 * (l - i) < 64 {
                lemma_pow2_strictly_increases(8 * (l - i) as nat, 64);
            }
        }
        raw = raw * 256 + (b as u64);
    }
    raw
}

/// Decodes a variable-width unsigned integer at the front of the cursor,
/// returning the value and the number of bytes it occupied. The cursor is
/// not advanced. Errors are exactly those of `vw_decode_u`, with `Incomplete`
/// reported at the cursor's position.
pub fn decode_unsigned(c: &ByteCursor) -> (res: Result<(u64, usize), IonError>)
    requires
        c.wf(),
    ensures
        match vw_decode_u(c.bytes()) {
            VwUnsigned::Value { v, len } => res matches Ok(p) && p.0 == v && p.1 == len,
            VwUnsigned::Reserved => res == Err::<(u64, usize), IonError>(
                IonError::Decoding { reason: ErrorReason::ReservedVarWidth },
            ),
            VwUnsigned::Truncated => res == Err::<(u64, usize), IonError>(
                IonError::Incomplete { position: c.spec_offset() as usize },
            ),
        },
{
    if c.is_empty() {
        return Err(IonError::Incomplete { position: c.offset() });
    }
    let b = c.get(0);
    if b == 0 {
        return Err(IonError::Decoding { reason: ErrorReason::ReservedVarWidth });
    }
    let l = vw_len_exec(b);
    if l > c.len() {
        return Err(IonError::Incomplete { position: c.offset() });
    }
    let raw = read_raw(c, l);
    let d = pow2_u64(l);
    proof {
        lemma_pow2_pos(l as nat);
    }
    let v = raw / d;
    Ok((v, l))
}

/// Decodes a variable-width signed integer at the front of the cursor: the
/// magnitude of `decode_unsigned`, sign-extended from bit `7 * len - 1`.
pub fn decode_signed(c: &ByteCursor) -> (res: Result<(i64, usize), IonError>)
    requires
        c.wf(),
    ensures
        match vw_decode_s(c.bytes()) {
            VwSigned::Value { v, len } => res matches Ok(p) && p.0 == v && p.1 == len,
            VwSigned::Reserved => res == Err::<(i64, usize), IonError>(
                IonError::Decoding { reason: ErrorReason::ReservedVarWidth },
            ),
            VwSigned::Truncated => res == Err::<(i64, usize), IonError>(
                IonError::Incomplete { position: c.spec_offset() as usize },
            ),
        },
{
    let (m, l) = match decode_unsigned(c) {
        Ok(p) => p,
        Err(e) => {
            return Err(e);
        },
    };
    proof {
        lemma_vw_value_bound(c.bytes());
        lemma_pow2_unfold((7 * l) as nat);
        lemma_pow2_strictly_increases((7 * l) as nat, 63);
        lemma2_to64_rest();
    }
    let full = pow2_u64(7 * l);
    let half = full / 2;
    proof {
        lemma_pow2_adds((7 * l - 1) as nat, 1);
        lemma_pow2_pos((7 * l - 1) as nat);
        assert(full == pow2((7 * l - 1) as nat) * 2);
        assert(half == pow2((7 * l - 1) as nat));
    }
    if m < half {
        Ok((m as i64, l))
    } else {
        let diff = full - m;
        Ok((-(diff as i64), l))
    }
}

// ---------------------------------------------------------------------------
// Executable encoding
// ---------------------------------------------------------------------------

/// Emits the `l`-byte encoding of `m`.
fn encode_with_len(m: u64, l: usize) -> (r: Vec<u8>)
    requires
        1 <= l <= 8,
        m < pow2(7 * l as nat),
    ensures
        r@ == vw_encode_u(m as nat, l as nat),
        r@.len() == l,
{
    let p = pow2_u64(l);
    let half = p / 2;
    proof {
        lemma_pow2_unfold(l as nat);
        lemma_pow2_pos((l - 1) as nat);
        lemma_pow2_adds(7 * l as nat, l as nat);
        assert(m * p + half < pow2(8 * l as nat)) by (nonlinear_arith)
            requires
                m < pow2(7 * l as nat),
                0 < half,
                2 * half == p,
                half == pow2((l - 1) as nat),
                pow2(7 * l as nat) * p == pow2(8 * l as nat),
        ;
        lemma2_to64();
        lemma2_to64_rest();
        if 8 * l < 64 {
            lemma_pow2_strictly_increases(8 * l as nat, 64);
        }
    }
    let x0: u64 = m * p + half;
    let ghost xg: nat = x0 as nat;
    let ghost target = nat_to_le(xg, l as nat);
    proof {
        lemma_nat_to_le_len(xg, l as nat);
        lemma2_to64();
        lemma_div_basics_2(x0 as int);
    }
    let mut x: u64 = x0;
    let mut r: Vec<u8> = Vec::new();
    let mut i: usize = 0;
    while i < l
        invariant
            i <= l <= 8,
            r@.len() == i,
            target.len() == l,
            target == nat_to_le(xg, l as nat),
            x == xg / pow2(8 * i as nat),
            forall|j: int| 0 <= j < i ==> r@[j] == target[j],
        decreases l - i,
    {
        proof {
            lemma_nat_to_le_index(xg, l as nat, i as nat);
            lemma_pow2_adds(8 * i as nat, 8);
            lemma_pow2_pos(8 * i as nat);
            lemma2_to64();
            lemma_div_denominator(xg as int, pow2(8 * i as nat) as int, 256);
        }
        let b = (x % 256) as u8;
        r.push(b);
        x = x / 256;
        i = i + 1;
    }
    proof {
        assert(r@ =~= target);
    }
    r
}

/// Encodes `n` as a variable-width unsigned integer in minimal form: the
/// result uses the smallest permissible length, and decoding it yields `n`
/// again.
pub fn encode_unsigned(n: u64) -> (r: Vec<u8>)
    requires
        n < pow2(56),
    ensures
        1 <= r@.len() <= 8,
        r@ == vw_encode_u(n as nat, r@.len()),
        n < pow2(7 * r@.len()),
        r@.len() == 1 || pow2(7 * (r@.len() - 1) as nat) <= n,
        vw_decode_u(r@) == (VwUnsigned::Value { v: n as nat, len: r@.len() }),
{
    let mut l: usize = 1;
    let mut cap: u64 = 128;
    proof {
        lemma2_to64();
    }
    while n >= cap
        invariant
            1 <= l <= 8,
            cap == pow2(7 * l as nat),
            cap <= 0x100000000000000,
            l == 1 || pow2(7 * (l - 1) as nat) <= n,
            n < pow2(56),
        decreases 8 - l,
    {
        proof {
            lemma2_to64();
            lemma2_to64_rest();
            if l == 8 {
                assert(false);
            }
            lemma_pow2_adds(7 * l as nat, 7);
            if 7 * l + 7 < 56 {
                lemma_pow2_strictly_increases(7 * l as nat + 7, 56);
            }
        }
        cap = cap * 128;
        l = l + 1;
    }
    let r = encode_with_len(n, l);
    proof {
        lemma_unsigned_round_trip(n as nat, l as nat);
    }
    r
}

/// Encodes `n` as a variable-width signed integer in minimal form.
pub fn encode_signed(n: i64) -> (r: Vec<u8>)
    requires
        -pow2(55) <= n < pow2(55),
    ensures
        1 <= r@.len() <= 8,
        r@ == vw_encode_s(n as int, r@.len()),
        -pow2((7 * r@.len() - 1) as nat) <= n < pow2((7 * r@.len() - 1) as nat),
        r@.len() == 1 || !(-pow2((7 * (r@.len() - 1) - 1) as nat) <= n < pow2(
            (7 * (r@.len() - 1) - 1) as nat,
        )),
        vw_decode_s(r@) == (VwSigned::Value { v: n as int, len: r@.len() }),
{
    let mut l: usize = 1;
    let mut cap: u64 = 64;
    proof {
        lemma2_to64();
    }
    while n >= cap as i64 || n < -(cap as i64)
        invariant
            1 <= l <= 8,
            cap == pow2((7 * l - 1) as nat),
            cap <= 0x80000000000000,
            l == 1 || !(-pow2((7 * (l - 1) - 1) as nat) <= n < pow2((7 * (l - 1) - 1) as nat)),
            -pow2(55) <= n < pow2(55),
        decreases 8 - l,
    {
        proof {
            lemma2_to64();
            lemma2_to64_rest();
            if l == 8 {
                assert(false);
            }
            lemma_pow2_adds((7 * l - 1) as nat, 7);
            if 7 * l + 6 < 55 {
                lemma_pow2_strictly_increases((7 * l + 6) as nat, 55);
            }
        }
        cap = cap * 128;
        l = l + 1;
    }
    proof {
        lemma_pow2_unfold(7 * l as nat);
        lemma_pow2_adds((7 * l - 1) as nat, 1);
        lemma_pow2_strictly_increases((7 * l - 1) as nat, 56);
        lemma2_to64_rest();
    }
    let full = pow2_u64(7 * l);
    let m: u64 = if n >= 0 {
        n as u64
    } else {
        ((full as i64) + n) as u64
    };
    let r = encode_with_len(m, l);
    proof {
        lemma_signed_round_trip(n as int, l as nat);
    }
    r
}

} // verus!
