//! Fixed-width little-endian integers and SCALE `Compact` integers.
use vstd::prelude::*;

verus! {

/// Why a buffer could not be decoded.
#[derive(Debug, Clone, Copy, PartialEq, Eq, Structural)]
pub enum DecodeError {
    /// The buffer ended before the value did.
    UnexpectedEnd,
    /// The bytes are present but do not form a valid value of the type.
    InvalidEncoding,
    /// A variant discriminant that the type does not declare.
    UnknownVariant(u8),
    /// A well-formed encoding this decoder does not handle.
    UnsupportedEncoding,
    /// The registry refers to a type id it does not hold.
    DanglingTypeId(u32),
    /// The type nests deeper than the decoder follows.
    TooDeep,
}

/// The value of a byte sequence read as a little-endian unsigned integer.
pub open spec fn le_value(s: Seq<u8>) -> nat
    decreases s.len(),
{
    if s.len() == 0 {
        0
    } else {
        s[0] as nat + 256 * le_value(s.drop_first())
    }
}

/// `256` to the power `n`.
pub open spec fn pow256(n: nat) -> nat
    decreases n,
{
    if n == 0 {
        1
    } else {
        256 * pow256((n - 1) as nat)
    }
}

/// The `w` little-endian bytes of `x` (the low `w` bytes when `x` is larger).
pub open spec fn le_bytes(x: nat, w: nat) -> Seq<u8>
    decreases w,
{
    if w == 0 {
        Seq::empty()
    } else {
        seq![(x % 256) as u8] + le_bytes(x / 256, (w - 1) as nat)
    }
}

pub proof fn lemma_pow256_pos(n: nat)
    ensures
        pow256(n) >= 1,
    decreases n,
{
    if n > 0 {
        lemma_pow256_pos((n - 1) as nat);
    }
}

pub proof fn lemma_pow256_mono(a: nat, b: nat)
    requires
        a <= b,
    ensures
        pow256(a) <= pow256(b),
    decreases b,
{
    if a < b {
        lemma_pow256_mono(a, (b - 1) as nat);
        lemma_pow256_pos((b - 1) as nat);
    }
}

pub proof fn lemma_pow256_16()
    ensures
        pow256(16) == 0x1_0000_0000_0000_0000_0000_0000_0000_0000,
{
    reveal_with_fuel(pow256, 17);
}

pub proof fn lemma_le_value_bound(s: Seq<u8>)
    ensures
        le_value(s) < pow256(s.len()),
    decreases s.len(),
{
    if s.len() > 0 {
        lemma_le_value_bound(s.drop_first());
        let r = le_value(s.drop_first());
        assert(s[0] as nat + 256 * r < 256 * pow256((s.len() - 1) as nat)) by (nonlinear_arith)
            requires
                r < pow256((s.len() - 1) as nat),
                s[0] < 256,
        ;
    }
}

/// Reading back the `w` little-endian bytes of `x` gives `x`.
pub proof fn lemma_le_round_trip(x: nat, w: nat)
    requires
        x < pow256(w),
    ensures
        le_value(le_bytes(x, w)) == x,
        le_bytes(x, w).len() == w,
    decreases w,
{
    if w > 0 {
        let w1 = (w - 1) as nat;
        assert(x / 256 < pow256(w1)) by (nonlinear_arith)
            requires
                x < 256 * pow256(w1),
        ;
        lemma_le_round_trip(x / 256, w1);
        let s = le_bytes(x, w);
        assert(s.drop_first() =~= le_bytes(x / 256, w1));
        assert(x == x % 256 + 256 * (x / 256)) by (nonlinear_arith);
    }
}

proof fn lemma_le_step(data: Seq<u8>, a: int, b: int)
    requires
        0 <= a < b <= data.len(),
    ensures
        le_value(data.subrange(a, b)) == data[a] as nat + 256 * le_value(data.subrange(a + 1, b)),
{
    assert(data.subrange(a, b).drop_first() =~= data.subrange(a + 1, b));
}

/// Reads `width` bytes at `pos` as a little-endian unsigned integer.
pub fn read_le(data: &[u8], pos: usize, width: usize) -> (r: u128)
    requires
        width <= 16,
        pos + width <= data@.len(),
    ensures
        r as nat == le_value(data@.subrange(pos as int, pos + width)),
{
    let len = data.len();
    let mut acc: u128 = 0;
    let mut k: usize = width;
    while k > 0
        invariant
            k <= width <= 16,
            len == data@.len(),
            pos + width <= data@.len(),
            acc as nat == le_value(data@.subrange(pos + k, pos + width)),
        decreases k,
    {
        k = k - 1;
        proof {
            lemma_le_step(data@, pos + k, pos + width);
            lemma_le_value_bound(data@.subrange(pos + k + 1, pos + width));
            lemma_pow256_mono((width - k - 1) as nat, 15);
            lemma_pow256_16();
            reveal_with_fuel(pow256, 2);
            assert(pow256(16) == 256 * pow256(15));
            let r = le_value(data@.subrange(pos + k + 1, pos + width));
            assert(acc * 256 + data@[pos + k] < pow256(16)) by (nonlinear_arith)
                requires
                    acc == r,
                    r < pow256(15),
                    data@[pos + k] < 256,
                    pow256(16) == 256 * pow256(15),
            ;
        }
        acc = acc * 256 + data[pos + k] as u128;
    }
    acc
}

/// The SCALE `Compact` integer at `pos`, with the offset just past it.
///
/// The low two bits of the first byte select the form: the value itself in
/// the upper six bits; two or four little-endian bytes shifted right by two;
/// or, for the big form, `upper six bits + 4` further little-endian bytes.
/// A big form longer than sixteen bytes is refused rather than truncated.
pub open spec fn compact_spec(data: Seq<u8>, pos: int) -> Result<(nat, int), DecodeError> {
    if pos < 0 || pos >= data.len() {
        Err(DecodeError::UnexpectedEnd)
    } else {
        let b = data[pos];
        if b % 4 == 0 {
            Ok(((b / 4) as nat, pos + 1))
        } else if b % 4 == 1 {
            if pos + 2 > data.len() {
                Err(DecodeError::UnexpectedEnd)
            } else {
                Ok((le_value(data.subrange(pos, pos + 2)) / 4, pos + 2))
            }
        } else if b % 4 == 2 {
            if pos + 4 > data.len() {
                Err(DecodeError::UnexpectedEnd)
            } else {
                Ok((le_value(data.subrange(pos, pos + 4)) / 4, pos + 4))
            }
        } else {
            let n = b / 4 + 4;
            if n > 16 {
                Err(DecodeError::UnsupportedEncoding)
            } else if pos + 1 + n > data.len() {
                Err(DecodeError::UnexpectedEnd)
            } else {
                Ok((le_value(data.subrange(pos + 1, pos + 1 + n)), pos + 1 + n))
            }
        }
    }
}

/// Decodes the `Compact` integer at `pos`.
pub fn read_compact(data: &[u8], pos: usize) -> (r: Result<(u128, usize), DecodeError>)
    ensures
        r matches Ok((v, p)) ==> compact_spec(data@, pos as int) == Ok::<(nat, int), DecodeError>((v as nat, p as int)),
        r matches Err(e) ==> compact_spec(data@, pos as int) == Err::<(nat, int), DecodeError>(e),
{
    if pos >= data.len() {
        return Err(DecodeError::UnexpectedEnd);
    }
    let b = data[pos];
    let mode = b & 3;
    assert(mode == b % 4) by (bit_vector)
        requires
            mode == b & 3,
    ;
    if mode == 0 {
        Ok(((b / 4) as u128, pos + 1))
    } else if mode == 1 {
        if data.len() - pos < 2 {
            return Err(DecodeError::UnexpectedEnd);
        }
        let v = read_le(data, pos, 2);
        Ok((v / 4, pos + 2))
    } else if mode == 2 {
        if data.len() - pos < 4 {
            return Err(DecodeError::UnexpectedEnd);
        }
        let v = read_le(data, pos, 4);
        Ok((v / 4, pos + 4))
    } else {
        let n = (b / 4) as usize + 4;
        if n > 16 {
            return Err(DecodeError::UnsupportedEncoding);
        }
        if data.len() - pos - 1 < n {
            return Err(DecodeError::UnexpectedEnd);
        }
        let v = read_le(data, pos + 1, n);
        Ok((v, pos + 1 + n))
    }
}

} // verus!
