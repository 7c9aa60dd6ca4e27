//! The format's variable-length integer encoding: base-128, big-endian,
//! with the high bit of each byte marking continuation.  The first eight
//! bytes contribute seven value bits each; a ninth byte, when reached,
//! contributes all eight of its bits and ends the integer unconditionally,
//! so every 64-bit value is representable in at most nine bytes.
use vstd::prelude::*;

use crate::error::DecodeError;

verus! {

/// `128^e`: the weight of one base-128 digit position.
pub open spec fn pow128(e: nat) -> nat
    decreases e,
{
    if e == 0 {
        1
    } else {
        128 * pow128((e - 1) as nat)
    }
}

/// The decoded value and end position of a variable-length integer whose
/// remaining bytes start at index `i` of `s`, with `acc` the value of the
/// digits already consumed.  `None` means the input ends before a byte
/// terminates the integer.
pub open spec fn varint_dec(s: Seq<u8>, i: nat, acc: nat) -> Option<(nat, nat)>
    decreases 9 - i,
{
    if i >= s.len() || i > 8 {
        None
    } else if i == 8 {
        Some(((acc * 256 + s[i as int]) as nat, (i + 1) as nat))
    } else if s[i as int] < 128 {
        Some(((acc * 128 + s[i as int]) as nat, (i + 1) as nat))
    } else {
        varint_dec(s, (i + 1) as nat, (acc * 128 + s[i as int] - 128) as nat)
    }
}

/// The value and byte length of the variable-length integer at the front
/// of `s`, or `None` when `s` is too short to contain one.
pub open spec fn varint_spec(s: Seq<u8>) -> Option<(nat, nat)> {
    varint_dec(s, 0, 0)
}

/// The variable-length integer starting at absolute position `pos` of `s`:
/// its value and the absolute position of the first byte after it.
pub open spec fn varint_at_spec(s: Seq<u8>, pos: nat) -> Option<(nat, nat)>
    recommends
        pos <= s.len(),
{
    match varint_spec(s.subrange(pos as int, s.len() as int)) {
        Some(vn) => Some((vn.0, (pos + vn.1) as nat)),
        None => None,
    }
}

/// `128^8` written out: the largest weight the first eight bytes can reach.
pub proof fn lemma_pow128_8()
    ensures
        pow128(8) == 0x100_0000_0000_0000,
{
    assert(pow128(0) == 1);
    assert(pow128(1) == 128);
    assert(pow128(2) == 0x4000);
    assert(pow128(3) == 0x20_0000);
    assert(pow128(4) == 0x1000_0000);
    assert(pow128(5) == 0x8_0000_0000);
    assert(pow128(6) == 0x400_0000_0000);
    assert(pow128(7) == 0x2_0000_0000_0000);
    assert(pow128(8) == 0x100_0000_0000_0000);
}

pub proof fn lemma_pow128_pos(e: nat)
    ensures
        pow128(e) >= 1,
    decreases e,
{
    if e > 0 {
        lemma_pow128_pos((e - 1) as nat);
    }
}

pub proof fn lemma_pow128_mono(a: nat, b: nat)
    requires
        a <= b,
    ensures
        pow128(a) <= pow128(b),
    decreases b,
{
    lemma_pow128_pos(a);
    if a < b {
        lemma_pow128_mono(a, (b - 1) as nat);
    }
}

/// Decodes the variable-length integer starting at position `pos` of
/// `input`, returning its value and the position of the first byte after
/// it, or `Truncated` when the input ends before the integer does.
pub fn varint_at(input: &[u8], pos: usize) -> (r: Result<(u64, usize), DecodeError>)
    requires
        pos <= input@.len(),
    ensures
        match r {
            Ok(p) => varint_at_spec(input@, pos as nat) == Some((p.0 as nat, p.1 as nat)) && pos
                < p.1 <= input@.len(),
            Err(e) => e == DecodeError::Truncated && varint_at_spec(input@, pos as nat) is None,
        },
{
    let ghost sub = input@.subrange(pos as int, input@.len() as int);
    let len = input.len();
    let mut i: usize = 0;
    let mut acc: u64 = 0;
    loop
        invariant
            pos <= input@.len(),
            len == input@.len(),
            sub == input@.subrange(pos as int, input@.len() as int),
            i <= 8,
            (acc as nat) < pow128(i as nat),
            varint_dec(sub, 0, 0) == varint_dec(sub, i as nat, acc as nat),
        decreases 9 - i,
    {
        if len - pos <= i {
            assert(varint_dec(sub, i as nat, acc as nat) is None);
            return Err(DecodeError::Truncated);
        }
        let b = input[pos + i];
        assert(b == sub[i as int]);
        if i == 8 {
            proof {
                lemma_pow128_8();
            }
            let v = acc * 256 + (b as u64);
            return Ok((v, pos + i + 1));
        } else if b < 128 {
            proof {
                lemma_pow128_mono((i + 1) as nat, 8);
                assert(pow128((i + 1) as nat) == 128 * pow128(i as nat));
                lemma_pow128_8();
            }
            let v = acc * 128 + (b as u64);
            return Ok((v, pos + i + 1));
        } else {
            proof {
                assert(pow128((i + 1) as nat) == 128 * pow128(i as nat));
                lemma_pow128_mono((i + 1) as nat, 8);
                lemma_pow128_8();
            }
            acc = acc * 128 + ((b - 128) as u64);
            i = i + 1;
        }
    }
}

/// The number of base-128 digits of `v`: the byte count of its minimal
/// high-bit-terminated encoding.
pub open spec fn digits128(v: nat) -> nat
    decreases v,
{
    if v < 128 {
        1
    } else {
        1 + digits128(v / 128)
    }
}

/// Exactly `d` continuation bytes (high bit set) carrying the base-128
/// digits of `u`, most significant first, zero-padded at the front.
pub open spec fn enc_high_pad(u: nat, d: nat) -> Seq<u8>
    decreases d,
{
    if d == 0 {
        Seq::empty()
    } else {
        enc_high_pad(u / 128, (d - 1) as nat).push((u % 128 + 128) as u8)
    }
}

/// The encoding of `v` that the encoding algorithm produces: the minimal
/// high-bit-continued form for values below `128^8`, and the fixed
/// nine-byte form otherwise, whose ninth byte carries the low eight bits.
pub open spec fn varint_encode_spec(v: nat) -> Seq<u8>
    recommends
        v < 0x1_0000_0000_0000_0000,
{
    if v < pow128(8) {
        enc_high_pad(v / 128, (digits128(v) - 1) as nat).push((v % 128) as u8)
    } else {
        enc_high_pad(v / 256, 8).push((v % 256) as u8)
    }
}

pub proof fn lemma_enc_high_pad_len(u: nat, d: nat)
    ensures
        enc_high_pad(u, d).len() == d,
    decreases d,
{
    if d > 0 {
        lemma_enc_high_pad_len(u / 128, (d - 1) as nat);
    }
}

/// A value below `128^d` has at most `d` base-128 digits.
pub proof fn lemma_digits128_le(v: nat, d: nat)
    requires
        d >= 1,
        v < pow128(d),
    ensures
        digits128(v) <= d,
    decreases d,
{
    if v >= 128 {
        assert(pow128(d) == 128 * pow128((d - 1) as nat));
        if d == 1 {
            assert(false);
        }
        vstd::arithmetic::div_mod::lemma_multiply_divide_lt(
            v as int,
            128,
            pow128((d - 1) as nat) as int,
        );
        lemma_digits128_le(v / 128, (d - 1) as nat);
    }
}

/// Every value lies below `128` to the power of its own digit count.
pub proof fn lemma_digits128_pow(v: nat)
    ensures
        digits128(v) >= 1,
        v < pow128(digits128(v)),
    decreases v,
{
    if v < 128 {
        assert(pow128(0) == 1);
        assert(pow128(1) == 128);
    } else {
        lemma_digits128_pow(v / 128);
        let d1 = digits128(v / 128);
        assert(pow128(d1 + 1) == 128 * pow128(d1));
        vstd::arithmetic::div_mod::lemma_fundamental_div_mod(v as int, 128);
        let q = v / 128;
        assert(v == 128 * q + v % 128);
        assert(v % 128 < 128);
        assert(q <= pow128(d1) - 1);
        assert(128 * q <= 128 * (pow128(d1) - 1)) by (nonlinear_arith)
            requires
                q <= pow128(d1) - 1,
        ;
    }
}

/// Decoding walks over a run of `d` continuation bytes that carry the
/// digits of `u`, folding them into the accumulator.
pub proof fn lemma_dec_pad(s: Seq<u8>, i: nat, acc: nat, u: nat, d: nat)
    requires
        i + d <= 8,
        i + d <= s.len(),
        u < pow128(d),
        s.subrange(i as int, (i + d) as int) == enc_high_pad(u, d),
    ensures
        varint_dec(s, i, acc) == varint_dec(s, (i + d) as nat, acc * pow128(d) + u),
    decreases d,
{
    if d == 0 {
    } else {
        let p = pow128((d - 1) as nat);
        let u1 = u / 128;
        assert(pow128(d) == 128 * p);
        vstd::arithmetic::div_mod::lemma_multiply_divide_lt(u as int, 128, p as int);
        lemma_enc_high_pad_len(u, d);
        lemma_enc_high_pad_len(u1, (d - 1) as nat);
        assert(s.subrange(i as int, (i + d - 1) as int) =~= enc_high_pad(u1, (d - 1) as nat)) by {
            assert forall|k: int| 0 <= k < d - 1 implies #[trigger] s.subrange(
                i as int,
                (i + d - 1) as int,
            )[k] == enc_high_pad(u1, (d - 1) as nat)[k] by {
                assert(s.subrange(i as int, (i + d) as int)[k] == enc_high_pad(u, d)[k]);
            }
        }
        lemma_dec_pad(s, i, acc, u1, (d - 1) as nat);
        let acc2 = acc * p + u1;
        let j = (i + d - 1) as nat;
        assert(s[j as int] == s.subrange(i as int, (i + d) as int)[(d - 1) as int]);
        assert(s[j as int] == (u % 128 + 128) as u8);
        assert(varint_dec(s, j, acc2) == varint_dec(
            s,
            (j + 1) as nat,
            (acc2 * 128 + s[j as int] - 128) as nat,
        ));
        vstd::arithmetic::div_mod::lemma_fundamental_div_mod(u as int, 128);
        assert((acc * p + u1) * 128 + u % 128 == acc * (128 * p) + (128 * u1 + u % 128))
            by (nonlinear_arith);
    }
}

/// Round trip: decoding an encoding produced by the encoding algorithm
/// yields exactly the encoded value and consumes the whole sequence, for
/// every 64-bit value.  Re-encoding what was decoded therefore reproduces
/// the identical byte sequence.
pub proof fn lemma_varint_round_trip(v: u64)
    ensures
        varint_spec(varint_encode_spec(v as nat)) == Some(
            (v as nat, varint_encode_spec(v as nat).len()),
        ),
{
    let n = v as nat;
    let s = varint_encode_spec(n);
    lemma_pow128_8();
    if n < pow128(8) {
        let d = digits128(n);
        lemma_digits128_pow(n);
        lemma_digits128_le(n, 8);
        let u1 = n / 128;
        lemma_enc_high_pad_len(u1, (d - 1) as nat);
        assert(pow128(d) == 128 * pow128((d - 1) as nat));
        vstd::arithmetic::div_mod::lemma_multiply_divide_lt(
            n as int,
            128,
            pow128((d - 1) as nat) as int,
        );
        assert(s.subrange(0, (d - 1) as int) =~= enc_high_pad(u1, (d - 1) as nat));
        lemma_dec_pad(s, 0, 0, u1, (d - 1) as nat);
        vstd::arithmetic::div_mod::lemma_fundamental_div_mod(n as int, 128);
        assert(s[(d - 1) as int] == (n % 128) as u8);
        assert(varint_dec(s, (d - 1) as nat, u1) == Some(((u1 * 128 + s[(d - 1) as int]) as nat, d)));
    } else {
        let u1 = n / 256;
        lemma_enc_high_pad_len(u1, 8);
        assert(n < 256 * pow128(8));
        vstd::arithmetic::div_mod::lemma_multiply_divide_lt(n as int, 256, pow128(8) as int);
        assert(s.subrange(0, 8) =~= enc_high_pad(u1, 8));
        lemma_dec_pad(s, 0, 0, u1, 8);
        vstd::arithmetic::div_mod::lemma_fundamental_div_mod(n as int, 256);
        assert(s[8] == (n % 256) as u8);
    }
}

/// The byte count of the minimal encoding of `v`, computed as the
/// encoding algorithm does.
fn varint_digits(v: u64) -> (d: usize)
    ensures
        d as nat == digits128(v as nat),
        1 <= d <= 10,
    decreases v,
{
    if v < 128 {
        1
    } else {
        proof {
            lemma_pow128_8();
            assert(pow128(9) == 128 * pow128(8));
            lemma_digits128_le((v / 128) as nat, 9);
        }
        let r = varint_digits(v / 128);
        1 + r
    }
}

/// Builds exactly `d` continuation bytes carrying the digits of `u`.
fn encode_pad(u: u64, d: usize) -> (out: Vec<u8>)
    ensures
        out@ == enc_high_pad(u as nat, d as nat),
    decreases d,
{
    if d == 0 {
        let out: Vec<u8> = Vec::new();
        assert(out@ =~= enc_high_pad(u as nat, 0));
        out
    } else {
        let mut out = encode_pad(u / 128, d - 1);
        out.push((u % 128 + 128) as u8);
        out
    }
}

/// Encodes `v` with the format's variable-length integer encoding: the
/// same algorithm whose output [`lemma_varint_round_trip`] relates to the
/// decoder.
pub fn varint_encode(v: u64) -> (out: Vec<u8>)
    ensures
        out@ == varint_encode_spec(v as nat),
{
    proof {
        lemma_pow128_8();
    }
    if v < 0x100_0000_0000_0000 {
        let d = varint_digits(v);
        let mut out = encode_pad(v / 128, d - 1);
        out.push((v % 128) as u8);
        out
    } else {
        let mut out = encode_pad(v / 256, 8);
        out.push((v % 256) as u8);
        out
    }
}

/// Decodes the variable-length integer at the front of `input`, returning
/// its value and the unconsumed remainder of the slice.
pub fn varint(input: &[u8]) -> (r: Result<(u64, &[u8]), DecodeError>)
    ensures
        match r {
            Ok(p) => varint_spec(input@) matches Some(vn) && p.0 as nat == vn.0 && p.1@
                == input@.subrange(vn.1 as int, input@.len() as int),
            Err(e) => e == DecodeError::Truncated && varint_spec(input@) is None,
        },
{
    proof {
        assert(input@.subrange(0, input@.len() as int) =~= input@);
    }
    match varint_at(input, 0) {
        Ok((v, end)) => Ok((v, vstd::slice::slice_subrange(input, end, input.len()))),
        Err(e) => Err(e),
    }
}

} // verus!
