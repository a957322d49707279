//! The five-byte frame: how it is spelt in bits, and how it is checked.
//!
//! The sensor sends humidity (whole and fraction), temperature (whole and
//! fraction) and a checksum, one byte each, most significant bit first. A
//! frame is valid when its last byte is the sum of the other four, modulo 256.
use crate::measure::{Error, Measure};
use vstd::arithmetic::div_mod::lemma_fundamental_div_mod_converse;
use vstd::arithmetic::power2::{lemma2_to64_rest, lemma_pow2_unfold, pow2};
use vstd::prelude::*;

verus! {

/// The number of bits in a frame.
pub const FRAME_BITS: u64 = 40;

/// The number spelt by `bits`, most significant bit first.
pub open spec fn frame_value(bits: Seq<bool>) -> nat
    decreases bits.len(),
{
    if bits.len() == 0 {
        0
    } else {
        2 * frame_value(bits.drop_last()) + if bits.last() {
            1nat
        } else {
            0nat
        }
    }
}

/// The `n` lowest binary digits of `v`, most significant first.
pub open spec fn bits_of(v: nat, n: nat) -> Seq<bool>
    decreases n,
{
    if n == 0 {
        Seq::empty()
    } else {
        bits_of(v / 2, (n - 1) as nat).push(v % 2 == 1)
    }
}

/// The five bytes of a frame read as one big-endian number.
pub open spec fn frame_number(f: Seq<u8>) -> nat {
    (f[0] * 0x1_0000_0000 + f[1] * 0x100_0000 + f[2] * 0x1_0000 + f[3] * 0x100 + f[4]) as nat
}

/// The bits that the sensor sends for the frame `f`.
pub open spec fn frame_bits(f: Seq<u8>) -> Seq<bool> {
    bits_of(frame_number(f), FRAME_BITS as nat)
}

/// The five bytes of the frame whose big-endian value is `v`.
pub open spec fn frame_bytes(v: nat) -> Seq<u8> {
    seq![
        (v / 0x1_0000_0000 % 256) as u8,
        (v / 0x100_0000 % 256) as u8,
        (v / 0x1_0000 % 256) as u8,
        (v / 0x100 % 256) as u8,
        (v % 256) as u8,
    ]
}

/// The checksum that the four data bytes of `f` call for.
pub open spec fn checksum_of(f: Seq<u8>) -> int {
    (f[0] + f[1] + f[2] + f[3]) % 256
}

/// What a whole frame yields: a measurement of humidity (byte 0) and
/// temperature (byte 2) when the checksum matches, else a checksum error.
pub open spec fn verdict(f: Seq<u8>) -> Result<Measure, Error> {
    if f[4] == checksum_of(f) {
        Ok(Measure { temperature: f[2], humidity: f[0] })
    } else {
        Err(Error::CheckSum)
    }
}

/// The checksum of a frame's four data bytes.
pub fn checksum(frame: &[u8; 5]) -> (r: u8)
    ensures
        r == checksum_of(frame@),
{
    let mut sum: u16 = 0;
    let mut i: usize = 0;
    while i < 4
        invariant
            0 <= i <= 4,
            sum as int == (if i > 0 { frame@[0] as int } else { 0 }) + (if i > 1 { frame@[1] as int } else { 0 })
                + (if i > 2 { frame@[2] as int } else { 0 }) + (if i > 3 { frame@[3] as int } else { 0 }),
        decreases 4 - i,
    {
        sum = sum + frame[i] as u16;
        i = i + 1;
    }
    (sum % 256) as u8
}

/// Checks a whole frame and extracts the measurement it carries.
pub fn check_frame(frame: [u8; 5]) -> (r: Result<Measure, Error>)
    ensures
        r == verdict(frame@),
{
    if frame[4] == checksum(&frame) {
        Ok(Measure { temperature: frame[2], humidity: frame[0] })
    } else {
        Err(Error::CheckSum)
    }
}

/// Splits the 40-bit value of a frame into its five bytes.
pub fn split_frame(value: u64) -> (r: [u8; 5])
    ensures
        r@ == frame_bytes(value as nat),
{
    let r = [
        (value / 0x1_0000_0000 % 256) as u8,
        (value / 0x100_0000 % 256) as u8,
        (value / 0x1_0000 % 256) as u8,
        (value / 0x100 % 256) as u8,
        (value % 256) as u8,
    ];
    assert(r@ =~= frame_bytes(value as nat));
    r
}

/// A value spelt by `bits` has no more binary digits than `bits` has.
pub proof fn lemma_frame_value_bound(bits: Seq<bool>)
    ensures
        frame_value(bits) < pow2(bits.len()),
    decreases bits.len(),
{
    if bits.len() == 0 {
        lemma2_to64_rest();
        assert(pow2(0) == 1) by {
            vstd::arithmetic::power2::lemma2_to64();
        }
    } else {
        lemma_frame_value_bound(bits.drop_last());
        lemma_pow2_unfold(bits.len());
    }
}

/// Reading back the `n` digits of a number below `2^n` gives the number.
pub proof fn lemma_bits_round_trip(v: nat, n: nat)
    requires
        v < pow2(n),
    ensures
        bits_of(v, n).len() == n,
        frame_value(bits_of(v, n)) == v,
    decreases n,
{
    if n == 0 {
        vstd::arithmetic::power2::lemma2_to64();
    } else {
        lemma_pow2_unfold(n);
        lemma_bits_round_trip(v / 2, (n - 1) as nat);
        let s = bits_of(v, n);
        assert(s.drop_last() =~= bits_of(v / 2, (n - 1) as nat));
    }
}

/// The byte `b` that stands at weight `d` in `v` is read back from `v`.
proof fn lemma_byte_at(v: int, high: int, b: int, low: int, d: int)
    requires
        d > 0,
        high >= 0,
        0 <= b < 256,
        0 <= low < d,
        v == (high * 256 + b) * d + low,
    ensures
        v / d % 256 == b,
{
    lemma_fundamental_div_mod_converse(v, d, high * 256 + b, low);
    lemma_fundamental_div_mod_converse(high * 256 + b, 256, high, b);
}

/// Whatever five bytes the sensor sends, decoding its bits gives back those
/// bytes, and the frame yields the measurement of bytes 0 and 2 exactly when
/// the last byte is the sum of the first four modulo 256, else a checksum
/// error.
pub proof fn lemma_checksum_invariant(h: u8, hf: u8, t: u8, tf: u8, c: u8)
    ensures
        frame_bits(seq![h, hf, t, tf, c]).len() == FRAME_BITS,
        frame_bytes(frame_value(frame_bits(seq![h, hf, t, tf, c]))) == seq![h, hf, t, tf, c],
        c == (h + hf + t + tf) % 256 ==> verdict(seq![h, hf, t, tf, c]) == Ok::<Measure, Error>(
            Measure { temperature: t, humidity: h },
        ),
        c != (h + hf + t + tf) % 256 ==> verdict(seq![h, hf, t, tf, c]) == Err::<Measure, Error>(
            Error::CheckSum,
        ),
{
    let f = seq![h, hf, t, tf, c];
    let v = frame_number(f);
    lemma2_to64_rest();
    assert(v < pow2(40));
    lemma_bits_round_trip(v, 40);
    let (h, hf, t, tf, c) = (h as int, hf as int, t as int, tf as int, c as int);
    lemma_byte_at(v as int, 0, h, hf * 0x100_0000 + t * 0x1_0000 + tf * 0x100 + c, 0x1_0000_0000);
    lemma_byte_at(v as int, h, hf, t * 0x1_0000 + tf * 0x100 + c, 0x100_0000);
    lemma_byte_at(v as int, h * 0x100 + hf, t, tf * 0x100 + c, 0x1_0000);
    lemma_byte_at(v as int, h * 0x1_0000 + hf * 0x100 + t, tf, c, 0x100);
    lemma_byte_at(v as int, h * 0x100_0000 + hf * 0x1_0000 + t * 0x100 + tf, c, 0, 1);
    assert(frame_bytes(v) =~= f);
}

} // verus!
