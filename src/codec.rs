//! The LSB codec: capacity model, bit framing, embedding and extraction.
use vstd::arithmetic::div_mod::lemma_fundamental_div_mod_converse;
use vstd::arithmetic::power2::{
    lemma2_to64, lemma_pow2_strictly_increases, lemma_pow2_unfold, pow2,
};
use vstd::prelude::*;

verus! {

/// Number of message bytes that `pixels` pixels can carry: three carrier bits
/// per pixel, minus one byte for the terminator, never below zero.
pub open spec fn capacity_of_pixels(pixels: int) -> int {
    if (pixels * 3) / 8 >= 1 {
        (pixels * 3) / 8 - 1
    } else {
        0
    }
}

/// Capacity of a buffer of RGBA samples (four per pixel).
pub open spec fn samples_capacity(samples: Seq<u8>) -> int {
    capacity_of_pixels(samples.len() as int / 4)
}

/// Capacity of a `width` x `height` image.
pub open spec fn capacity_of(width: int, height: int) -> int {
    capacity_of_pixels(width * height)
}

/// Maximum message capacity (in bytes) of a `width` x `height` image:
/// `max(0, (width * height * 3) / 8 - 1)`.
pub fn calculate_capacity(width: u32, height: u32) -> (r: usize)
    requires
        capacity_of(width as int, height as int) <= usize::MAX,
    ensures
        r as int == capacity_of(width as int, height as int),
{
    assert(width as u128 * height as u128 * 3 <= 3 * 0xffff_ffff * 0xffff_ffff) by (nonlinear_arith)
        requires
            width <= 0xffff_ffff,
            height <= 0xffff_ffff,
    ;
    let bits: u128 = width as u128 * height as u128 * 3;
    let bytes: u128 = (bits / 8).saturating_sub(1);
    bytes as usize
}

/// Index, in a buffer of RGBA samples, of carrier channel `k`: carriers are the
/// red, green and blue samples of each pixel, in raster order.
pub open spec fn carrier_sample(k: int) -> int {
    (k / 3) * 4 + k % 3
}

/// The carrier number of sample `j`; meaningful where `j % 4 < 3` (not alpha).
pub open spec fn carrier_of_sample(j: int) -> int {
    (j / 4) * 3 + j % 4
}

/// Number of carrier channels in a buffer of `len` RGBA samples.
pub open spec fn carrier_count(len: int) -> int {
    (len / 4) * 3
}

/// Bit `k` of the bit stream of `bytes`: each byte most significant bit first.
pub open spec fn stream_bit(bytes: Seq<u8>, k: int) -> u8 {
    (bytes[k / 8] >> ((7 - k % 8) as u8)) & 1
}

/// The framed payload of a message: its bytes and one zero terminator byte.
pub open spec fn framed(message: Seq<u8>) -> Seq<u8> {
    message.push(0u8)
}

/// `samples` with the first `limit` bits of `payload`'s stream written into the
/// least significant bits of the carrier channels; every other sample unchanged.
pub open spec fn embed_prefix(samples: Seq<u8>, payload: Seq<u8>, limit: int) -> Seq<u8> {
    Seq::new(
        samples.len(),
        |j: int|
            if j % 4 < 3 && carrier_of_sample(j) < limit {
                (samples[j] & 0xFE) | stream_bit(payload, carrier_of_sample(j))
            } else {
                samples[j]
            },
    )
}

/// `samples` with the whole bit stream of `payload` embedded.
pub open spec fn embed(samples: Seq<u8>, payload: Seq<u8>) -> Seq<u8> {
    embed_prefix(samples, payload, 8 * payload.len() as int)
}

/// The samples that encoding `message` into `samples` produces.
pub open spec fn encoded_samples(samples: Seq<u8>, message: Seq<u8>) -> Seq<u8> {
    embed(samples, framed(message))
}

proof fn lemma_carrier_sample(k: int)
    requires
        k >= 0,
    ensures
        carrier_sample(k) >= 0,
        carrier_sample(k) % 4 == k % 3,
        carrier_sample(k) / 4 == k / 3,
        carrier_sample(k) % 4 < 3,
        carrier_of_sample(carrier_sample(k)) == k,
{
    let q = k / 3;
    let r = k % 3;
    assert(q >= 0 && 0 <= r < 3 && k == q * 3 + r) by (nonlinear_arith)
        requires
            q == k / 3,
            r == k % 3,
            k >= 0,
    ;
    lemma_fundamental_div_mod_converse(q * 4 + r, 4, q, r);
}

proof fn lemma_sample_carrier(j: int)
    requires
        j >= 0,
        j % 4 < 3,
    ensures
        carrier_of_sample(j) >= 0,
        carrier_sample(carrier_of_sample(j)) == j,
{
    let q = j / 4;
    let r = j % 4;
    assert(q >= 0 && 0 <= r < 4 && j == q * 4 + r) by (nonlinear_arith)
        requires
            q == j / 4,
            r == j % 4,
            j >= 0,
    ;
    lemma_fundamental_div_mod_converse(q * 3 + r, 3, q, r);
}

proof fn lemma_carrier_in_bounds(k: int, len: int)
    requires
        0 <= k < carrier_count(len),
        len >= 0,
    ensures
        0 <= carrier_sample(k) < len,
{
    lemma_carrier_sample(k);
    let q = k / 3;
    assert(q < len / 4) by (nonlinear_arith)
        requires
            q == k / 3,
            k < (len / 4) * 3,
            k >= 0,
    ;
    assert(q * 4 + 3 <= len) by (nonlinear_arith)
        requires
            q < len / 4,
            len >= 0,
    ;
}

proof fn lemma_bit_write(v: u8, bit: u8)
    requires
        bit <= 1,
    ensures
        ((v & 0xFE) | bit) & 1 == bit,
        ((v & 0xFE) | bit) & 0xFE == v & 0xFE,
{
    assert(bit <= 1 ==> ((v & 0xFE) | bit) & 1 == bit) by (bit_vector);
    assert(bit <= 1 ==> ((v & 0xFE) | bit) & 0xFE == v & 0xFE) by (bit_vector);
}

/// Writes the bit stream of `payload` into the carrier channels of `samples`,
/// in order; samples past the stream, and every alpha sample, stay as they were.
pub fn embed_payload(samples: &mut Vec<u8>, payload: &Vec<u8>)
    requires
        8 * payload@.len() <= carrier_count(old(samples)@.len() as int),
    ensures
        final(samples)@ == embed(old(samples)@, payload@),
{
    let ghost src = samples@;
    assert(carrier_count(src.len() as int) <= src.len()) by (nonlinear_arith)
        requires
            src.len() >= 0,
    ;
    let n: usize = samples.len();
    assert(payload@.len() * 8 <= n);
    let total: usize = payload.len() * 8;
    let mut k: usize = 0;
    while k < total
        invariant
            total == 8 * payload@.len(),
            n == src.len(),
            total <= carrier_count(src.len() as int),
            k <= total,
            samples@.len() == src.len(),
            samples@ == embed_prefix(src, payload@, k as int),
        decreases total - k,
    {
        let byte: u8 = payload[k / 8];
        let shift: u8 = (7 - k % 8) as u8;
        let bit: u8 = (byte >> shift) & 1;
        proof {
            lemma_carrier_in_bounds(k as int, src.len() as int);
            lemma_carrier_sample(k as int);
            assert(bit <= 1) by (bit_vector)
                requires
                    bit == (byte >> shift) & 1,
            ;
            assert((k / 3) * 4 + k % 3 < src.len());
            assert((k / 3) * 4 <= (k / 3) * 4 + k % 3);
        }
        let j: usize = (k / 3) * 4 + k % 3;
        let v: u8 = samples[j];
        let w: u8 = (v & 0xFE) | bit;
        samples.set(j, w);
        proof {
            assert forall|i: int| 0 <= i < src.len() implies #[trigger] samples@[i] == embed_prefix(
                src,
                payload@,
                k + 1,
            )[i] by {
                if i % 4 < 3 {
                    lemma_sample_carrier(i);
                }
            }
            assert(samples@ =~= embed_prefix(src, payload@, k + 1));
        }
        k = k + 1;
    }
}

/// Least significant bit of carrier channel `k`.
pub open spec fn carrier_bit(samples: Seq<u8>, k: int) -> u8 {
    samples[carrier_sample(k)] & 1
}

/// The value of the `count` carrier bits from carrier `start` on, read most
/// significant bit first.
pub open spec fn bits_value(samples: Seq<u8>, start: int, count: nat) -> nat
    decreases count,
{
    if count == 0 {
        0
    } else {
        bits_value(samples, start, (count - 1) as nat) * 2 + carrier_bit(
            samples,
            start + count - 1,
        ) as nat
    }
}

/// Byte `b` of the stream that the carrier bits of `samples` hold.
pub open spec fn carried_byte(samples: Seq<u8>, b: int) -> u8 {
    bits_value(samples, 8 * b, 8) as u8
}

/// Every whole byte that the carrier bits of `samples` hold, in order.
pub open spec fn carried_bytes(samples: Seq<u8>) -> Seq<u8> {
    Seq::new((carrier_count(samples.len() as int) / 8) as nat, |b: int| carried_byte(samples, b))
}

/// The bytes of `s` before its first zero byte (all of `s` if it has none).
pub open spec fn until_zero(s: Seq<u8>) -> Seq<u8>
    decreases s.len(),
{
    if s.len() == 0 || s[0] == 0 {
        Seq::empty()
    } else {
        seq![s[0]] + until_zero(s.drop_first())
    }
}

/// The message bytes that decoding `samples` recovers: the carried bytes up to
/// the first zero byte, which ends the message and is not part of it.
pub open spec fn decoded_bytes(samples: Seq<u8>) -> Seq<u8> {
    until_zero(carried_bytes(samples))
}

proof fn lemma_low_bit(v: u8)
    ensures
        v & 1 <= 1,
        v & 1 == v % 2,
{
    assert(v & 1 <= 1) by (bit_vector);
    assert(v & 1 == v % 2) by (bit_vector);
}

proof fn lemma_bits_value_bound(samples: Seq<u8>, start: int, count: nat)
    requires
        count <= 8,
    ensures
        bits_value(samples, start, count) < pow2(count),
    decreases count,
{
    if count == 0 {
        lemma2_to64();
    } else {
        lemma_bits_value_bound(samples, start, (count - 1) as nat);
        lemma_low_bit(samples[carrier_sample(start + count - 1)]);
        lemma_pow2_unfold(count);
        assert(carrier_bit(samples, start + count - 1) <= 1);
    }
}

/// `until_zero(s)` is the prefix of `s` of length `n` when the first `n` bytes
/// are non-zero and `n` is the end of `s` or the place of a zero byte.
proof fn lemma_until_zero_prefix(s: Seq<u8>, n: int)
    requires
        0 <= n <= s.len(),
        forall|i: int| 0 <= i < n ==> s[i] != 0,
        n == s.len() || s[n] == 0,
    ensures
        until_zero(s) == s.take(n),
    decreases n,
{
    if n == 0 {
        assert(s.take(0) =~= Seq::<u8>::empty());
    } else {
        lemma_until_zero_prefix(s.drop_first(), n - 1);
        assert(s.take(n) =~= seq![s[0]] + s.drop_first().take(n - 1));
    }
}

/// Reads carrier bits in order, eight to a byte, and returns the bytes before
/// the first zero byte; stops at the last whole byte if none is zero.
pub fn extract_message(samples: &Vec<u8>) -> (r: Vec<u8>)
    ensures
        r@ == decoded_bytes(samples@),
{
    let ghost all = carried_bytes(samples@);
    let n: usize = samples.len();
    let n_bytes: usize = (n / 4) * 3 / 8;
    let mut out: Vec<u8> = Vec::new();
    let mut b: usize = 0;
    while b < n_bytes
        invariant_except_break
            n == samples@.len(),
            n_bytes == all.len(),
            all == carried_bytes(samples@),
            b <= n_bytes,
            out@ == all.take(b as int),
            forall|i: int| 0 <= i < b ==> all[i] != 0,
        ensures
            b <= n_bytes,
            out@ == all.take(b as int),
            forall|i: int| 0 <= i < b ==> all[i] != 0,
            b == n_bytes || all[b as int] == 0,
        decreases n_bytes - b,
    {
        let mut acc: u8 = 0;
        let mut t: usize = 0;
        while t < 8
            invariant
                n == samples@.len(),
                b < n_bytes,
                n_bytes == (n / 4) * 3 / 8,
                t <= 8,
                acc as nat == bits_value(samples@, 8 * b, t as nat),
            decreases 8 - t,
        {
            let k: usize = 8 * b + t;
            proof {
                assert(8 * b + t < carrier_count(n as int)) by (nonlinear_arith)
                    requires
                        b < n_bytes,
                        n_bytes == (n / 4) * 3 / 8,
                        t < 8,
                ;
                lemma_carrier_in_bounds(k as int, n as int);
                lemma_bits_value_bound(samples@, 8 * b, (t + 1) as nat);
                lemma2_to64();
                if t + 1 < 8 {
                    lemma_pow2_strictly_increases((t + 1) as nat, 8);
                }
            }
            let j: usize = (k / 3) * 4 + k % 3;
            let bit: u8 = samples[j] & 1;
            proof {
                lemma_low_bit(samples@[j as int]);
            }
            acc = acc * 2 + bit;
            t = t + 1;
        }
        assert(all[b as int] == acc);
        if acc == 0 {
            break;
        }
        out.push(acc);
        proof {
            assert(out@ =~= all.take(b + 1));
        }
        b = b + 1;
    }
    proof {
        lemma_until_zero_prefix(all, b as int);
    }
    out
}

proof fn lemma_byte_from_bits(x: u8)
    ensures
        x as nat == (((((((((x >> 7u8) & 1) as nat * 2 + ((x >> 6u8) & 1) as nat) * 2 + ((x
            >> 5u8) & 1) as nat) * 2 + ((x >> 4u8) & 1) as nat) * 2 + ((x >> 3u8) & 1) as nat) * 2
            + ((x >> 2u8) & 1) as nat) * 2 + ((x >> 1u8) & 1) as nat) * 2 + ((x >> 0u8) & 1) as nat),
{
    assert(x == (((((((((x >> 7u8) & 1) * 2 + ((x >> 6u8) & 1)) * 2 + ((x >> 5u8) & 1)) * 2 + ((x
        >> 4u8) & 1)) * 2 + ((x >> 3u8) & 1)) * 2 + ((x >> 2u8) & 1)) * 2 + ((x >> 1u8) & 1)) * 2
        + ((x >> 0u8) & 1))) by (bit_vector);
}

/// Where the eight carrier bits from `start` on are the bits of `x`, most
/// significant first, they read back as `x`.
proof fn lemma_bits_to_byte(samples: Seq<u8>, start: int, x: u8)
    requires
        forall|t: int|
            0 <= t < 8 ==> #[trigger] carrier_bit(samples, start + t) == (x >> ((7 - t) as u8))
                & 1,
    ensures
        bits_value(samples, start, 8) == x as nat,
{
    reveal_with_fuel(bits_value, 9);
    assert(carrier_bit(samples, start + 0) == (x >> 7u8) & 1);
    assert(carrier_bit(samples, start + 1) == (x >> 6u8) & 1);
    assert(carrier_bit(samples, start + 2) == (x >> 5u8) & 1);
    assert(carrier_bit(samples, start + 3) == (x >> 4u8) & 1);
    assert(carrier_bit(samples, start + 4) == (x >> 3u8) & 1);
    assert(carrier_bit(samples, start + 5) == (x >> 2u8) & 1);
    assert(carrier_bit(samples, start + 6) == (x >> 1u8) & 1);
    assert(carrier_bit(samples, start + 7) == (x >> 0u8) & 1);
    lemma_byte_from_bits(x);
}

/// A zero byte after `a` ends the message, whatever follows it.
proof fn lemma_until_zero_stops(a: Seq<u8>, rest: Seq<u8>)
    requires
        rest.len() > 0,
        rest[0] == 0,
    ensures
        until_zero(a + rest) == until_zero(a),
    decreases a.len(),
{
    if a.len() == 0 {
        assert(a + rest =~= rest);
    } else {
        assert((a + rest).drop_first() =~= a.drop_first() + rest);
        lemma_until_zero_stops(a.drop_first(), rest);
    }
}

/// Carrier `k` of the encoded samples holds bit `k` of the payload stream.
proof fn lemma_embedded_bit(samples: Seq<u8>, payload: Seq<u8>, k: int)
    requires
        0 <= k < 8 * payload.len(),
        8 * payload.len() <= carrier_count(samples.len() as int),
    ensures
        carrier_bit(embed(samples, payload), k) == stream_bit(payload, k),
{
    lemma_carrier_sample(k);
    lemma_carrier_in_bounds(k, samples.len() as int);
    let j = carrier_sample(k);
    let bit = stream_bit(payload, k);
    let x = payload[k / 8];
    let sh = (7 - k % 8) as u8;
    assert(((x >> sh) & 1) <= 1) by (bit_vector);
    lemma_bit_write(samples[j], bit);
}

/// Decoding what encoding wrote yields the message up to its first zero byte:
/// all of it when it holds none, and only what precedes the zero otherwise.
pub proof fn lemma_decode_encoded(samples: Seq<u8>, message: Seq<u8>)
    requires
        message.len() <= samples_capacity(samples),
    ensures
        decoded_bytes(encoded_samples(samples, message)) == until_zero(message),
{
    let n = message.len() as int;
    let p = samples.len() as int / 4;
    let payload = framed(message);
    let enc = encoded_samples(samples, message);
    let carried = carried_bytes(enc);
    if (p * 3) / 8 == 0 {
        assert(carried =~= Seq::<u8>::empty());
        assert(message =~= Seq::<u8>::empty());
        return;
    }
    assert(8 * (n + 1) <= p * 3) by (nonlinear_arith)
        requires
            n <= (p * 3) / 8 - 1,
            p >= 0,
    ;
    assert forall|b: int| 0 <= b <= n implies #[trigger] carried[b] == payload[b] by {
        assert forall|t: int| 0 <= t < 8 implies #[trigger] carrier_bit(enc, 8 * b + t) == (
        payload[b] >> ((7 - t) as u8)) & 1 by {
            lemma_fundamental_div_mod_converse(8 * b + t, 8, b, t);
            lemma_embedded_bit(samples, payload, 8 * b + t);
        }
        lemma_bits_to_byte(enc, 8 * b, payload[b]);
    }
    assert(carried =~= payload + carried.skip(n + 1));
    assert(payload =~= message + seq![0u8]);
    assert(carried =~= message + (seq![0u8] + carried.skip(n + 1)));
    lemma_until_zero_stops(message, seq![0u8] + carried.skip(n + 1));
}

/// A message with no zero byte that fits the capacity decodes to itself.
pub proof fn lemma_round_trip(samples: Seq<u8>, message: Seq<u8>)
    requires
        message.len() <= samples_capacity(samples),
        forall|i: int| 0 <= i < message.len() ==> message[i] != 0,
    ensures
        decoded_bytes(encoded_samples(samples, message)) == message,
{
    lemma_decode_encoded(samples, message);
    lemma_until_zero_prefix(message, message.len() as int);
    assert(message.take(message.len() as int) =~= message);
}

/// Encoding a second message over an image that already carries one leaves
/// only the second message to be decoded, whichever of the two is longer.
pub proof fn lemma_overwrite(samples: Seq<u8>, first: Seq<u8>, second: Seq<u8>)
    requires
        first.len() <= samples_capacity(samples),
        second.len() <= samples_capacity(samples),
        forall|i: int| 0 <= i < second.len() ==> second[i] != 0,
    ensures
        decoded_bytes(encoded_samples(encoded_samples(samples, first), second)) == second,
{
    lemma_round_trip(encoded_samples(samples, first), second);
}

/// Encoding changes only the least significant bits of the carrier channels
/// that the framed message needs: every alpha sample, and every pixel that lies
/// wholly past the end of the bit stream, is left as it was.
pub proof fn lemma_unchanged_tail(samples: Seq<u8>, message: Seq<u8>)
    ensures
        encoded_samples(samples, message).len() == samples.len(),
        forall|j: int|
            0 <= j < samples.len() ==> #[trigger] (encoded_samples(samples, message)[j] & 0xFE)
                == samples[j] & 0xFE,
        forall|j: int|
            0 <= j < samples.len() && j % 4 == 3 ==> #[trigger] encoded_samples(samples, message)[j]
                == samples[j],
        forall|j: int|
            0 <= j < samples.len() && 3 * (j / 4) >= 8 * (message.len() + 1) ==> #[trigger] encoded_samples(
                samples,
                message,
            )[j] == samples[j],
{
    let payload = framed(message);
    assert forall|j: int| 0 <= j < samples.len() implies #[trigger] (encoded_samples(
        samples,
        message,
    )[j] & 0xFE) == samples[j] & 0xFE by {
        if j % 4 < 3 && carrier_of_sample(j) < 8 * payload.len() {
            let k = carrier_of_sample(j);
            let x = payload[k / 8];
            let sh = (7 - k % 8) as u8;
            assert(((x >> sh) & 1) <= 1) by (bit_vector);
            lemma_bit_write(samples[j], stream_bit(payload, k));
        }
    }
}

} // verus!
