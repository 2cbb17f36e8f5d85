//! The variable-length integer ("varint") of the file format: a big-endian
//! static Huffman encoding of 64-bit twos-complement integers, 1 to 9 bytes
//! long. The lower seven bits of each of the first eight bytes and all 8
//! bits of the ninth byte reconstruct the integer.

use vstd::prelude::*;

verus! {

/// 128 raised to `n`.
pub open spec fn pow128(n: nat) -> nat
    decreases n,
{
    if n == 0 {
        1
    } else {
        128 * pow128((n - 1) as nat)
    }
}

/// How many bytes of `s` a varint decode consumes when at most `max` more
/// bytes may be read (`max` is 9 at the start of a varint).
pub open spec fn varint_len(s: Seq<u8>, max: nat) -> nat
    decreases max,
{
    if s.len() == 0 || max == 0 {
        0
    } else if max == 1 {
        1
    } else if s[0] < 128 {
        1
    } else {
        1 + varint_len(s.skip(1), (max - 1) as nat)
    }
}

/// The unsigned accumulation of a varint decode of `s`, starting from the
/// partial accumulator `acc` with `max` more bytes allowed.
pub open spec fn varint_acc(s: Seq<u8>, max: nat, acc: int) -> int
    decreases max,
{
    if s.len() == 0 || max == 0 {
        acc
    } else if max == 1 {
        acc * 256 + s[0]
    } else if s[0] < 128 {
        acc * 128 + s[0]
    } else {
        varint_acc(s.skip(1), (max - 1) as nat, acc * 128 + (s[0] - 128))
    }
}

/// The number of bytes a varint decode of `s` consumes.
pub open spec fn varint_size_spec(s: Seq<u8>) -> nat {
    varint_len(s, 9)
}

/// The unsigned 64-bit accumulation of a varint decode of `s`.
pub open spec fn varint_u_spec(s: Seq<u8>) -> int {
    varint_acc(s, 9, 0)
}

/// Reinterprets an unsigned 64-bit value as twos-complement.
pub open spec fn wrap_i64(v: int) -> int {
    if v < 0x8000000000000000 {
        v
    } else {
        v - 0x10000000000000000
    }
}

/// Reinterprets a twos-complement value as unsigned 64-bit.
pub open spec fn unwrap_u64(v: int) -> int {
    if v >= 0 {
        v
    } else {
        v + 0x10000000000000000
    }
}

/// The signed value a varint decode of `s` produces.
pub open spec fn varint_value_spec(s: Seq<u8>) -> int {
    wrap_i64(varint_u_spec(s))
}

/// `s` is a complete varint byte run: decoding consumes all of it and the
/// run is properly terminated (nine bytes long, or ending in a byte
/// without the high bit).
pub open spec fn varint_complete(s: Seq<u8>) -> bool {
    &&& 1 <= s.len() <= 9
    &&& varint_size_spec(s) == s.len()
    &&& (s.len() == 9 || s[s.len() - 1] < 128)
}

proof fn lemma_pow128_mono(a: nat, b: nat)
    requires
        a <= b,
    ensures
        pow128(a) <= pow128(b),
    decreases b,
{
    if a < b {
        lemma_pow128_mono(a, (b - 1) as nat);
    }
}

/// The byte count of a varint decode never exceeds `max` nor the input length.
pub proof fn lemma_varint_len_bounds(s: Seq<u8>, max: nat)
    ensures
        varint_len(s, max) <= max,
        varint_len(s, max) <= s.len(),
        s.len() > 0 && max > 0 ==> varint_len(s, max) >= 1,
    decreases max,
{
    if s.len() == 0 || max == 0 {
    } else if max == 1 || s[0] < 128 {
    } else {
        lemma_varint_len_bounds(s.skip(1), (max - 1) as nat);
    }
}

/// How many distinct values `n` varint bytes can carry: seven bits per
/// byte, eight for the last byte of a nine-byte run (`full`).
pub open spec fn varint_capacity(n: nat, full: bool) -> int
    decreases n,
{
    if n == 0 {
        1
    } else if n == 1 {
        if full {
            256
        } else {
            128
        }
    } else {
        128 * varint_capacity((n - 1) as nat, full)
    }
}

/// The `n`-byte varint encoding of `v`: all bytes but the last carry the
/// high bit and seven value bits; the last carries seven bits, or all
/// eight when the run is nine bytes long.
pub open spec fn varint_encode_full(v: int, n: nat, full: bool) -> Seq<u8>
    decreases n,
{
    if n == 0 {
        Seq::empty()
    } else if n == 1 {
        if full {
            seq![(v % 256) as u8]
        } else {
            seq![(v % 128) as u8]
        }
    } else {
        seq![(128 + (v / varint_capacity((n - 1) as nat, full)) % 128) as u8]
            + varint_encode_full(v % varint_capacity((n - 1) as nat, full), (n - 1) as nat, full)
    }
}

/// The `n`-byte varint encoding of the unsigned value `v`.
pub open spec fn varint_encode(v: int, n: nat) -> Seq<u8> {
    varint_encode_full(v, n, n == 9)
}

/// The factor by which a decode's accumulator is scaled while it consumes
/// `s` with `max` bytes allowed.
pub open spec fn acc_weight(s: Seq<u8>, max: nat) -> int
    decreases max,
{
    if s.len() == 0 || max == 0 {
        1
    } else if max == 1 {
        256
    } else if s[0] < 128 {
        128
    } else {
        128 * acc_weight(s.skip(1), (max - 1) as nat)
    }
}

/// The accumulator enters a decode linearly: starting from `acc` yields
/// `acc` scaled by the run's weight plus the run's own value.
proof fn lemma_acc_linear(s: Seq<u8>, max: nat, acc: int)
    ensures
        varint_acc(s, max, acc) == acc * acc_weight(s, max) + varint_acc(s, max, 0),
    decreases max,
{
    if s.len() == 0 || max == 0 {
    } else if max == 1 || s[0] < 128 {
    } else {
        let d = s[0] - 128;
        let w = acc_weight(s.skip(1), (max - 1) as nat);
        lemma_acc_linear(s.skip(1), (max - 1) as nat, acc * 128 + d);
        lemma_acc_linear(s.skip(1), (max - 1) as nat, d);
        assert((acc * 128 + d) * w == acc * (128 * w) + d * w) by (nonlinear_arith);
    }
}

/// A complete run's value is non-negative and below its weight, and its
/// weight is the capacity of its length.
proof fn lemma_acc_bounds(s: Seq<u8>, max: nat)
    requires
        1 <= s.len() <= max,
        varint_len(s, max) == s.len(),
    ensures
        0 <= varint_acc(s, max, 0) < acc_weight(s, max),
        acc_weight(s, max) == varint_capacity(s.len(), s.len() == max),
    decreases max,
{
    if max == 1 || s[0] < 128 {
        assert(s.len() == 1);
    } else if s.len() == 1 {
        // A lone high byte: the input ran out before the run ended.
        assert(s.skip(1).len() == 0);
        assert(varint_acc(s, max, 0) == varint_acc(s.skip(1), (max - 1) as nat, s[0] - 128));
        assert(varint_acc(s, max, 0) == s[0] - 128);
        assert(acc_weight(s, max) == 128 * acc_weight(s.skip(1), (max - 1) as nat));
        assert(acc_weight(s, max) == 128);
    } else {
        let t = s.skip(1);
        let d = s[0] - 128;
        lemma_varint_len_bounds(t, (max - 1) as nat);
        lemma_acc_bounds(t, (max - 1) as nat);
        lemma_acc_linear(t, (max - 1) as nat, d);
        let w = acc_weight(t, (max - 1) as nat);
        assert(d * w <= 127 * w) by (nonlinear_arith)
            requires
                0 <= d <= 127,
                w > 0,
        ;
        assert(varint_acc(s, max, 0) == d * w + varint_acc(t, (max - 1) as nat, 0));
    }
}

/// Re-encoding inverts decoding: a complete varint byte run, decoded and
/// encoded again at its own length, reproduces the identical bytes.
proof fn lemma_round_trip_gen(s: Seq<u8>, max: nat)
    requires
        1 <= s.len() <= max <= 9,
        varint_len(s, max) == s.len(),
        s.len() == max || s[s.len() - 1] < 128,
    ensures
        varint_encode_full(varint_acc(s, max, 0), s.len(), s.len() == max) == s,
    decreases s.len(),
{
    let n = s.len();
    let full = n == max;
    if n == 1 {
        let v = varint_acc(s, max, 0);
        if max == 1 {
            assert(v == s[0]);
            assert(varint_encode_full(v, 1, true) =~= s);
        } else {
            assert(s[0] < 128);
            assert(v == s[0]);
            assert(varint_encode_full(v, 1, false) =~= s);
        }
    } else {
        assert(s[0] >= 128);
        let t = s.skip(1);
        let d = s[0] - 128;
        lemma_varint_len_bounds(t, (max - 1) as nat);
        lemma_round_trip_gen(t, (max - 1) as nat);
        lemma_acc_bounds(t, (max - 1) as nat);
        lemma_acc_linear(t, (max - 1) as nat, d);
        let w = acc_weight(t, (max - 1) as nat);
        let vp = varint_acc(t, (max - 1) as nat, 0);
        let v = varint_acc(s, max, 0);
        assert(v == varint_acc(t, (max - 1) as nat, d));
        assert(v == d * w + vp);
        assert(w == varint_capacity((n - 1) as nat, full));
        vstd::arithmetic::div_mod::lemma_fundamental_div_mod_converse(v, w, d, vp);
        assert(v / w == d);
        assert(v % w == vp);
        assert((128 + (v / w) % 128) as u8 == s[0]);
        assert(varint_encode_full(v % w, (n - 1) as nat, full) == t);
        assert(varint_encode_full(v, n, full) == seq![s[0]] + t);
        assert(seq![s[0]] + t =~= s);
    }
}

/// Round trip: for every complete varint byte run, re-encoding the
/// decoded value at the consumed length reproduces the identical run.
pub proof fn lemma_varint_round_trip(s: Seq<u8>)
    requires
        varint_complete(s),
    ensures
        varint_encode(varint_u_spec(s), s.len()) == s,
{
    lemma_round_trip_gen(s, 9);
}

/// A variable-length integer together with the exact byte run consumed,
/// retained so downstream consumers can address the bytes.
#[derive(Debug, Clone, PartialEq)]
pub struct Varint {
    pub value: i64,
    pub bytes: Vec<u8>,
}

impl Varint {
    /// Decodes a varint from the front of `buf`: for each byte with the high
    /// bit set, the accumulator shifts left by 7 and takes the low 7 bits;
    /// the first byte without the high bit ends the run; a ninth byte is
    /// taken whole and ends the run unconditionally. When `buf` is exhausted
    /// first, the result is whatever was accumulated.
    pub fn new(buf: &[u8]) -> (r: Varint)
        ensures
            r.bytes@ == buf@.take(varint_size_spec(buf@) as int),
            r.bytes@.len() == varint_size_spec(buf@),
            r.value as int == varint_value_spec(buf@),
    {
        let ghost s = buf@;
        let mut value: u64 = 0;
        let mut bytes: Vec<u8> = Vec::new();
        let mut n: usize = 0;

        proof {
            reveal_with_fuel(pow128, 9);
            assert(pow128(8) == 0x100000000000000);
            assert(s.skip(0) =~= s);
        }

        while n < buf.len()
            invariant
                n <= 8,
                n <= buf@.len(),
                buf@ == s,
                bytes@ == s.take(n as int),
                (value as int) < pow128(n as nat),
                varint_acc(s.skip(n as int), (9 - n) as nat, value as int) == varint_acc(s, 9, 0),
                varint_len(s.skip(n as int), (9 - n) as nat) + n == varint_len(s, 9),
                pow128(8) == 0x100000000000000,
            decreases buf@.len() - n,
        {
            let byte = buf[n];
            bytes.push(byte);
            proof {
                assert(bytes@ =~= s.take(n as int + 1));
                assert(s.skip(n as int)[0] == s[n as int]);
                lemma_pow128_mono(n as nat, 8);
            }

            if n == 8 {
                // All 8 bits of the ninth byte are used.
                let v9 = value * 256 + (byte as u64);
                let signed = Self::to_signed(v9);
                proof {
                    assert(varint_acc(s.skip(8), 1, value as int) == value as int * 256 + s[8]);
                }
                return Varint { value: signed, bytes };
            }

            let ghost tail = s.skip(n as int);
            if byte < 128 {
                let v = value * 128 + (byte as u64);
                let signed = Self::to_signed(v);
                proof {
                    assert(varint_acc(tail, (9 - n) as nat, value as int) == value as int * 128
                        + s[n as int]);
                }
                return Varint { value: signed, bytes };
            }

            proof {
                assert(varint_acc(tail, (9 - n) as nat, value as int) == varint_acc(
                    tail.skip(1),
                    (9 - n - 1) as nat,
                    value as int * 128 + (s[n as int] - 128),
                ));
                assert(tail.skip(1) =~= s.skip(n as int + 1));
                assert(varint_len(tail, (9 - n) as nat) == 1 + varint_len(
                    tail.skip(1),
                    (9 - n - 1) as nat,
                ));
            }
            value = value * 128 + ((byte % 128) as u64);
            n = n + 1;
        }
        // The input ran out before the run terminated.
        proof {
            assert(s.skip(n as int).len() == 0);
            assert(bytes@ =~= s.take(varint_len(s, 9) as int));
        }
        let signed = Self::to_signed(value);
        Varint { value: signed, bytes }
    }

    /// Reinterprets the unsigned accumulation as a twos-complement `i64`.
    fn to_signed(v: u64) -> (r: i64)
        ensures
            r as int == wrap_i64(v as int),
    {
        if v < 0x8000000000000000 {
            v as i64
        } else {
            -1i64 - ((u64::MAX - v) as i64)
        }
    }

    /// Reinterprets a twos-complement value as its unsigned bit pattern.
    fn to_unsigned(v: i64) -> (r: u64)
        ensures
            r as int == unwrap_u64(v as int),
    {
        if v >= 0 {
            v as u64
        } else {
            u64::MAX - ((-1i64 - v) as u64)
        }
    }

    /// Encodes a value as a varint of exactly `size` bytes. A run shorter
    /// than nine bytes can carry only values below its capacity.
    pub fn encode(value: i64, size: usize) -> (r: Vec<u8>)
        requires
            1 <= size <= 9,
            size < 9 ==> unwrap_u64(value as int) < varint_capacity(size as nat, false),
        ensures
            r@ == varint_encode(unwrap_u64(value as int), size as nat),
    {
        let u = Self::to_unsigned(value);
        proof {
            if size == 9 {
                reveal_with_fuel(varint_capacity, 10);
                assert(varint_capacity(9, true) == 0x10000000000000000);
            }
        }
        Self::encode_rec(u, size, size == 9)
    }

    /// Encodes the `n` low bytes of `v`, mirroring the encoding's
    /// recursive shape.
    fn encode_rec(v: u64, n: usize, full: bool) -> (r: Vec<u8>)
        requires
            1 <= n <= 9,
            (v as int) < varint_capacity(n as nat, full),
        ensures
            r@ == varint_encode_full(v as int, n as nat, full),
        decreases n,
    {
        if n == 1 {
            let b: u8 = if full {
                (v % 256) as u8
            } else {
                (v % 128) as u8
            };
            let mut out: Vec<u8> = Vec::new();
            out.push(b);
            proof {
                assert(out@ =~= varint_encode_full(v as int, 1, full));
            }
            return out;
        }
        let cap = Self::capacity_exec(n - 1, full);
        proof {
            lemma_capacity_pos((n - 1) as nat, full);
        }
        let digit: u8 = ((v / cap) % 128) as u8;
        let mut out: Vec<u8> = Vec::new();
        out.push(128 + digit);
        let mut rest = Self::encode_rec(v % cap, n - 1, full);
        out.append(&mut rest);
        proof {
            assert(out@ =~= varint_encode_full(v as int, n as nat, full));
        }
        out
    }

    /// Computes the capacity of `n` varint bytes.
    fn capacity_exec(n: usize, full: bool) -> (r: u64)
        requires
            1 <= n <= 8,
        ensures
            r as int == varint_capacity(n as nat, full),
    {
        proof {
            reveal_with_fuel(varint_capacity, 10);
            assert(varint_capacity(7, true) == 0x4000000000000);
            assert(varint_capacity(7, false) == 0x2000000000000);
        }
        let mut r: u64 = if full {
            256
        } else {
            128
        };
        let mut k: usize = 1;
        while k < n
            invariant
                1 <= k <= n,
                n <= 8,
                r as int == varint_capacity(k as nat, full),
                varint_capacity(7, true) == 0x4000000000000,
                varint_capacity(7, false) == 0x2000000000000,
            decreases n - k,
        {
            proof {
                lemma_capacity_mono(k as nat, 7, full);
            }
            r = r * 128;
            k = k + 1;
        }
        r
    }
}

/// A capacity is always positive.
proof fn lemma_capacity_pos(n: nat, full: bool)
    ensures
        varint_capacity(n, full) >= 1,
    decreases n,
{
    if n > 1 {
        lemma_capacity_pos((n - 1) as nat, full);
    }
}

/// Capacity grows with the byte count.
proof fn lemma_capacity_mono(a: nat, b: nat, full: bool)
    requires
        1 <= a <= b,
    ensures
        varint_capacity(a, full) <= varint_capacity(b, full),
    decreases b,
{
    if a < b {
        lemma_capacity_mono(a, (b - 1) as nat, full);
        lemma_capacity_pos((b - 1) as nat, full);
    }
}

} // verus!
