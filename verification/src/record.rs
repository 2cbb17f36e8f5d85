//! The record format: cell payloads are a size-prefixed header of serial
//! types followed by the concatenated column bytes.

use vstd::prelude::*;
use vstd::slice::slice_subrange;
use crate::ParseError;
use crate::bytes::copy_range;
use crate::header::TextEncoding;
use crate::text::{utf8_decode, utf16_decode, utf16_units, utf8_to_string, utf16_to_string,
    read_utf16_units};
use crate::varint::{Varint, varint_size_spec, varint_value_spec, varint_len, varint_acc,
    lemma_varint_len_bounds};

verus! {

/// 256 raised to `n`.
pub open spec fn pow256(n: nat) -> nat
    decreases n,
{
    if n == 0 {
        1
    } else {
        256 * pow256((n - 1) as nat)
    }
}

/// The big-endian unsigned integer formed by all bytes of `s`.
pub open spec fn be_uint(s: Seq<u8>) -> int
    decreases s.len(),
{
    if s.len() == 0 {
        0
    } else {
        be_uint(s.drop_last()) * 256 + s.last()
    }
}

/// The twos-complement reinterpretation of an `n`-byte unsigned value.
pub open spec fn sign_ext(v: int, n: nat) -> int {
    if 2 * v < pow256(n) {
        v
    } else {
        v - pow256(n)
    }
}

/// The byte size a serial-type code declares for its column: the canonical
/// mapping of the record format. Codes without a size (reserved or
/// negative) are given size 0.
pub open spec fn serial_size(code: int) -> nat {
    if code == 1 {
        1
    } else if code == 2 {
        2
    } else if code == 3 {
        3
    } else if code == 4 {
        4
    } else if code == 5 {
        6
    } else if code == 6 {
        8
    } else if code == 7 {
        8
    } else if code >= 12 {
        ((code - 12) / 2) as nat
    } else {
        0
    }
}

/// A serial-type code usable for column data: non-negative and not one of
/// the reserved codes 10 and 11.
pub open spec fn serial_valid(code: int) -> bool {
    code >= 0 && code != 10 && code != 11
}

/// How many bytes of a column the page can hold: the declared size, capped
/// by what remains on the page.
pub open spec fn captured_size(code: int, avail: nat) -> nat {
    if serial_size(code) < avail {
        serial_size(code)
    } else {
        avail
    }
}

/// Decoding `s` as text in encoding `enc`: the character sequence, or
/// nothing when the bytes are invalid (for the 16-bit encodings an odd
/// byte count is always invalid).
pub open spec fn text_decode(enc: TextEncoding, s: Seq<u8>) -> Option<Seq<char>> {
    match enc {
        TextEncoding::UTF8 => utf8_decode(s),
        TextEncoding::UTF16le => if s.len() % 2 == 0 {
            utf16_decode(utf16_units(s, true))
        } else {
            None
        },
        TextEncoding::UTF16be => if s.len() % 2 == 0 {
            utf16_decode(utf16_units(s, false))
        } else {
            None
        },
    }
}

/// Namespace for the serial-type size table.
#[derive(Debug, Clone, PartialEq)]
pub struct RecordCode;

/// A mathematical size capped at what a `usize` can carry.
pub open spec fn clamp_usize(n: int) -> int {
    if n > usize::MAX {
        usize::MAX as int
    } else {
        n
    }
}

impl RecordCode {
    /// The declared byte size of a serial-type code, capped at the largest
    /// representable size.
    pub fn size(code: i64) -> (r: usize)
        ensures
            r == clamp_usize(serial_size(code as int) as int),
    {
        match code {
            1 => 1,
            2 => 2,
            3 => 3,
            4 => 4,
            5 => 6,
            6 => 8,
            7 => 8,
            n if n >= 12 => {
                let s = (n - 12) / 2;
                if (s as u64) <= (usize::MAX as u64) {
                    s as usize
                } else {
                    usize::MAX
                }
            },
            _ => 0,
        }
    }
}

/// A typed column value. Integers are sign-extended from their big-endian
/// bytes; a floating-point column keeps its raw IEEE-754 bit pattern.
#[derive(Debug, Clone, PartialEq)]
pub enum RecordType {
    Null,
    I8(i8),
    I16(i16),
    I24(i32),
    I32(i32),
    I48(i64),
    I64(i64),
    /// The big-endian bit pattern of an IEEE-754 double.
    F64(u64),
    Zero(i8),
    One(i8),
    Blob(Option<Vec<u8>>),
    Text(Option<String>),
}

/// One decoded column: the typed value and the byte run captured for it on
/// the page (`None` when the column occupies no bytes there).
#[derive(Debug, Clone, PartialEq)]
pub struct RecordValue {
    pub value: RecordType,
    pub bytes: Option<Vec<u8>>,
}

/// The number of bytes a decoded column captured.
pub open spec fn value_size(v: RecordValue) -> nat {
    match v.bytes {
        Some(b) => b@.len(),
        None => 0,
    }
}

/// The relation between a serial-type code, the bytes remaining on the
/// page, and the column value decoded from them. A fixed-width column cut
/// short by the end of the page keeps the truncated run with a `Null`
/// placeholder value; blob and text columns keep the captured prefix.
pub open spec fn record_value_ok(code: int, enc: TextEncoding, s: Seq<u8>, r: RecordValue) -> bool {
    let size = serial_size(code);
    let cap = captured_size(code, s.len());
    if code == 0 {
        r == (RecordValue { value: RecordType::Null, bytes: None::<Vec<u8>> })
    } else if code == 8 {
        r == (RecordValue { value: RecordType::Zero(0i8), bytes: None::<Vec<u8>> })
    } else if code == 9 {
        r == (RecordValue { value: RecordType::One(1i8), bytes: None::<Vec<u8>> })
    } else if 1 <= code <= 7 {
        if s.len() >= size {
            &&& r.bytes matches Some(b) && b@ == s.take(size as int)
            &&& (match r.value {
                RecordType::I8(v) => code == 1 && v as int == sign_ext(be_uint(s.take(1)), 1),
                RecordType::I16(v) => code == 2 && v as int == sign_ext(be_uint(s.take(2)), 2),
                RecordType::I24(v) => code == 3 && v as int == sign_ext(be_uint(s.take(3)), 3),
                RecordType::I32(v) => code == 4 && v as int == sign_ext(be_uint(s.take(4)), 4),
                RecordType::I48(v) => code == 5 && v as int == sign_ext(be_uint(s.take(6)), 6),
                RecordType::I64(v) => code == 6 && v as int == sign_ext(be_uint(s.take(8)), 8),
                RecordType::F64(bits) => code == 7 && bits as int == be_uint(s.take(8)),
                _ => false,
            })
        } else {
            // Spilled fixed-width column: keep the truncated run.
            &&& r.value == RecordType::Null
            &&& (if s.len() > 0 {
                r.bytes matches Some(b) && b@ == s
            } else {
                r.bytes is None
            })
        }
    } else if code >= 12 && code % 2 == 0 {
        if cap > 0 {
            &&& r.bytes matches Some(b) && b@ == s.take(cap as int)
            &&& r.value matches RecordType::Blob(ob) && ob matches Some(b2) && b2@ == s.take(
                cap as int,
            )
        } else {
            r == (RecordValue { value: RecordType::Blob(None::<Vec<u8>>), bytes: None::<Vec<u8>> })
        }
    } else if code >= 13 && code % 2 == 1 {
        if cap > 0 {
            &&& r.bytes matches Some(b) && b@ == s.take(cap as int)
            &&& r.value matches RecordType::Text(ot) && ot matches Some(t) && Some(t@)
                == text_decode(enc, s.take(cap as int))
        } else {
            r == (RecordValue { value: RecordType::Text(None::<String>), bytes: None::<Vec<u8>> })
        }
    } else {
        false
    }
}

/// The failure a column decode meets, if any: a reserved or negative
/// serial type, or text bytes invalid in the declared encoding.
pub open spec fn record_value_error(code: int, enc: TextEncoding, s: Seq<u8>) -> Option<
    ParseError,
> {
    let cap = captured_size(code, s.len());
    if !serial_valid(code) {
        Some(ParseError::InvalidSerialType { code: code as i64 })
    } else if code >= 13 && code % 2 == 1 && cap > 0 && text_decode(enc, s.take(cap as int))
        is None {
        Some(ParseError::TextDecode)
    } else {
        None
    }
}

impl RecordValue {
    /// Decodes one column of serial type `code` from the front of `buf`.
    pub fn new(code: i64, text_encoding: TextEncoding, buf: &[u8]) -> (r: Result<
        RecordValue,
        ParseError,
    >)
        ensures
            r matches Ok(v) ==> record_value_ok(code as int, text_encoding, buf@, v),
            r matches Ok(v) ==> value_size(v) == captured_size(code as int, buf@.len()),
            r is Ok <==> record_value_error(code as int, text_encoding, buf@) is None,
            r matches Err(e) ==> Some(e) == record_value_error(code as int, text_encoding, buf@),
    {
        if code < 0 || code == 10 || code == 11 {
            return Err(ParseError::InvalidSerialType { code });
        }
        if code == 0 {
            return Ok(RecordValue { value: RecordType::Null, bytes: None });
        }
        if code == 8 {
            return Ok(RecordValue { value: RecordType::Zero(0), bytes: None });
        }
        if code == 9 {
            return Ok(RecordValue { value: RecordType::One(1), bytes: None });
        }
        if code <= 7 {
            return Ok(Self::new_fixed(code, buf));
        }
        // Blob or text; data might be spilled onto overflow pages, so the
        // captured run is capped by what remains.
        let size = RecordCode::size(code);
        let cap = if size < buf.len() {
            size
        } else {
            buf.len()
        };
        if code % 2 == 0 {
            if cap > 0 {
                let bytes = copy_range(buf, 0, cap);
                let value_bytes = copy_range(buf, 0, cap);
                Ok(RecordValue { value: RecordType::Blob(Some(value_bytes)), bytes: Some(bytes) })
            } else {
                Ok(RecordValue { value: RecordType::Blob(None), bytes: None })
            }
        } else {
            if cap > 0 {
                let bytes = copy_range(buf, 0, cap);
                let text = match Self::decode_text(text_encoding, &bytes) {
                    Some(t) => t,
                    None => {
                        return Err(ParseError::TextDecode);
                    },
                };
                Ok(RecordValue { value: RecordType::Text(Some(text)), bytes: Some(bytes) })
            } else {
                Ok(RecordValue { value: RecordType::Text(None), bytes: None })
            }
        }
    }

    /// Decodes text bytes in the given encoding.
    fn decode_text(enc: TextEncoding, bytes: &Vec<u8>) -> (r: Option<String>)
        ensures
            r is Some <==> text_decode(enc, bytes@) is Some,
            r matches Some(t) ==> Some(t@) == text_decode(enc, bytes@),
    {
        match enc {
            TextEncoding::UTF8 => {
                let copy = copy_range(bytes.as_slice(), 0, bytes.len());
                proof {
                    assert(copy@ =~= bytes@);
                }
                utf8_to_string(copy)
            },
            TextEncoding::UTF16le => {
                if bytes.len() % 2 != 0 {
                    return None;
                }
                let units = read_utf16_units(bytes.as_slice(), true);
                utf16_to_string(&units)
            },
            TextEncoding::UTF16be => {
                if bytes.len() % 2 != 0 {
                    return None;
                }
                let units = read_utf16_units(bytes.as_slice(), false);
                utf16_to_string(&units)
            },
        }
    }

    /// Decodes a fixed-width column (codes 1 through 7).
    fn new_fixed(code: i64, buf: &[u8]) -> (r: RecordValue)
        requires
            1 <= code <= 7,
        ensures
            forall|enc: TextEncoding| record_value_ok(code as int, enc, buf@, r),
            value_size(r) == captured_size(code as int, buf@.len()),
    {
        let size = RecordCode::size(code);
        if buf.len() < size {
            // Spilled fixed-width column: keep the truncated run.
            if buf.len() > 0 {
                let bytes = copy_range(buf, 0, buf.len());
                proof {
                    assert(bytes@ =~= buf@);
                }
                return RecordValue { value: RecordType::Null, bytes: Some(bytes) };
            }
            return RecordValue { value: RecordType::Null, bytes: None };
        }
        let bytes = copy_range(buf, 0, size);
        let u = Self::read_be_uint(buf, size);
        proof {
            reveal_with_fuel(pow256, 9);
        }
        let value = match code {
            1 => RecordType::I8(Self::extend(u, 0x80, 0x100) as i8),
            2 => RecordType::I16(Self::extend(u, 0x8000, 0x10000) as i16),
            3 => RecordType::I24(Self::extend(u, 0x800000, 0x1000000) as i32),
            4 => RecordType::I32(Self::extend(u, 0x80000000, 0x100000000) as i32),
            5 => RecordType::I48(Self::extend(u, 0x800000000000, 0x1000000000000)),
            6 => RecordType::I64(Self::extend_full(u)),
            _ => RecordType::F64(u),
        };
        RecordValue { value, bytes: Some(bytes) }
    }

    /// Accumulates `size` big-endian bytes into an unsigned value.
    fn read_be_uint(buf: &[u8], size: usize) -> (r: u64)
        requires
            size <= buf@.len(),
            size <= 8,
        ensures
            r == be_uint(buf@.take(size as int)),
            r < pow256(size as nat),
    {
        proof {
            reveal_with_fuel(pow256, 9);
        }
        let mut v: u64 = 0;
        let mut i: usize = 0;
        while i < size
            invariant
                i <= size,
                size <= buf@.len(),
                size <= 8,
                v == be_uint(buf@.take(i as int)),
                v < pow256(i as nat),
                pow256(8) == 0x10000000000000000,
            decreases size - i,
        {
            proof {
                reveal_with_fuel(pow256, 9);
                assert(buf@.take(i as int + 1).drop_last() =~= buf@.take(i as int));
                assert(buf@.take(i as int + 1).last() == buf@[i as int]);
            }
            v = v * 256 + (buf[i] as u64);
            i = i + 1;
        }
        v
    }

    /// Sign-extends `v` below the boundary `half` within the range `full`.
    fn extend(v: u64, half: u64, full: i64) -> (r: i64)
        requires
            half >= 1,
            full == 2 * half,
            v < full,
            pow256(log_of(full as int)) == full,
        ensures
            r as int == sign_ext(v as int, log_of(full as int)),
    {
        if v < half {
            v as i64
        } else {
            (v as i64) - full
        }
    }

    /// Sign-extends a full 64-bit unsigned value.
    fn extend_full(v: u64) -> (r: i64)
        ensures
            r as int == sign_ext(v as int, 8),
    {
        proof {
            reveal_with_fuel(pow256, 9);
        }
        if v < 0x8000000000000000 {
            v as i64
        } else {
            -1i64 - ((u64::MAX - v) as i64)
        }
    }
}

/// Splits a byte region into consecutive varint byte runs, as the record
/// header is read: one run after the other until the region is exhausted.
pub open spec fn varint_runs(region: Seq<u8>) -> Seq<Seq<u8>>
    decreases region.len(),
{
    if region.len() == 0 {
        Seq::empty()
    } else {
        let c = varint_size_spec(region) as int;
        let step: int = if c < 1 {
            1
        } else if c > region.len() {
            region.len() as int
        } else {
            c
        };
        seq![region.take(step)] + varint_runs(region.skip(step))
    }
}

/// The signed values of a sequence of varint byte runs.
pub open spec fn runs_values(runs: Seq<Seq<u8>>) -> Seq<int> {
    runs.map_values(|r: Seq<u8>| varint_value_spec(r))
}

/// The signed values of a sequence of decoded varints.
pub open spec fn codes_of(vs: Seq<Varint>) -> Seq<int> {
    vs.map_values(|v: Varint| v.value as int)
}

/// A varint decode reads only the bytes it consumes: truncating the input
/// to the consumed run changes neither the run length nor the value.
pub proof fn lemma_varint_take(s: Seq<u8>, max: nat, acc: int)
    ensures
        varint_len(s.take(varint_len(s, max) as int), max) == varint_len(s, max),
        varint_acc(s.take(varint_len(s, max) as int), max, acc) == varint_acc(s, max, acc),
    decreases max,
{
    if s.len() == 0 || max == 0 {
        assert(s.take(0) =~= Seq::<u8>::empty());
    } else if max == 1 || s[0] < 128 {
        assert(s.take(1)[0] == s[0]);
    } else {
        let c = varint_len(s.skip(1), (max - 1) as nat) as int;
        lemma_varint_len_bounds(s.skip(1), (max - 1) as nat);
        lemma_varint_take(s.skip(1), (max - 1) as nat, acc * 128 + (s[0] - 128));
        assert(s.take(c + 1)[0] == s[0]);
        assert(s.take(c + 1).skip(1) =~= s.skip(1).take(c));
    }
}

/// The record header: its total size (a varint, counting its own bytes)
/// and one serial-type varint per column.
#[derive(Debug, Clone, PartialEq)]
pub struct RecordHeader {
    pub size: Varint,
    pub datatypes: Vec<Varint>,
}

/// The relation between a record byte image and its decoded header.
pub open spec fn record_header_ok(s: Seq<u8>, h: RecordHeader) -> bool {
    let sl = varint_size_spec(s) as int;
    let hl = varint_value_spec(s);
    let runs = varint_runs(s.subrange(sl, hl));
    &&& h.size.bytes@ == s.take(sl)
    &&& h.size.value as int == hl
    &&& 0 <= sl <= hl <= s.len()
    &&& h.datatypes@.len() == runs.len()
    &&& forall|i: int|
        0 <= i < runs.len() ==> #[trigger] h.datatypes@[i].bytes@ == runs[i]
            && h.datatypes@[i].value as int == varint_value_spec(runs[i])
}

/// The failure a record-header decode meets, if any: a negative header
/// size, or a header that does not fit the bytes at hand.
pub open spec fn record_header_error(s: Seq<u8>) -> Option<ParseError> {
    let sl = varint_size_spec(s) as int;
    let hl = varint_value_spec(s);
    if hl < 0 {
        Some(ParseError::InvalidPayloadSize { value: hl as i64 })
    } else if hl > s.len() {
        Some(ParseError::Truncated { expected: hl as usize, got: s.len() as usize })
    } else if hl < sl {
        Some(ParseError::Truncated { expected: sl as usize, got: hl as usize })
    } else {
        None
    }
}

impl RecordHeader {
    /// Decodes the record header from the front of `buf`: the header-size
    /// varint, then serial-type varints until the header is exhausted.
    pub fn parse(buf: &[u8]) -> (r: Result<RecordHeader, ParseError>)
        ensures
            r matches Ok(h) ==> record_header_ok(buf@, h),
            r is Ok <==> record_header_error(buf@) is None,
            r matches Err(e) ==> Some(e) == record_header_error(buf@),
    {
        let size = Varint::new(buf);
        if size.value < 0 {
            return Err(ParseError::InvalidPayloadSize { value: size.value });
        }
        if (size.value as u64) > (buf.len() as u64) {
            return Err(
                ParseError::Truncated {
                    expected: #[verifier::truncate] (size.value as usize),
                    got: buf.len(),
                },
            );
        }
        let header_len = size.value as usize;
        let size_len = size.bytes.len();
        if header_len < size_len {
            return Err(ParseError::Truncated { expected: size_len, got: header_len });
        }

        let ghost region = buf@.subrange(size_len as int, header_len as int);
        let mut datatypes: Vec<Varint> = Vec::new();
        let mut off: usize = size_len;
        while off < header_len
            invariant
                size_len <= off <= header_len,
                header_len <= buf@.len(),
                region == buf@.subrange(size_len as int, header_len as int),
                varint_runs(region) =~= datatypes@.map_values(|v: Varint| v.bytes@) + varint_runs(
                    buf@.subrange(off as int, header_len as int),
                ),
                forall|i: int|
                    0 <= i < datatypes@.len() ==> #[trigger] datatypes@[i].value as int
                        == varint_value_spec(datatypes@[i].bytes@),
            decreases header_len - off,
        {
            let ghost tail = buf@.subrange(off as int, header_len as int);
            let window = slice_subrange(buf, off, header_len);
            let datatype = Varint::new(window);
            proof {
                lemma_varint_len_bounds(tail, 9);
                lemma_varint_take(tail, 9, 0);
            }
            let consumed = datatype.bytes.len();
            proof {
                let c = varint_size_spec(tail) as int;
                assert(varint_runs(tail) == seq![tail.take(c)] + varint_runs(tail.skip(c)));
                assert(tail.take(c) == datatype.bytes@);
                assert(tail.skip(c) =~= buf@.subrange(off + c, header_len as int));
                assert((datatypes@ + seq![datatype]).map_values(|v: Varint| v.bytes@)
                    =~= datatypes@.map_values(|v: Varint| v.bytes@) + seq![datatype.bytes@]);
            }
            datatypes.push(datatype);
            off = off + consumed;
        }
        proof {
            assert(buf@.subrange(off as int, header_len as int).len() == 0);
            assert(varint_runs(buf@.subrange(off as int, header_len as int)) =~= Seq::<
                Seq<u8>,
            >::empty());
            assert(varint_runs(region) =~= datatypes@.map_values(|v: Varint| v.bytes@));
            assert forall|i: int| 0 <= i < varint_runs(region).len() implies #[trigger] datatypes@[
                i
            ].bytes@ == varint_runs(region)[i] && datatypes@[i].value as int == varint_value_spec(
                varint_runs(region)[i],
            ) by {
                assert(datatypes@.map_values(|v: Varint| v.bytes@)[i] == datatypes@[i].bytes@);
            }
        }
        Ok(RecordHeader { size, datatypes })
    }
}

/// The relation between the serial-type codes of a record, the bytes after
/// its header, and the decoded column values: each column captures its
/// declared size (capped by what remains), and decoding stops at the end
/// of the page except that size-zero columns still produce values.
pub open spec fn values_ok(
    enc: TextEncoding,
    codes: Seq<int>,
    rest: Seq<u8>,
    vals: Seq<RecordValue>,
) -> bool
    decreases codes.len(),
{
    if codes.len() == 0 {
        vals.len() == 0
    } else if rest.len() == 0 && serial_size(codes[0]) != 0 {
        vals.len() == 0
    } else {
        &&& vals.len() >= 1
        &&& record_value_ok(codes[0], enc, rest, vals[0])
        &&& value_size(vals[0]) == captured_size(codes[0], rest.len())
        &&& values_ok(
            enc,
            codes.skip(1),
            rest.skip(captured_size(codes[0], rest.len()) as int),
            vals.skip(1),
        )
    }
}

/// The failure the column decoding loop meets, if any.
pub open spec fn values_error(enc: TextEncoding, codes: Seq<int>, rest: Seq<u8>) -> Option<
    ParseError,
>
    decreases codes.len(),
{
    if codes.len() == 0 {
        None
    } else if rest.len() == 0 && serial_size(codes[0]) != 0 {
        None
    } else if record_value_error(codes[0], enc, rest) is Some {
        record_value_error(codes[0], enc, rest)
    } else {
        values_error(enc, codes.skip(1), rest.skip(captured_size(codes[0], rest.len()) as int))
    }
}

/// A decoded record: its header and its column values in order.
#[derive(Debug, Clone, PartialEq)]
pub struct Record {
    pub header: RecordHeader,
    pub values: Vec<RecordValue>,
}

/// The failure a whole-record decode meets, if any.
pub open spec fn record_error(enc: TextEncoding, s: Seq<u8>) -> Option<ParseError> {
    if record_header_error(s) is Some {
        record_header_error(s)
    } else {
        let sl = varint_size_spec(s) as int;
        let hl = varint_value_spec(s);
        values_error(enc, runs_values(varint_runs(s.subrange(sl, hl))), s.skip(hl))
    }
}

impl Record {
    /// Decodes a record — header, then column values — from the front of
    /// `buf` in the given text encoding.
    pub fn parse(text_encoding: TextEncoding, buf: &[u8]) -> (r: Result<Record, ParseError>)
        ensures
            r matches Ok(rec) ==> record_header_ok(buf@, rec.header) && values_ok(
                text_encoding,
                codes_of(rec.header.datatypes@),
                buf@.skip(varint_value_spec(buf@)),
                rec.values@,
            ),
            r is Ok <==> record_error(text_encoding, buf@) is None,
            r matches Err(e) ==> Some(e) == record_error(text_encoding, buf@),
    {
        let header = match RecordHeader::parse(buf) {
            Ok(h) => h,
            Err(e) => {
                return Err(e);
            },
        };
        let n = buf.len();
        proof {
            assert(0 <= header.size.value as int <= n as int);
        }
        let header_len = header.size.value as usize;
        proof {
            let sl = varint_size_spec(buf@) as int;
            let hl = varint_value_spec(buf@);
            let runs = varint_runs(buf@.subrange(sl, hl));
            assert(codes_of(header.datatypes@).len() == runs_values(runs).len());
            assert forall|i: int| 0 <= i < runs.len() implies codes_of(header.datatypes@)[i]
                == runs_values(runs)[i] by {
                assert(header.datatypes@[i].bytes@ == runs[i]);
            }
            assert(codes_of(header.datatypes@) =~= runs_values(runs));
            assert(header.datatypes@.skip(0) =~= header.datatypes@);
        }
        let values = match Self::parse_values(text_encoding, &header.datatypes, 0, buf, header_len) {
            Ok(vs) => vs,
            Err(e) => {
                return Err(e);
            },
        };
        Ok(Record { header, values })
    }

    /// Decodes the column values named by `datatypes[idx..]` from
    /// `buf[off..]`, one column after the other.
    fn parse_values(
        enc: TextEncoding,
        datatypes: &Vec<Varint>,
        idx: usize,
        buf: &[u8],
        off: usize,
    ) -> (r: Result<Vec<RecordValue>, ParseError>)
        requires
            idx <= datatypes@.len(),
            off <= buf@.len(),
        ensures
            r matches Ok(vs) ==> values_ok(
                enc,
                codes_of(datatypes@.skip(idx as int)),
                buf@.skip(off as int),
                vs@,
            ),
            r is Ok <==> values_error(
                enc,
                codes_of(datatypes@.skip(idx as int)),
                buf@.skip(off as int),
            ) is None,
            r matches Err(e) ==> Some(e) == values_error(
                enc,
                codes_of(datatypes@.skip(idx as int)),
                buf@.skip(off as int),
            ),
        decreases datatypes@.len() - idx,
    {
        let ghost codes = codes_of(datatypes@.skip(idx as int));
        let ghost rest = buf@.skip(off as int);
        if idx == datatypes.len() {
            return Ok(Vec::new());
        }
        proof {
            assert(codes[0] == datatypes@[idx as int].value as int);
        }
        let code = datatypes[idx].value;
        let size = RecordCode::size(code);
        let avail = buf.len() - off;
        if avail == 0 && size != 0 {
            // End of the page: the column (and all after it) is spilled.
            return Ok(Vec::new());
        }
        let window = slice_subrange(buf, off, buf.len());
        proof {
            assert(window@ =~= rest);
        }
        let value = match RecordValue::new(code, enc, window) {
            Ok(v) => v,
            Err(e) => {
                return Err(e);
            },
        };
        let cap = if size < avail {
            size
        } else {
            avail
        };
        proof {
            assert(cap == captured_size(codes[0], rest.len()));
            assert(codes.skip(1) =~= codes_of(datatypes@.skip(idx as int + 1)));
            assert(rest.skip(cap as int) =~= buf@.skip(off as int + cap as int));
        }
        let mut tail_values = match Self::parse_values(enc, datatypes, idx + 1, buf, off + cap) {
            Ok(vs) => vs,
            Err(e) => {
                return Err(e);
            },
        };
        let ghost old_tail = tail_values@;
        tail_values.insert(0, value);
        proof {
            assert(tail_values@[0] == value);
            assert(tail_values@.skip(1) =~= old_tail);
        }
        Ok(tail_values)
    }
}

/// Two typed column values carry the same content, compared through the
/// views of their owned byte runs and strings.
pub open spec fn rt_like(a: RecordType, b: RecordType) -> bool {
    match (a, b) {
        (RecordType::Null, RecordType::Null) => true,
        (RecordType::I8(x), RecordType::I8(y)) => x == y,
        (RecordType::I16(x), RecordType::I16(y)) => x == y,
        (RecordType::I24(x), RecordType::I24(y)) => x == y,
        (RecordType::I32(x), RecordType::I32(y)) => x == y,
        (RecordType::I48(x), RecordType::I48(y)) => x == y,
        (RecordType::I64(x), RecordType::I64(y)) => x == y,
        (RecordType::F64(x), RecordType::F64(y)) => x == y,
        (RecordType::Zero(x), RecordType::Zero(y)) => x == y,
        (RecordType::One(x), RecordType::One(y)) => x == y,
        (RecordType::Blob(x), RecordType::Blob(y)) => match (x, y) {
            (Some(bx), Some(by)) => bx@ == by@,
            (None, None) => true,
            _ => false,
        },
        (RecordType::Text(x), RecordType::Text(y)) => match (x, y) {
            (Some(tx), Some(ty)) => tx@ == ty@,
            (None, None) => true,
            _ => false,
        },
        _ => false,
    }
}

/// Two decoded columns carry the same content.
pub open spec fn rv_like(a: RecordValue, b: RecordValue) -> bool {
    &&& rt_like(a.value, b.value)
    &&& (match (a.bytes, b.bytes) {
        (Some(x), Some(y)) => x@ == y@,
        (None, None) => true,
        _ => false,
    })
}

impl RecordValue {
    /// Copies a decoded column, content and byte run alike.
    pub fn duplicate(&self) -> (r: RecordValue)
        ensures
            rv_like(r, *self),
    {
        let value = match &self.value {
            RecordType::Null => RecordType::Null,
            RecordType::I8(x) => RecordType::I8(*x),
            RecordType::I16(x) => RecordType::I16(*x),
            RecordType::I24(x) => RecordType::I24(*x),
            RecordType::I32(x) => RecordType::I32(*x),
            RecordType::I48(x) => RecordType::I48(*x),
            RecordType::I64(x) => RecordType::I64(*x),
            RecordType::F64(x) => RecordType::F64(*x),
            RecordType::Zero(x) => RecordType::Zero(*x),
            RecordType::One(x) => RecordType::One(*x),
            RecordType::Blob(b) => RecordType::Blob(
                match b {
                    Some(bytes) => Some(copy_vec(bytes)),
                    None => None,
                },
            ),
            RecordType::Text(t) => RecordType::Text(
                match t {
                    Some(s) => Some(s.clone()),
                    None => None,
                },
            ),
        };
        let bytes = match &self.bytes {
            Some(b) => Some(copy_vec(b)),
            None => None,
        };
        RecordValue { value, bytes }
    }
}

/// Copies a byte vector.
pub fn copy_vec(b: &Vec<u8>) -> (r: Vec<u8>)
    ensures
        r@ == b@,
{
    let r = copy_range(b.as_slice(), 0, b.len());
    proof {
        assert(r@ =~= b@);
    }
    r
}

/// The byte count whose `pow256` equals `full`, for the boundaries used by
/// the fixed-width columns.
pub open spec fn log_of(full: int) -> nat {
    if full == 0x100 {
        1
    } else if full == 0x10000 {
        2
    } else if full == 0x1000000 {
        3
    } else if full == 0x100000000 {
        4
    } else if full == 0x1000000000000 {
        6
    } else {
        8
    }
}

} // verus!
