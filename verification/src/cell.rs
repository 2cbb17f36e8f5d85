//! Cells: the four per-entry structures of b-tree pages, with the
//! overflow-spill arithmetic that decides how much of a payload stays on
//! the page.

use vstd::prelude::*;
use vstd::slice::slice_subrange;
use crate::ParseError;
use crate::bytes::{be32, read_u32_be};
use crate::header::{DBHeader, TextEncoding, page_size_valid_interp};
use crate::overflow::{OverflowUnit, sum_units};
use crate::page::PageHeaderType;
use crate::record::{Record, RecordValue, record_header_ok, record_error, values_ok, codes_of,
    serial_size, clamp_usize, value_size, captured_size, RecordCode};
use crate::varint::{Varint, varint_size_spec, varint_value_spec, lemma_varint_len_bounds};

verus! {

/// The most payload a cell may keep on its page without spilling:
/// `u - 35` on table leaves, `(u-12)*64/255 - 23` on index pages.
pub open spec fn max_local(leaf_table: bool, u: int) -> int {
    if leaf_table {
        u - 35
    } else {
        (u - 12) * 64 / 255 - 23
    }
}

/// The least payload a spilling cell must keep on its page.
pub open spec fn min_local(u: int) -> int {
    (u - 12) * 32 / 255 - 23
}

/// How many bytes of a declared payload of `p` bytes stay on the page,
/// for usable page size `u`.
pub open spec fn on_page_size(leaf_table: bool, u: int, p: int) -> int {
    let x = max_local(leaf_table, u);
    if p <= x {
        p
    } else {
        let m = min_local(u);
        let k = m + (p - m) % (u - 4);
        if k <= x {
            k
        } else {
            m
        }
    }
}

/// The overflow units a spilled record owes: for each column, the deficit
/// between its declared size and the bytes captured on the page; columns
/// wholly absent from the page owe their entire declared size, and columns
/// captured whole owe nothing.
pub open spec fn spec_units(codes: Seq<int>, vals: Seq<RecordValue>) -> Seq<OverflowUnit>
    decreases codes.len(),
{
    if codes.len() == 0 {
        Seq::empty()
    } else {
        let sz = clamp_usize(serial_size(codes[0]) as int);
        let col: int = if vals.len() > 0 {
            value_size(vals[0]) as int
        } else {
            0
        };
        let tail = spec_units(
            codes.skip(1),
            if vals.len() > 0 {
                vals.skip(1)
            } else {
                vals
            },
        );
        if vals.len() > 0 && col == sz {
            tail
        } else {
            seq![
                OverflowUnit {
                    bytes_left: (if col <= sz {
                        sz - col
                    } else {
                        0
                    }) as usize,
                    overflow_type: codes[0] as i64,
                },
            ] + tail
        }
    }
}

/// The declared sizes of a record's columns, summed (each capped at what a
/// `usize` can carry, as the decoder stores them).
pub open spec fn sum_sizes(codes: Seq<int>) -> int
    decreases codes.len(),
{
    if codes.len() == 0 {
        0
    } else {
        clamp_usize(serial_size(codes[0]) as int) + sum_sizes(codes.skip(1))
    }
}

/// The bytes captured on the page across a record's column values.
pub open spec fn sum_captured(vals: Seq<RecordValue>) -> int
    decreases vals.len(),
{
    if vals.len() == 0 {
        0
    } else {
        value_size(vals[0]) + sum_captured(vals.skip(1))
    }
}

/// The relation between a payload window and the record plus overflow
/// descriptor decoded from it: the record is decoded from the on-page
/// prefix of the payload; a spilling cell records the first overflow page
/// number and one unit per column deficit.
pub open spec fn payload_ok(
    enc: TextEncoding,
    u: int,
    leaf_table: bool,
    p: int,
    s: Seq<u8>,
    off: int,
    rec: Record,
    ov: Option<CellOverflow>,
) -> bool {
    let on_page = on_page_size(leaf_table, u, p);
    let w = s.subrange(off, off + on_page);
    &&& record_header_ok(w, rec.header)
    &&& values_ok(
        enc,
        codes_of(rec.header.datatypes@),
        w.skip(varint_value_spec(w)),
        rec.values@,
    )
    &&& if p == on_page {
        ov is None
    } else {
        ov matches Some(o) && o.page == be32(s, off + on_page) && o.units@ == spec_units(
            codes_of(rec.header.datatypes@),
            rec.values@,
        )
    }
}

/// The failure decoding a payload meets, if any: a negative declared size,
/// a window that runs past the cell's bytes, a missing overflow pointer,
/// or a record that does not decode.
pub open spec fn payload_error(
    enc: TextEncoding,
    u: int,
    leaf_table: bool,
    p: int,
    s: Seq<u8>,
    off: int,
) -> Option<ParseError> {
    let on_page = on_page_size(leaf_table, u, p);
    if p < 0 {
        Some(ParseError::InvalidPayloadSize { value: p as i64 })
    } else if off + on_page > s.len() {
        Some(
            ParseError::Truncated {
                expected: on_page as usize,
                got: (s.len() - off) as usize,
            },
        )
    } else if p != on_page && off + on_page + 4 > s.len() {
        Some(
            ParseError::Truncated {
                expected: 4,
                got: (s.len() - off - on_page) as usize,
            },
        )
    } else {
        record_error(enc, s.subrange(off, off + on_page))
    }
}

/// A cell's overflow descriptor: the first overflow page and the units
/// still owed, one per column deficit.
#[derive(Debug, Clone, PartialEq)]
pub struct CellOverflow {
    pub page: u32,
    pub units: Vec<OverflowUnit>,
}

/// A table-leaf cell: payload length, rowid, the on-page record prefix,
/// and the overflow descriptor when the payload spills.
#[derive(Debug, Clone, PartialEq)]
pub struct TableLeafCell {
    pub payload_varint: Varint,
    pub rowid_varint: Varint,
    pub payload: Record,
    pub overflow: Option<CellOverflow>,
}

/// A table-interior cell: a left child pointer and a rowid. It has no
/// payload and can never overflow.
#[derive(Debug, Clone, PartialEq)]
pub struct TableInteriorCell {
    pub left_page_number: u32,
    pub rowid_varint: Varint,
}

/// An index-leaf cell: payload length, the on-page record prefix, and the
/// overflow descriptor when the payload spills.
#[derive(Debug, Clone, PartialEq)]
pub struct IndexLeafCell {
    pub payload_varint: Varint,
    pub payload: Record,
    pub overflow: Option<CellOverflow>,
}

/// An index-interior cell: a left child pointer, then payload as on an
/// index leaf.
#[derive(Debug, Clone, PartialEq)]
pub struct IndexInteriorCell {
    pub left_page_number: u32,
    pub payload_varint: Varint,
    pub payload: Record,
    pub overflow: Option<CellOverflow>,
}

/// One cell of a b-tree page, in one of its four variants.
#[derive(Debug, Clone, PartialEq)]
pub enum Cell {
    TableLeaf(TableLeafCell),
    TableInterior(TableInteriorCell),
    IndexLeaf(IndexLeafCell),
    IndexInterior(IndexInteriorCell),
}

/// The relation between a table-leaf cell and its bytes.
pub open spec fn table_leaf_ok(enc: TextEncoding, u: int, s: Seq<u8>, c: TableLeafCell) -> bool {
    let pl = varint_size_spec(s) as int;
    let s1 = s.skip(pl);
    let rl = varint_size_spec(s1) as int;
    &&& c.payload_varint.bytes@ == s.take(pl)
    &&& c.payload_varint.value as int == varint_value_spec(s)
    &&& c.rowid_varint.bytes@ == s1.take(rl)
    &&& c.rowid_varint.value as int == varint_value_spec(s1)
    &&& payload_ok(enc, u, true, varint_value_spec(s), s, pl + rl, c.payload, c.overflow)
}

/// The relation between a table-interior cell and its bytes.
pub open spec fn table_interior_ok(s: Seq<u8>, c: TableInteriorCell) -> bool {
    &&& c.left_page_number == be32(s, 0)
    &&& c.rowid_varint.bytes@ == s.skip(4).take(varint_size_spec(s.skip(4)) as int)
    &&& c.rowid_varint.value as int == varint_value_spec(s.skip(4))
}

/// The relation between an index-leaf cell and its bytes.
pub open spec fn index_leaf_ok(enc: TextEncoding, u: int, s: Seq<u8>, c: IndexLeafCell) -> bool {
    let pl = varint_size_spec(s) as int;
    &&& c.payload_varint.bytes@ == s.take(pl)
    &&& c.payload_varint.value as int == varint_value_spec(s)
    &&& payload_ok(enc, u, false, varint_value_spec(s), s, pl, c.payload, c.overflow)
}

/// The relation between an index-interior cell and its bytes.
pub open spec fn index_interior_ok(
    enc: TextEncoding,
    u: int,
    s: Seq<u8>,
    c: IndexInteriorCell,
) -> bool {
    let s1 = s.skip(4);
    let pl = varint_size_spec(s1) as int;
    &&& c.left_page_number == be32(s, 0)
    &&& c.payload_varint.bytes@ == s1.take(pl)
    &&& c.payload_varint.value as int == varint_value_spec(s1)
    &&& payload_ok(enc, u, false, varint_value_spec(s1), s, 4 + pl, c.payload, c.overflow)
}

/// The relation between a cell and its bytes: the variant matches the page
/// type and its fields decode from the cell's byte window.
pub open spec fn cell_ok(
    pt: PageHeaderType,
    enc: TextEncoding,
    u: int,
    s: Seq<u8>,
    c: Cell,
) -> bool {
    match c {
        Cell::TableLeaf(tl) => pt == PageHeaderType::LeafTable && table_leaf_ok(enc, u, s, tl),
        Cell::TableInterior(ti) => pt == PageHeaderType::InteriorTable && table_interior_ok(s, ti),
        Cell::IndexLeaf(il) => pt == PageHeaderType::LeafIndex && index_leaf_ok(enc, u, s, il),
        Cell::IndexInterior(ii) => pt == PageHeaderType::InteriorIndex && index_interior_ok(
            enc,
            u,
            s,
            ii,
        ),
    }
}

/// The failure decoding a cell of the given page type meets, if any.
pub open spec fn cell_error(pt: PageHeaderType, enc: TextEncoding, u: int, s: Seq<u8>) -> Option<
    ParseError,
> {
    match pt {
        PageHeaderType::LeafTable => {
            let pl = varint_size_spec(s) as int;
            let rl = varint_size_spec(s.skip(pl)) as int;
            payload_error(enc, u, true, varint_value_spec(s), s, pl + rl)
        },
        PageHeaderType::InteriorTable => if s.len() < 4 {
            Some(ParseError::Truncated { expected: 4, got: s.len() as usize })
        } else {
            None
        },
        PageHeaderType::LeafIndex => {
            let pl = varint_size_spec(s) as int;
            payload_error(enc, u, false, varint_value_spec(s), s, pl)
        },
        PageHeaderType::InteriorIndex => if s.len() < 4 {
            Some(ParseError::Truncated { expected: 4, got: s.len() as usize })
        } else {
            let s1 = s.skip(4);
            let pl = varint_size_spec(s1) as int;
            payload_error(enc, u, false, varint_value_spec(s1), s, 4 + pl)
        },
    }
}

impl Cell {
    /// Decodes one cell from the front of `buf`, dispatching on the page
    /// type of the page that holds it.
    pub fn new(page_type: PageHeaderType, db_header: &DBHeader, buf: &[u8]) -> (r: Result<
        Cell,
        ParseError,
    >)
        requires
            page_size_valid_interp(db_header.page_size as int),
        ensures
            r matches Ok(c) ==> cell_ok(
                page_type,
                db_header.text_encoding,
                db_header.page_size - db_header.reserved_page_space,
                buf@,
                c,
            ),
            r is Ok <==> cell_error(
                page_type,
                db_header.text_encoding,
                db_header.page_size - db_header.reserved_page_space,
                buf@,
            ) is None,
            r matches Err(e) ==> Some(e) == cell_error(
                page_type,
                db_header.text_encoding,
                db_header.page_size - db_header.reserved_page_space,
                buf@,
            ),
    {
        match page_type {
            PageHeaderType::LeafTable => {
                let payload_varint = Varint::new(buf);
                proof {
                    lemma_varint_len_bounds(buf@, 9);
                }
                let offset = payload_varint.bytes.len();
                let window = slice_subrange(buf, offset, buf.len());
                proof {
                    assert(window@ =~= buf@.skip(offset as int));
                }
                let rowid_varint = Varint::new(window);
                proof {
                    lemma_varint_len_bounds(window@, 9);
                }
                let offset2 = offset + rowid_varint.bytes.len();
                match Self::parse_payload(db_header, true, &payload_varint, buf, offset2) {
                    Ok((payload, overflow)) => Ok(
                        Cell::TableLeaf(
                            TableLeafCell { payload_varint, rowid_varint, payload, overflow },
                        ),
                    ),
                    Err(e) => Err(e),
                }
            },
            PageHeaderType::InteriorTable => {
                if buf.len() < 4 {
                    return Err(ParseError::Truncated { expected: 4, got: buf.len() });
                }
                let left_page_number = read_u32_be(buf, 0);
                let window = slice_subrange(buf, 4, buf.len());
                proof {
                    assert(window@ =~= buf@.skip(4));
                }
                let rowid_varint = Varint::new(window);
                Ok(Cell::TableInterior(TableInteriorCell { left_page_number, rowid_varint }))
            },
            PageHeaderType::LeafIndex => {
                let payload_varint = Varint::new(buf);
                proof {
                    lemma_varint_len_bounds(buf@, 9);
                }
                let offset = payload_varint.bytes.len();
                match Self::parse_payload(db_header, false, &payload_varint, buf, offset) {
                    Ok((payload, overflow)) => Ok(
                        Cell::IndexLeaf(IndexLeafCell { payload_varint, payload, overflow }),
                    ),
                    Err(e) => Err(e),
                }
            },
            PageHeaderType::InteriorIndex => {
                if buf.len() < 4 {
                    return Err(ParseError::Truncated { expected: 4, got: buf.len() });
                }
                let left_page_number = read_u32_be(buf, 0);
                let window = slice_subrange(buf, 4, buf.len());
                proof {
                    assert(window@ =~= buf@.skip(4));
                }
                let payload_varint = Varint::new(window);
                proof {
                    lemma_varint_len_bounds(window@, 9);
                }
                let offset = 4 + payload_varint.bytes.len();
                match Self::parse_payload(db_header, false, &payload_varint, buf, offset) {
                    Ok((payload, overflow)) => Ok(
                        Cell::IndexInterior(
                            IndexInteriorCell { left_page_number, payload_varint, payload, overflow },
                        ),
                    ),
                    Err(e) => Err(e),
                }
            },
        }
    }

    /// Computes the on-page portion of a declared payload of `p` bytes:
    /// the overflow-spill formula of the file format.
    fn compute_on_page(leaf_table: bool, u: u32, p: u64) -> (r: u64)
        requires
            u >= 257,
        ensures
            r == on_page_size(leaf_table, u as int, p as int),
            r <= p,
            r < u,
    {
        let u64_: u64 = u as u64;
        let x: u64 = if leaf_table {
            u64_ - 35
        } else {
            (u64_ - 12) * 64 / 255 - 23
        };
        if p <= x {
            p
        } else {
            let m = (u64_ - 12) * 32 / 255 - 23;
            let k = m + (p - m) % (u64_ - 4);
            proof {
                assert(m < u64_);
                assert((p - m) % (u64_ - 4) < u64_ - 4);
                assert(m as int <= ((u as int - 12) * 64 / 255 - 23)) by (nonlinear_arith)
                    requires
                        u >= 257,
                        m == (u as int - 12) * 32 / 255 - 23,
                ;
                assert(m <= x);
                assert(m <= p);
            }
            if k <= x {
                k
            } else {
                m
            }
        }
    }

    /// Builds the overflow unit list of a spilled record: one unit per
    /// column whose captured bytes fall short of its declared size.
    fn overflow_units_of(record: &Record) -> (r: Vec<OverflowUnit>)
        ensures
            r@ == spec_units(codes_of(record.header.datatypes@), record.values@),
    {
        let ghost codes = codes_of(record.header.datatypes@);
        let ghost vals = record.values@;
        let mut units: Vec<OverflowUnit> = Vec::new();
        let mut i: usize = 0;
        let n = record.header.datatypes.len();
        let vn = record.values.len();
        proof {
            assert(codes.skip(0) =~= codes);
            assert(vals.skip(0) =~= vals);
        }
        while i < n
            invariant
                i <= n,
                n == codes.len(),
                vn == vals.len(),
                codes == codes_of(record.header.datatypes@),
                vals == record.values@,
                spec_units(codes, vals) =~= units@ + spec_units(
                    codes.skip(i as int),
                    vals.skip(if i < vn {
                        i as int
                    } else {
                        vn as int
                    }),
                ),
            decreases n - i,
        {
            let ghost pending_codes = codes.skip(i as int);
            let ghost pending_vals = vals.skip(
                if i < vn {
                    i as int
                } else {
                    vn as int
                },
            );
            proof {
                assert(pending_codes[0] == codes[i as int]);
                assert(codes[i as int] == record.header.datatypes@[i as int].value as int);
                if i < vn {
                    assert(pending_vals[0] == vals[i as int]);
                }
            }
            let code = record.header.datatypes[i].value;
            let sz = RecordCode::size(code);
            let col: usize = if i < vn {
                match &record.values[i].bytes {
                    Some(b) => b.len(),
                    None => 0,
                }
            } else {
                0
            };
            if !(i < vn && col == sz) {
                let left: usize = if col <= sz {
                    sz - col
                } else {
                    0
                };
                units.push(OverflowUnit { bytes_left: left, overflow_type: code });
            }
            proof {
                assert(pending_codes.skip(1) =~= codes.skip(i as int + 1));
                if i < vn {
                    assert(pending_vals.skip(1) =~= vals.skip(
                        if i + 1 < vn {
                            i as int + 1
                        } else {
                            vn as int
                        },
                    ));
                }
            }
            i = i + 1;
        }
        proof {
            assert(codes.skip(n as int) =~= Seq::<int>::empty());
            assert(spec_units(codes, vals) =~= units@);
        }
        units
    }

    /// Decodes the payload of a cell: applies the spill formula, reads the
    /// first-overflow-page pointer when the payload spills, decodes the
    /// on-page record prefix, and synthesizes the overflow units.
    fn parse_payload(
        db_header: &DBHeader,
        leaf_table: bool,
        payload_varint: &Varint,
        buf: &[u8],
        offset: usize,
    ) -> (r: Result<(Record, Option<CellOverflow>), ParseError>)
        requires
            page_size_valid_interp(db_header.page_size as int),
            offset <= buf@.len(),
        ensures
            r matches Ok(t) ==> payload_ok(
                db_header.text_encoding,
                db_header.page_size - db_header.reserved_page_space,
                leaf_table,
                payload_varint.value as int,
                buf@,
                offset as int,
                t.0,
                t.1,
            ),
            r is Ok <==> payload_error(
                db_header.text_encoding,
                db_header.page_size - db_header.reserved_page_space,
                leaf_table,
                payload_varint.value as int,
                buf@,
                offset as int,
            ) is None,
            r matches Err(e) ==> Some(e) == payload_error(
                db_header.text_encoding,
                db_header.page_size - db_header.reserved_page_space,
                leaf_table,
                payload_varint.value as int,
                buf@,
                offset as int,
            ),
    {
        let text_encoding = db_header.text_encoding;
        let u = db_header.usable_size();
        if payload_varint.value < 0 {
            return Err(ParseError::InvalidPayloadSize { value: payload_varint.value });
        }
        let p = payload_varint.value as u64;
        let on_page64 = Self::compute_on_page(leaf_table, u, p);
        let on_page = on_page64 as usize;
        if on_page > buf.len() - offset {
            return Err(ParseError::Truncated { expected: on_page, got: buf.len() - offset });
        }
        let end = offset + on_page;
        let spills = p != on_page64;
        let overflow_page: u32 = if spills {
            if buf.len() - end < 4 {
                return Err(ParseError::Truncated { expected: 4, got: buf.len() - end });
            }
            read_u32_be(buf, end)
        } else {
            0
        };
        let window = slice_subrange(buf, offset, end);
        let payload = match Record::parse(text_encoding, window) {
            Ok(rec) => rec,
            Err(e) => {
                return Err(e);
            },
        };
        if !spills {
            return Ok((payload, None));
        }
        let units = Self::overflow_units_of(&payload);
        Ok((payload, Some(CellOverflow { page: overflow_page, units })))
    }
}

/// Unit synthesis loses no bytes: across a record's columns, the bytes
/// captured on the page and the bytes owed by the synthesized units add up
/// to the declared sizes.
pub proof fn lemma_units_conservation(
    enc: TextEncoding,
    codes: Seq<int>,
    rest: Seq<u8>,
    vals: Seq<RecordValue>,
)
    requires
        values_ok(enc, codes, rest, vals),
        rest.len() <= usize::MAX,
    ensures
        sum_units(spec_units(codes, vals)) + sum_captured(vals) == sum_sizes(codes),
    decreases codes.len(),
{
    if codes.len() == 0 {
    } else if rest.len() == 0 && serial_size(codes[0]) != 0 {
        lemma_units_all_owed(codes, vals);
    } else {
        let cap = captured_size(codes[0], rest.len()) as int;
        let sz = clamp_usize(serial_size(codes[0]) as int);
        let col = value_size(vals[0]) as int;
        lemma_units_conservation(enc, codes.skip(1), rest.skip(cap), vals.skip(1));
        let tail = spec_units(codes.skip(1), vals.skip(1));
        if !(col == sz) {
            let u0 = OverflowUnit {
                bytes_left: (if col <= sz {
                    sz - col
                } else {
                    0
                }) as usize,
                overflow_type: codes[0] as i64,
            };
            assert(spec_units(codes, vals) == seq![u0] + tail);
            assert((seq![u0] + tail)[0] == u0);
            assert((seq![u0] + tail).skip(1) =~= tail);
            assert(col <= sz);
        }
    }
}

/// With no values captured at all, the units owe every declared byte.
proof fn lemma_units_all_owed(codes: Seq<int>, vals: Seq<RecordValue>)
    requires
        vals.len() == 0,
    ensures
        sum_units(spec_units(codes, vals)) == sum_sizes(codes),
        sum_captured(vals) == 0,
    decreases codes.len(),
{
    if codes.len() == 0 {
    } else {
        lemma_units_all_owed(codes.skip(1), vals);
        let sz = clamp_usize(serial_size(codes[0]) as int);
        let u0 = OverflowUnit { bytes_left: sz as usize, overflow_type: codes[0] as i64 };
        let tail = spec_units(codes.skip(1), vals);
        assert(spec_units(codes, vals) == seq![u0] + tail);
        assert((seq![u0] + tail)[0] == u0);
        assert((seq![u0] + tail).skip(1) =~= tail);
    }
}

/// A record's columns capture the whole on-page window whenever their
/// declared sizes cover it.
pub proof fn lemma_captured_fills_window(
    enc: TextEncoding,
    codes: Seq<int>,
    rest: Seq<u8>,
    vals: Seq<RecordValue>,
)
    requires
        values_ok(enc, codes, rest, vals),
        sum_sizes(codes) >= rest.len(),
    ensures
        sum_captured(vals) == rest.len(),
    decreases codes.len(),
{
    if codes.len() == 0 {
    } else if rest.len() == 0 && serial_size(codes[0]) != 0 {
    } else {
        let cap = captured_size(codes[0], rest.len()) as int;
        let sz = serial_size(codes[0]) as int;
        assert(sum_sizes(codes) == clamp_usize(sz) + sum_sizes(codes.skip(1)));
        lemma_sum_sizes_nonneg(codes.skip(1));
        if cap < rest.len() {
            assert(cap == sz);
            assert(clamp_usize(sz) <= sz);
        }
        lemma_captured_fills_window(enc, codes.skip(1), rest.skip(cap), vals.skip(1));
    }
}

/// Declared sizes are never negative, so neither is their sum.
proof fn lemma_sum_sizes_nonneg(codes: Seq<int>)
    ensures
        sum_sizes(codes) >= 0,
    decreases codes.len(),
{
    if codes.len() > 0 {
        lemma_sum_sizes_nonneg(codes.skip(1));
    }
}

/// For every spilled record, the bytes kept on the page and the bytes owed
/// by its overflow units add up to the declared payload size: with header
/// bytes `hl`, a declared payload `p == hl + sum_sizes(codes)`, and an
/// on-page window too small for the declared sizes, the window plus the
/// unit deficits reconstitute `p` exactly.
pub proof fn lemma_spill_conservation(
    enc: TextEncoding,
    codes: Seq<int>,
    rest: Seq<u8>,
    vals: Seq<RecordValue>,
    hl: int,
    p: int,
)
    requires
        values_ok(enc, codes, rest, vals),
        rest.len() <= usize::MAX,
        p == hl + sum_sizes(codes),
        sum_sizes(codes) >= rest.len(),
    ensures
        hl + rest.len() + sum_units(spec_units(codes, vals)) == p,
{
    lemma_units_conservation(enc, codes, rest, vals);
    lemma_captured_fills_window(enc, codes, rest, vals);
}

} // verus!
