//! Overflow pages: when a cell payload exceeds its on-page capacity, the
//! balance is stored in a linked list of overflow pages. The first four
//! bytes of each page are the next page number (0 ends the chain); the
//! rest holds payload bytes, split greedily across the pending units.

use vstd::prelude::*;
use vstd::slice::slice_subrange;
use crate::ParseError;
use crate::bytes::{be32, read_u32_be, copy_range};
use crate::header::TextEncoding;
use crate::record::{RecordValue, record_value_ok, record_value_error};

verus! {

/// One column's claim on the overflow chain: its serial type and how many
/// of its bytes are still owed.
#[derive(Debug, Clone, Copy, PartialEq, Eq)]
pub struct OverflowUnit {
    pub bytes_left: usize,
    pub overflow_type: i64,
}

/// One cut of overflow content: the bytes taken for a unit on one page and
/// the typed value those bytes decode to.
#[derive(Debug, Clone, PartialEq)]
pub struct OverflowData {
    pub bytes: Vec<u8>,
    pub value: RecordValue,
}

/// The bytes still owed across a list of units.
pub open spec fn sum_units(units: Seq<OverflowUnit>) -> int
    decreases units.len(),
{
    if units.len() == 0 {
        0
    } else {
        units[0].bytes_left + sum_units(units.skip(1))
    }
}

/// The bytes captured across a list of data cuts.
pub open spec fn sum_data(data: Seq<OverflowData>) -> int
    decreases data.len(),
{
    if data.len() == 0 {
        0
    } else {
        data[0].bytes@.len() + sum_data(data.skip(1))
    }
}

/// The relation between pending units, the payload bytes of one overflow
/// page, the data cuts taken from it, and the units left over for the next
/// page: units are peeled greedily, one cut each, until the bytes or the
/// units run out; a partially satisfied unit heads the leftover list.
pub open spec fn overflow_data_ok(
    enc: TextEncoding,
    units: Seq<OverflowUnit>,
    rest: Seq<u8>,
    data: Seq<OverflowData>,
    leftover: Seq<OverflowUnit>,
) -> bool
    decreases units.len(),
{
    if units.len() == 0 || rest.len() == 0 {
        data.len() == 0 && leftover == units
    } else {
        let u0 = units[0];
        let c: int = if u0.bytes_left < rest.len() {
            u0.bytes_left as int
        } else {
            rest.len() as int
        };
        &&& data.len() >= 1
        &&& data[0].bytes@ == rest.take(c)
        &&& record_value_ok(u0.overflow_type as int, enc, rest.take(c), data[0].value)
        &&& if u0.bytes_left > c {
            data.len() == 1 && leftover =~= seq![
                OverflowUnit {
                    bytes_left: (u0.bytes_left - c) as usize,
                    overflow_type: u0.overflow_type,
                },
            ] + units.skip(1)
        } else {
            overflow_data_ok(enc, units.skip(1), rest.skip(c), data.skip(1), leftover)
        }
    }
}

/// The failure splitting one page's payload across the units meets, if
/// any: a cut whose bytes do not decode under its unit's serial type.
pub open spec fn overflow_data_error(enc: TextEncoding, units: Seq<OverflowUnit>, rest: Seq<u8>)
    -> Option<ParseError>
    decreases units.len(),
{
    if units.len() == 0 || rest.len() == 0 {
        None
    } else {
        let u0 = units[0];
        let c: int = if u0.bytes_left < rest.len() {
            u0.bytes_left as int
        } else {
            rest.len() as int
        };
        if record_value_error(u0.overflow_type as int, enc, rest.take(c)) is Some {
            record_value_error(u0.overflow_type as int, enc, rest.take(c))
        } else if u0.bytes_left > c {
            None
        } else {
            overflow_data_error(enc, units.skip(1), rest.skip(c))
        }
    }
}

/// The units left unsatisfied after one page's payload bytes are split
/// greedily across `units`: the head unit is reduced by what the page
/// holds, satisfied units are dropped, untouched units stay.
pub open spec fn leftover_of(units: Seq<OverflowUnit>, rest: Seq<u8>) -> Seq<OverflowUnit>
    decreases units.len(),
{
    if units.len() == 0 || rest.len() == 0 {
        units
    } else {
        let u0 = units[0];
        let c: int = if u0.bytes_left < rest.len() {
            u0.bytes_left as int
        } else {
            rest.len() as int
        };
        if u0.bytes_left > c {
            seq![
                OverflowUnit {
                    bytes_left: (u0.bytes_left - c) as usize,
                    overflow_type: u0.overflow_type,
                },
            ] + units.skip(1)
        } else {
            leftover_of(units.skip(1), rest.skip(c))
        }
    }
}

/// The leftover units of a decoded page are a function of the pending
/// units and the payload bytes alone.
pub proof fn lemma_leftover_determined(
    enc: crate::header::TextEncoding,
    units: Seq<OverflowUnit>,
    rest: Seq<u8>,
    data: Seq<OverflowData>,
    leftover: Seq<OverflowUnit>,
)
    requires
        overflow_data_ok(enc, units, rest, data, leftover),
    ensures
        leftover == leftover_of(units, rest),
    decreases units.len(),
{
    if units.len() == 0 || rest.len() == 0 {
    } else {
        let u0 = units[0];
        let c: int = if u0.bytes_left < rest.len() {
            u0.bytes_left as int
        } else {
            rest.len() as int
        };
        if u0.bytes_left > c {
        } else {
            lemma_leftover_determined(enc, units.skip(1), rest.skip(c), data.skip(1), leftover);
        }
    }
}

/// A decoded overflow page.
#[derive(Debug, Clone, PartialEq)]
pub struct OverflowPage {
    /// The units still unsatisfied after this page.
    pub overflow_units: Vec<OverflowUnit>,
    /// The next page of the chain; 0 ends the chain.
    pub next_page: u32,
    /// The cuts taken from this page, in unit order.
    pub data: Vec<OverflowData>,
    /// Payload bytes beyond the last cut, if any.
    pub unallocated: Option<Vec<u8>>,
}

impl OverflowPage {
    /// Builds an overflow page from already decoded parts.
    pub fn new(
        overflow_units: Vec<OverflowUnit>,
        next_page: u32,
        data: Vec<OverflowData>,
        unallocated: Option<Vec<u8>>,
    ) -> (r: OverflowPage)
        ensures
            r.overflow_units == overflow_units,
            r.next_page == next_page,
            r.data == data,
            r.unallocated == unallocated,
    {
        OverflowPage { overflow_units, next_page, data, unallocated }
    }

    /// Decodes one overflow page: the 4-byte next-page pointer, then the
    /// payload bytes split greedily across the pending `overflow_units`.
    pub fn parse(
        text_encoding: TextEncoding,
        overflow_units: Vec<OverflowUnit>,
        buf: &[u8],
    ) -> (r: Result<OverflowPage, ParseError>)
        ensures
            r matches Ok(p) ==> {
                &&& p.next_page == be32(buf@, 0)
                &&& overflow_data_ok(
                    text_encoding,
                    overflow_units@,
                    buf@.skip(4),
                    p.data@,
                    p.overflow_units@,
                )
                &&& sum_data(p.data@) + sum_units(p.overflow_units@) == sum_units(overflow_units@)
                &&& 0 <= sum_data(p.data@) <= buf@.len() - 4
                &&& p.unallocated matches Some(u) ==> u@ == buf@.skip(4 + sum_data(p.data@))
                    && u@.len() > 0
                &&& p.unallocated is None ==> sum_data(p.data@) == buf@.len() - 4
            },
            r is Ok <==> buf@.len() >= 4 && overflow_data_error(
                text_encoding,
                overflow_units@,
                buf@.skip(4),
            ) is None,
            r matches Err(e) ==> Some(e) == (if buf@.len() < 4 {
                Some(ParseError::Truncated { expected: 4, got: buf@.len() as usize })
            } else {
                overflow_data_error(text_encoding, overflow_units@, buf@.skip(4))
            }),
    {
        if buf.len() < 4 {
            return Err(ParseError::Truncated { expected: 4, got: buf.len() });
        }
        let next_page = read_u32_be(buf, 0);
        proof {
            assert(overflow_units@.skip(0) =~= overflow_units@);
        }
        let (data, leftover, end) = match Self::parse_units(
            text_encoding,
            &overflow_units,
            0,
            buf,
            4,
        ) {
            Ok(t) => t,
            Err(e) => {
                return Err(e);
            },
        };
        let unallocated = if end == buf.len() {
            None
        } else {
            Some(copy_range(buf, end, buf.len() - end))
        };
        proof {
            if end < buf@.len() {
                assert(buf@.subrange(end as int, end as int + (buf@.len() - end as int))
                    =~= buf@.skip(4 + sum_data(data@)));
            }
        }
        Ok(OverflowPage { overflow_units: leftover, next_page, data, unallocated })
    }

    /// Peels the units from `units[i..]` off the payload bytes
    /// `buf[off..]`, one cut per unit, and returns the cuts, the leftover
    /// units, and the offset just past the consumed bytes.
    fn parse_units(
        enc: TextEncoding,
        units: &Vec<OverflowUnit>,
        i: usize,
        buf: &[u8],
        off: usize,
    ) -> (r: Result<(Vec<OverflowData>, Vec<OverflowUnit>, usize), ParseError>)
        requires
            i <= units@.len(),
            4 <= off <= buf@.len(),
        ensures
            r matches Ok(t) ==> {
                &&& overflow_data_ok(enc, units@.skip(i as int), buf@.skip(off as int), t.0@, t.1@)
                &&& sum_data(t.0@) + sum_units(t.1@) == sum_units(units@.skip(i as int))
                &&& t.2 == off + sum_data(t.0@)
                &&& off <= t.2 <= buf@.len()
            },
            r is Ok <==> overflow_data_error(enc, units@.skip(i as int), buf@.skip(off as int))
                is None,
            r matches Err(e) ==> Some(e) == overflow_data_error(
                enc,
                units@.skip(i as int),
                buf@.skip(off as int),
            ),
        decreases units@.len() - i,
    {
        let ghost pending = units@.skip(i as int);
        let ghost rest = buf@.skip(off as int);
        if i == units.len() || off == buf.len() {
            let leftover = Self::units_suffix(units, i);
            return Ok((Vec::new(), leftover, off));
        }
        proof {
            assert(pending[0] == units@[i as int]);
        }
        let unit = units[i];
        let avail = buf.len() - off;
        let c = if unit.bytes_left < avail {
            unit.bytes_left
        } else {
            avail
        };
        let piece = copy_range(buf, off, c);
        let window = slice_subrange(buf, off, off + c);
        let value = match RecordValue::new(unit.overflow_type, enc, window) {
            Ok(v) => v,
            Err(e) => {
                proof {
                    assert(rest.take(c as int) =~= buf@.subrange(off as int, off as int + c as int));
                }
                return Err(e);
            },
        };
        proof {
            assert(rest.take(c as int) =~= buf@.subrange(off as int, off as int + c as int));
        }
        let cut = OverflowData { bytes: piece, value };
        if unit.bytes_left > c {
            // The page is exhausted with this unit still owed bytes: it
            // continues, reduced, at the head of the leftover list.
            let mut leftover: Vec<OverflowUnit> = Vec::new();
            leftover.push(
                OverflowUnit {
                    bytes_left: unit.bytes_left - c,
                    overflow_type: unit.overflow_type,
                },
            );
            let mut tail = Self::units_suffix(units, i + 1);
            leftover.append(&mut tail);
            let mut data: Vec<OverflowData> = Vec::new();
            data.push(cut);
            proof {
                assert(data@ =~= seq![cut]);
                assert(data@.skip(1) =~= Seq::<OverflowData>::empty());
                assert(sum_data(data@.skip(1)) == 0);
                assert(data@[0].bytes@.len() == c as int);
                assert(sum_data(data@) == c);
                assert(leftover@ =~= seq![
                    OverflowUnit {
                        bytes_left: (unit.bytes_left - c) as usize,
                        overflow_type: unit.overflow_type,
                    },
                ] + units@.skip(i as int + 1));
                assert(pending.skip(1) =~= units@.skip(i as int + 1));
                assert(leftover@.skip(1) =~= units@.skip(i as int + 1));
                assert(sum_units(leftover@) == (unit.bytes_left - c) + sum_units(
                    units@.skip(i as int + 1),
                ));
                assert(sum_units(pending) == unit.bytes_left + sum_units(pending.skip(1)));
            }
            return Ok((data, leftover, off + c));
        }
        proof {
            assert(pending.skip(1) =~= units@.skip(i as int + 1));
            assert(rest.skip(c as int) =~= buf@.skip(off as int + c as int));
        }
        let (mut tail_data, leftover, end) = match Self::parse_units(enc, units, i + 1, buf, off + c) {
            Ok(t) => t,
            Err(e) => {
                return Err(e);
            },
        };
        let ghost old_tail = tail_data@;
        tail_data.insert(0, cut);
        proof {
            assert(tail_data@.skip(1) =~= old_tail);
            assert(tail_data@[0] == cut);
            assert(sum_data(tail_data@) == c + sum_data(old_tail));
            assert(sum_units(pending) == unit.bytes_left + sum_units(pending.skip(1)));
        }
        Ok((tail_data, leftover, end))
    }

    /// Copies the tail `units[i..]` into a fresh vector.
    pub fn units_suffix(units: &Vec<OverflowUnit>, i: usize) -> (r: Vec<OverflowUnit>)
        requires
            i <= units@.len(),
        ensures
            r@ == units@.skip(i as int),
    {
        let mut out: Vec<OverflowUnit> = Vec::new();
        let mut j: usize = i;
        while j < units.len()
            invariant
                i <= j <= units@.len(),
                out@ == units@.subrange(i as int, j as int),
            decreases units@.len() - j,
        {
            out.push(units[j]);
            proof {
                assert(out@ =~= units@.subrange(i as int, j as int + 1));
            }
            j = j + 1;
        }
        proof {
            assert(out@ =~= units@.skip(i as int));
        }
        out
    }
}

} // verus!
