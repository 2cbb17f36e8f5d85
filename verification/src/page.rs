//! B-tree pages: the page header, the cell-pointer array, the unallocated
//! region and the cells.

use vstd::prelude::*;
use vstd::slice::slice_subrange;
use crate::ParseError;
use crate::bytes::{be16, be32, read_u16_be, read_u32_be, copy_range};
use crate::cell::{Cell, cell_ok, cell_error};
use crate::header::{DBHeader, header_eq, page_size_valid_interp};

verus! {

/// The byte size of one entry of the cell-pointer array.
pub const CELL_PTR_SIZE: usize = 2;

/// The full page-header size; leaves lack the trailing right-most pointer.
pub const PAGE_HEADER_SIZE: usize = 12;

/// The size of the right-most child pointer of interior pages.
pub const PAGE_RIGHT_PTR_SIZE: usize = 4;

/// The four b-tree page kinds, tagged by the byte at page offset 0.
#[derive(Debug, Clone, Copy, PartialEq, Eq, Structural)]
pub enum PageHeaderType {
    InteriorIndex,
    LeafIndex,
    InteriorTable,
    LeafTable,
}

/// The tag byte of a page type.
pub open spec fn page_type_code(t: PageHeaderType) -> int {
    match t {
        PageHeaderType::InteriorIndex => 2,
        PageHeaderType::InteriorTable => 5,
        PageHeaderType::LeafIndex => 10,
        PageHeaderType::LeafTable => 13,
    }
}

/// Whether a page type is interior (carries a right-most child pointer).
pub open spec fn is_interior_spec(t: PageHeaderType) -> bool {
    t == PageHeaderType::InteriorIndex || t == PageHeaderType::InteriorTable
}

/// The stored page-header size of a page type: 12 for interior pages, 8
/// for leaves.
pub open spec fn page_header_size_spec(t: PageHeaderType) -> int {
    if is_interior_spec(t) {
        12
    } else {
        8
    }
}

impl PageHeaderType {
    /// Whether the page carries a right-most child pointer.
    pub fn is_interior(&self) -> (r: bool)
        ensures
            r == is_interior_spec(*self),
    {
        matches!(self, PageHeaderType::InteriorIndex | PageHeaderType::InteriorTable)
    }

    /// The tag byte of the page type, as stored at page offset 0.
    pub fn to_be_bytes(&self) -> (r: [u8; 1])
        ensures
            r@ =~= seq![page_type_code(*self) as u8],
    {
        match self {
            PageHeaderType::InteriorIndex => [2],
            PageHeaderType::InteriorTable => [5],
            PageHeaderType::LeafIndex => [10],
            PageHeaderType::LeafTable => [13],
        }
    }

    /// Decodes the tag byte: 2, 5, 10 and 13 name the four page kinds, and
    /// any other byte is a fatal decoding error for the page.
    pub fn parse(byte: u8) -> (r: Result<PageHeaderType, ParseError>)
        ensures
            r is Ok <==> (byte == 2 || byte == 5 || byte == 10 || byte == 13),
            r matches Ok(t) ==> page_type_code(t) == byte,
            r matches Err(e) ==> e == (ParseError::UnknownPageType { value: byte }),
    {
        match byte {
            2 => Ok(PageHeaderType::InteriorIndex),
            5 => Ok(PageHeaderType::InteriorTable),
            10 => Ok(PageHeaderType::LeafIndex),
            13 => Ok(PageHeaderType::LeafTable),
            _ => Err(ParseError::UnknownPageType { value: byte }),
        }
    }
}

/// The decoded page header.
#[derive(Debug, Clone, PartialEq)]
pub struct PageHeader {
    /// The page kind, from the byte at offset 0.
    pub page_type: PageHeaderType,
    /// Offset of the first freeblock, `None` when the stored field is 0.
    pub free_block_offset: Option<u16>,
    /// Number of cells on the page.
    pub cell_num: u16,
    /// Start of the cell-content area; the stored 0 means 65536.
    pub cell_start_offset: u32,
    /// Number of fragmented free bytes within the content area.
    pub fragmented_free_bytes: u8,
    /// The right-most child pointer; present exactly on interior pages.
    pub page_num: Option<u32>,
    /// The stored size of this header: 12 for interior pages, 8 for leaves.
    pub size: usize,
}

/// The relation between the bytes at the start of a page window (after the
/// database header on page 1) and the decoded page header.
pub open spec fn page_header_ok(s: Seq<u8>, h: PageHeader) -> bool {
    &&& page_type_code(h.page_type) == s[0]
    &&& h.free_block_offset == (if be16(s, 1) == 0 {
        None::<u16>
    } else {
        Some(be16(s, 1) as u16)
    })
    &&& h.cell_num == be16(s, 3)
    &&& h.cell_start_offset == (if be16(s, 5) == 0 {
        65536
    } else {
        be16(s, 5)
    })
    &&& h.fragmented_free_bytes == s[7]
    &&& h.page_num == (if is_interior_spec(h.page_type) {
        Some(be32(s, 8) as u32)
    } else {
        None::<u32>
    })
    &&& h.size == page_header_size_spec(h.page_type)
}

/// The failure a page-header decode meets, if any: too few bytes for the
/// fixed fields, an unknown type byte, or too few bytes for the right-most
/// pointer of an interior page.
pub open spec fn page_header_error(s: Seq<u8>) -> Option<ParseError> {
    if s.len() < 8 {
        Some(ParseError::Truncated { expected: 8, got: s.len() as usize })
    } else if !(s[0] == 2 || s[0] == 5 || s[0] == 10 || s[0] == 13) {
        Some(ParseError::UnknownPageType { value: s[0] })
    } else if (s[0] == 2 || s[0] == 5) && s.len() < 12 {
        Some(ParseError::Truncated { expected: 12, got: s.len() as usize })
    } else {
        None
    }
}

impl PageHeader {
    /// Builds a page header from its fields; the stored size follows from
    /// the page type.
    pub fn new(
        page_type: PageHeaderType,
        free_block_offset: Option<u16>,
        cell_num: u16,
        cell_start_offset: u32,
        fragmented_free_bytes: u8,
        page_num: Option<u32>,
    ) -> (r: PageHeader)
        ensures
            r.page_type == page_type,
            r.free_block_offset == free_block_offset,
            r.cell_num == cell_num,
            r.cell_start_offset == cell_start_offset,
            r.fragmented_free_bytes == fragmented_free_bytes,
            r.page_num == page_num,
            r.size == page_header_size_spec(page_type),
    {
        let size = if page_type.is_interior() {
            PAGE_HEADER_SIZE
        } else {
            PAGE_HEADER_SIZE - PAGE_RIGHT_PTR_SIZE
        };
        PageHeader {
            page_type,
            free_block_offset,
            cell_num,
            cell_start_offset,
            fragmented_free_bytes,
            page_num,
            size,
        }
    }

    /// Decodes the page header from the front of `buf`.
    pub fn parse(buf: &[u8]) -> (r: Result<PageHeader, ParseError>)
        ensures
            r matches Ok(h) ==> page_header_ok(buf@, h),
            r is Ok <==> page_header_error(buf@) is None,
            r matches Err(e) ==> Some(e) == page_header_error(buf@),
    {
        if buf.len() < 8 {
            return Err(ParseError::Truncated { expected: 8, got: buf.len() });
        }
        let page_type = match PageHeaderType::parse(buf[0]) {
            Ok(t) => t,
            Err(e) => {
                return Err(e);
            },
        };
        let page_num: Option<u32> = if page_type.is_interior() {
            if buf.len() < 12 {
                return Err(ParseError::Truncated { expected: 12, got: buf.len() });
            }
            Some(read_u32_be(buf, 8))
        } else {
            None
        };
        let raw_free_block = read_u16_be(buf, 1);
        let free_block_offset = if raw_free_block == 0 {
            None
        } else {
            Some(raw_free_block)
        };
        let raw_cell_start = read_u16_be(buf, 5);
        let cell_start_offset: u32 = if raw_cell_start == 0 {
            65536
        } else {
            raw_cell_start as u32
        };
        Ok(
            PageHeader::new(
                page_type,
                free_block_offset,
                read_u16_be(buf, 3),
                cell_start_offset,
                buf[7],
                page_num,
            ),
        )
    }
}

/// A stored cell pointer, reinterpreted: the stored 0 means 65536.
pub open spec fn ptr_decode(v: int) -> int {
    if v == 0 {
        65536
    } else {
        v
    }
}

/// The decoded cell-pointer array: `cell_num` big-endian 16-bit offsets
/// into the page, in key order.
#[derive(Debug, Clone, PartialEq)]
pub struct CellPointer {
    pub array: Vec<u32>,
}

impl CellPointer {
    /// Builds a cell-pointer array from already decoded offsets.
    pub fn new(array: Vec<u32>) -> (r: CellPointer)
        ensures
            r.array == array,
    {
        CellPointer { array }
    }

    /// Decodes the cell-pointer array from `buf`, two bytes per pointer;
    /// the stored 0 is reinterpreted as 65536.
    pub fn parse(buf: &[u8]) -> (r: CellPointer)
        ensures
            r.array@.len() == buf@.len() / 2,
            forall|i: int|
                0 <= i < r.array@.len() ==> #[trigger] r.array@[i] == ptr_decode(be16(buf@, 2 * i)),
    {
        let n = buf.len();
        let count = n / CELL_PTR_SIZE;
        let mut array: Vec<u32> = Vec::new();
        let mut i: usize = 0;
        while i < count
            invariant
                i <= count,
                n == buf@.len(),
                count == buf@.len() / 2,
                array@.len() == i,
                forall|j: int|
                    0 <= j < i ==> #[trigger] array@[j] == ptr_decode(be16(buf@, 2 * j)),
            decreases count - i,
        {
            proof {
                vstd::arithmetic::div_mod::lemma_fundamental_div_mod(buf@.len() as int, 2);
                assert(2 * (buf@.len() / 2) <= buf@.len());
            }
            let raw = read_u16_be(buf, i * CELL_PTR_SIZE);
            let decoded: u32 = if raw == 0 {
                65536
            } else {
                raw as u32
            };
            array.push(decoded);
            i = i + 1;
        }
        CellPointer::new(array)
    }
}

/// The decoded pointer array is non-increasing: cells grow from the end of
/// the page toward the front.
pub open spec fn ptrs_non_increasing(a: Seq<u32>) -> bool {
    forall|i: int, j: int| 0 <= i <= j < a.len() ==> #[trigger] a[i] >= #[trigger] a[j]
}

impl CellPointer {
    /// Whether the decoded offsets are in non-increasing order, as they
    /// are on well-formed pages.
    pub fn is_non_increasing(&self) -> (r: bool)
        ensures
            r == ptrs_non_increasing(self.array@),
    {
        let mut i: usize = 1;
        while i < self.array.len()
            invariant
                1 <= i,
                forall|p: int, q: int|
                    0 <= p <= q < i && q < self.array@.len() ==> #[trigger] self.array@[p]
                        >= #[trigger] self.array@[q],
            decreases self.array@.len() - i,
        {
            if self.array[i - 1] < self.array[i] {
                return false;
            }
            i = i + 1;
        }
        true
    }
}

/// On a well-formed page the stored pointers, read under the 65536
/// reinterpretation, are ordered; the decoded array then is too: decoding
/// keeps the order of the raw fields.
pub proof fn lemma_ptr_decode_order(region: Seq<u8>, c: CellPointer)
    requires
        c.array@.len() == region.len() / 2,
        forall|i: int|
            0 <= i < c.array@.len() ==> #[trigger] c.array@[i] == ptr_decode(be16(region, 2 * i)),
        forall|i: int, j: int|
            0 <= i <= j < region.len() / 2 ==> #[trigger] ptr_decode(be16(region, 2 * i))
                >= #[trigger] ptr_decode(be16(region, 2 * j)),
    ensures
        ptrs_non_increasing(c.array@),
{
    assert forall|i: int, j: int| 0 <= i <= j < c.array@.len() implies #[trigger] c.array@[i]
        >= #[trigger] c.array@[j] by {
        assert(ptr_decode(be16(region, 2 * i)) >= ptr_decode(be16(region, 2 * j)));
    }
}

/// The byte offset of a page's b-tree header inside its window: page 1
/// carries the database header first.
pub open spec fn page_start(page_num: int) -> int {
    if page_num == 1 {
        100
    } else {
        0
    }
}

/// The relation between a page window and the decoded cells, one per
/// decoded cell pointer, each decoded from its offset into the window.
pub open spec fn cells_ok(
    pt: PageHeaderType,
    enc: crate::header::TextEncoding,
    u: int,
    s: Seq<u8>,
    ptrs: Seq<u32>,
    cells: Seq<Cell>,
) -> bool {
    &&& cells.len() == ptrs.len()
    &&& forall|i: int|
        0 <= i < ptrs.len() ==> cell_ok(pt, enc, u, s.skip(#[trigger] ptrs[i] as int), #[trigger] cells[i])
}

/// The first failure decoding the cells meets, if any: a pointer past the
/// end of the window, or a cell that does not decode.
pub open spec fn cells_error(
    pt: PageHeaderType,
    enc: crate::header::TextEncoding,
    u: int,
    s: Seq<u8>,
    ptrs: Seq<u32>,
) -> Option<ParseError>
    decreases ptrs.len(),
{
    if ptrs.len() == 0 {
        None
    } else if ptrs[0] > s.len() {
        Some(ParseError::Truncated { expected: ptrs[0] as usize, got: s.len() as usize })
    } else if cell_error(pt, enc, u, s.skip(ptrs[0] as int)) is Some {
        cell_error(pt, enc, u, s.skip(ptrs[0] as int))
    } else {
        cells_error(pt, enc, u, s, ptrs.skip(1))
    }
}

/// A decoded b-tree page: its number, its own copy of the database
/// header, the page header, the cell-pointer array, the unallocated
/// region, and the cells in pointer order.
#[derive(Debug, Clone, PartialEq)]
pub struct Page {
    pub id: usize,
    pub db_header: DBHeader,
    pub page_header: PageHeader,
    pub cell_pointer: CellPointer,
    pub unallocated: Vec<u8>,
    pub cells: Vec<Cell>,
}

/// The relation between a page window `s` of page `page_num` and the
/// decoded page, for a database header with usable size `u`.
pub open spec fn page_ok(h: DBHeader, page_num: int, s: Seq<u8>, pg: Page) -> bool {
    let start = page_start(page_num);
    let w = s.skip(start);
    let hsize = page_header_size_spec(pg.page_header.page_type);
    let ptr_base = start + hsize;
    let unalloc_start = ptr_base + 2 * pg.page_header.cell_num;
    &&& pg.id == page_num
    &&& header_eq(pg.db_header, h)
    &&& page_header_ok(w, pg.page_header)
    &&& pg.cell_pointer.array@.len() == pg.page_header.cell_num
    &&& forall|i: int|
        0 <= i < pg.cell_pointer.array@.len() ==> #[trigger] pg.cell_pointer.array@[i]
            == ptr_decode(be16(s, ptr_base + 2 * i))
    &&& pg.unallocated@ == s.subrange(unalloc_start, pg.page_header.cell_start_offset as int)
    &&& cells_ok(
        pg.page_header.page_type,
        h.text_encoding,
        h.page_size - h.reserved_page_space,
        s,
        pg.cell_pointer.array@,
        pg.cells@,
    )
}

/// The first failure decoding a page meets, if any.
pub open spec fn page_error(h: DBHeader, page_num: int, s: Seq<u8>) -> Option<ParseError> {
    let start = page_start(page_num);
    let w = s.skip(start);
    if s.len() < start {
        Some(ParseError::Truncated { expected: start as usize, got: s.len() as usize })
    } else if page_header_error(w) is Some {
        page_header_error(w)
    } else {
        let hsize = if w[0] == 2 || w[0] == 5 {
            12int
        } else {
            8int
        };
        let cell_num = be16(w, 3);
        let cell_start: int = if be16(w, 5) == 0 {
            65536
        } else {
            be16(w, 5)
        };
        let unalloc_start = start + hsize + 2 * cell_num;
        if unalloc_start > s.len() {
            Some(
                ParseError::Truncated {
                    expected: unalloc_start as usize,
                    got: s.len() as usize,
                },
            )
        } else if cell_start < unalloc_start || cell_start > s.len() {
            Some(
                ParseError::Truncated {
                    expected: cell_start as usize,
                    got: s.len() as usize,
                },
            )
        } else {
            cells_error(
                page_type_of(w[0]),
                h.text_encoding,
                h.page_size - h.reserved_page_space,
                s,
                Seq::new(cell_num as nat, |i: int| ptr_decode(be16(s, start + hsize + 2 * i)) as u32),
            )
        }
    }
}

/// The page type named by a valid tag byte.
pub open spec fn page_type_of(byte: u8) -> PageHeaderType {
    if byte == 2 {
        PageHeaderType::InteriorIndex
    } else if byte == 5 {
        PageHeaderType::InteriorTable
    } else if byte == 10 {
        PageHeaderType::LeafIndex
    } else {
        PageHeaderType::LeafTable
    }
}

impl Page {
    /// Builds a page from already decoded parts.
    pub fn new(
        id: usize,
        db_header: DBHeader,
        page_header: PageHeader,
        cell_pointer: CellPointer,
        unallocated: Vec<u8>,
        cells: Vec<Cell>,
    ) -> (r: Page)
        ensures
            r == (Page { id, db_header, page_header, cell_pointer, unallocated, cells }),
    {
        Page { id, db_header, page_header, cell_pointer, unallocated, cells }
    }

    /// Decodes one b-tree page from its window: the page header (after the
    /// database header on page 1), the cell-pointer array, the unallocated
    /// region up to the cell-content start, and one cell per pointer.
    ///
    /// On success the page accounts for its whole window: page header,
    /// pointer array, unallocated region and cell-content area partition
    /// the window after the page's start.
    #[verifier::rlimit(100)]
    pub fn parse(db_header: &DBHeader, page_num: usize, buf: &[u8]) -> (r: Result<
        Page,
        ParseError,
    >)
        requires
            page_size_valid_interp(db_header.page_size as int),
        ensures
            r matches Ok(pg) ==> page_ok(*db_header, page_num as int, buf@, pg),
            r matches Ok(pg) ==> page_header_size_spec(pg.page_header.page_type) + 2
                * pg.page_header.cell_num + pg.unallocated@.len() + (buf@.len()
                - pg.page_header.cell_start_offset) == buf@.len() - page_start(page_num as int),
            r is Ok <==> page_error(*db_header, page_num as int, buf@) is None,
            r matches Err(e) ==> Some(e) == page_error(*db_header, page_num as int, buf@),
    {
        let start: usize = if page_num == 1 {
            100
        } else {
            0
        };
        if buf.len() < start {
            return Err(ParseError::Truncated { expected: start, got: buf.len() });
        }
        let window = slice_subrange(buf, start, buf.len());
        proof {
            assert(window@ =~= buf@.skip(start as int));
        }
        let page_header = match PageHeader::parse(window) {
            Ok(h) => h,
            Err(e) => {
                return Err(e);
            },
        };
        proof {
            assert(page_header.size as int == (if window@[0] == 2 || window@[0] == 5 {
                12int
            } else {
                8int
            }));
        }

        // -- The cell-pointer array.
        let ptrs_size = (page_header.cell_num as usize) * CELL_PTR_SIZE;
        let ptr_base = start + page_header.size;
        if ptrs_size > buf.len() - ptr_base {
            return Err(
                ParseError::Truncated { expected: ptr_base + ptrs_size, got: buf.len() },
            );
        }
        let ptr_region = slice_subrange(buf, ptr_base, ptr_base + ptrs_size);
        let cell_pointer = CellPointer::parse(ptr_region);
        proof {
            assert(ptr_region@ =~= buf@.subrange(ptr_base as int, ptr_base as int + ptrs_size as int));
            assert forall|i: int| 0 <= i < cell_pointer.array@.len() implies #[trigger] cell_pointer.array@[
                i
            ] == ptr_decode(be16(buf@, ptr_base + 2 * i)) by {
                assert(be16(ptr_region@, 2 * i) == be16(buf@, ptr_base + 2 * i));
            }
        }

        // -- The unallocated region.
        let unalloc_start = ptr_base + ptrs_size;
        let cell_start = page_header.cell_start_offset as usize;
        if cell_start < unalloc_start || cell_start > buf.len() {
            return Err(ParseError::Truncated { expected: cell_start, got: buf.len() });
        }
        let unallocated = copy_range(buf, unalloc_start, cell_start - unalloc_start);

        // -- The cells, one per pointer.
        proof {
            assert(cell_pointer.array@ =~= Seq::new(
                page_header.cell_num as nat,
                |i: int| ptr_decode(be16(buf@, start + page_header.size + 2 * i)) as u32,
            ));
        }
        let cells = match Self::parse_cells(page_header.page_type, db_header, buf, &cell_pointer) {
            Ok(cs) => cs,
            Err(e) => {
                return Err(e);
            },
        };

        Ok(
            Page {
                id: page_num,
                db_header: db_header.duplicate(),
                page_header,
                cell_pointer,
                unallocated,
                cells,
            },
        )
    }

    /// Decodes one cell per decoded pointer, each from its offset into the
    /// page window.
    fn parse_cells(
        page_type: PageHeaderType,
        db_header: &DBHeader,
        buf: &[u8],
        cell_pointer: &CellPointer,
    ) -> (r: Result<Vec<Cell>, ParseError>)
        requires
            page_size_valid_interp(db_header.page_size as int),
        ensures
            r matches Ok(cs) ==> cells_ok(
                page_type,
                db_header.text_encoding,
                db_header.page_size - db_header.reserved_page_space,
                buf@,
                cell_pointer.array@,
                cs@,
            ),
            r is Ok <==> cells_error(
                page_type,
                db_header.text_encoding,
                db_header.page_size - db_header.reserved_page_space,
                buf@,
                cell_pointer.array@,
            ) is None,
            r matches Err(e) ==> Some(e) == cells_error(
                page_type,
                db_header.text_encoding,
                db_header.page_size - db_header.reserved_page_space,
                buf@,
                cell_pointer.array@,
            ),
    {
        let ghost ptrs = cell_pointer.array@;
        let mut cells: Vec<Cell> = Vec::new();
        let mut i: usize = 0;
        proof {
            assert(ptrs.skip(0) =~= ptrs);
        }
        while i < cell_pointer.array.len()
            invariant
                i <= ptrs.len(),
                cell_pointer.array@ == ptrs,
                cells@.len() == i,
                page_size_valid_interp(db_header.page_size as int),
                forall|j: int|
                    0 <= j < i ==> cell_ok(
                        page_type,
                        db_header.text_encoding,
                        db_header.page_size - db_header.reserved_page_space,
                        buf@.skip(#[trigger] ptrs[j] as int),
                        #[trigger] cells@[j],
                    ),
                cells_error(
                    page_type,
                    db_header.text_encoding,
                    db_header.page_size - db_header.reserved_page_space,
                    buf@,
                    ptrs,
                ) == cells_error(
                    page_type,
                    db_header.text_encoding,
                    db_header.page_size - db_header.reserved_page_space,
                    buf@,
                    ptrs.skip(i as int),
                ),
            decreases ptrs.len() - i,
        {
            let ghost rest_ptrs = ptrs.skip(i as int);
            proof {
                assert(rest_ptrs[0] == ptrs[i as int]);
                assert(rest_ptrs.skip(1) =~= ptrs.skip(i as int + 1));
            }
            let ptr = cell_pointer.array[i] as usize;
            if ptr > buf.len() {
                return Err(ParseError::Truncated { expected: ptr, got: buf.len() });
            }
            let cell_window = slice_subrange(buf, ptr, buf.len());
            proof {
                assert(cell_window@ =~= buf@.skip(ptr as int));
            }
            let cell = match Cell::new(page_type, db_header, cell_window) {
                Ok(c) => c,
                Err(e) => {
                    return Err(e);
                },
            };
            cells.push(cell);
            i = i + 1;
        }
        proof {
            assert(ptrs.skip(ptrs.len() as int) =~= Seq::<u32>::empty());
        }
        Ok(cells)
    }
}

} // verus!
