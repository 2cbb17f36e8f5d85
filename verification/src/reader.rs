//! The page store: owns the byte image and the parsed database header,
//! slices fixed-size page windows, and hands out decoded pages.

use vstd::prelude::*;
use vstd::slice::slice_subrange;
use crate::ParseError;
use crate::bytes::copy_range;
use crate::freelist::{TrunkFreelistPage, LeafFreelistPage, trunk_error};
use crate::header::{DBHeader, db_header_fields, db_header_error, page_size_valid_interp};
use crate::overflow::{OverflowPage, OverflowUnit, overflow_data_error};
use crate::page::{Page, page_ok, page_error};

verus! {

/// The reader: the raw image and its decoded header. It is read-only; no
/// method mutates it.
#[derive(Debug)]
pub struct Reader {
    pub bytes: Vec<u8>,
    pub db_header: DBHeader,
}

impl Reader {
    /// The reader's invariant: the header was decoded from the image, so
    /// in particular its page size is a valid one.
    pub open spec fn wf(self) -> bool {
        &&& db_header_fields(self.bytes@, self.db_header)
        &&& page_size_valid_interp(self.db_header.page_size as int)
        &&& self.bytes@.len() >= 100
    }

    /// The total page count: the declared size when it is authoritative
    /// (non-zero and the change counter matches the version-valid-for
    /// counter), the image length in pages otherwise.
    pub open spec fn pages_total_spec(self) -> int {
        if self.db_header.db_size != 0 && self.db_header.file_change_counter
            == self.db_header.version_valid_for_number {
            self.db_header.db_size as int
        } else {
            self.bytes@.len() as int / self.db_header.page_size as int
        }
    }

    /// The byte window of page `page_num` within the image.
    pub open spec fn page_window(self, page_num: int) -> Seq<u8> {
        self.bytes@.subrange(
            (page_num - 1) * self.db_header.page_size,
            page_num * self.db_header.page_size,
        )
    }

    /// A page number addresses a whole page of the image: it is in
    /// `1..=pages_total()` and its window lies within the image.
    pub open spec fn page_in_bounds(self, page_num: int) -> bool {
        &&& 1 <= page_num <= self.pages_total_spec()
        &&& page_num * self.db_header.page_size <= self.bytes@.len()
    }

    /// The failure a page-window request meets, if any: a page number out
    /// of range, or a window past the end of the image.
    pub open spec fn window_error(self, page_num: int) -> Option<ParseError> {
        if page_num == 0 || page_num > self.pages_total_spec() {
            Some(
                ParseError::PageOutOfRange {
                    page: page_num as usize,
                    total: self.pages_total_spec() as usize,
                },
            )
        } else if page_num * self.db_header.page_size > self.bytes@.len() {
            Some(
                ParseError::Truncated {
                    expected: (page_num * self.db_header.page_size) as usize,
                    got: self.bytes@.len() as usize,
                },
            )
        } else {
            None
        }
    }

    /// Builds a reader over a byte image by decoding its database header.
    pub fn new(bytes: Vec<u8>) -> (r: Result<Reader, ParseError>)
        ensures
            r matches Ok(rd) ==> rd.bytes@ == bytes@ && rd.wf(),
            r is Ok <==> db_header_error(bytes@) is None,
            r matches Err(e) ==> Some(e) == db_header_error(bytes@),
    {
        let db_header = match DBHeader::parse(bytes.as_slice()) {
            Ok(h) => h,
            Err(e) => {
                return Err(e);
            },
        };
        Ok(Reader { bytes, db_header })
    }

    /// The actual number of pages of the image. The declared size is
    /// authoritative only when non-zero and the change counter equals the
    /// version-valid-for counter; otherwise the image length decides.
    pub fn pages_total(&self) -> (r: usize)
        requires
            self.wf(),
        ensures
            r == self.pages_total_spec(),
    {
        if self.db_header.db_size != 0 && self.db_header.file_change_counter
            == self.db_header.version_valid_for_number {
            self.db_header.db_size as usize
        } else {
            self.bytes.len() / (self.db_header.page_size as usize)
        }
    }

    /// The byte offset of a 1-based page number.
    fn page_offset(&self, page_num: usize) -> (r: usize)
        requires
            self.wf(),
            1 <= page_num,
            page_num * self.db_header.page_size <= self.bytes@.len(),
        ensures
            r == (page_num - 1) * self.db_header.page_size,
            r + self.db_header.page_size == page_num * self.db_header.page_size,
    {
        let image_len = self.bytes.len();
        proof {
            assert(self.bytes@.len() == image_len);
            vstd::arithmetic::mul::lemma_mul_is_distributive_sub_other_way(
                self.db_header.page_size as int,
                page_num as int,
                1,
            );
            assert((page_num - 1) * self.db_header.page_size == page_num
                * self.db_header.page_size - self.db_header.page_size);
            vstd::arithmetic::mul::lemma_mul_nonnegative(
                page_num as int - 1,
                self.db_header.page_size as int,
            );
        }
        (page_num - 1) * (self.db_header.page_size as usize)
    }

    /// Checks that a page number addresses a whole page of the image.
    fn validate_page_bounds(&self, page_num: usize) -> (r: Result<(), ParseError>)
        requires
            self.wf(),
        ensures
            r is Ok <==> self.window_error(page_num as int) is None,
            r is Ok ==> self.page_in_bounds(page_num as int),
            r matches Err(e) ==> Some(e) == self.window_error(page_num as int),
    {
        let image_len = self.bytes.len();
        let pages_total = self.pages_total();
        if page_num > pages_total || page_num == 0 {
            return Err(ParseError::PageOutOfRange { page: page_num, total: pages_total });
        }
        proof {
            assert(self.bytes@.len() == image_len);
        }
        // The end offset of the page, computed wide enough not to wrap:
        // with the declared size authoritative the product is small, and
        // otherwise the page count is bounded by the image length.
        proof {
            let ps = self.db_header.page_size as int;
            let len = self.bytes@.len() as int;
            if self.db_header.db_size != 0 && self.db_header.file_change_counter
                == self.db_header.version_valid_for_number {
                assert(page_num <= 0xffff_ffff);
                assert(page_num as int * ps < 0x1_0000_0000_0000_0000) by (nonlinear_arith)
                    requires
                        0 <= page_num as int <= 0xffff_ffff,
                        0 <= ps <= 65536,
                ;
            } else {
                assert(page_num as int <= len / ps);
                vstd::arithmetic::div_mod::lemma_fundamental_div_mod(len, ps);
                vstd::arithmetic::mul::lemma_mul_inequality(page_num as int, len / ps, ps);
                assert(ps * (len / ps) == (len / ps) * ps) by (nonlinear_arith);
                assert(len % ps >= 0);
                assert((len / ps) * ps <= len);
                assert(page_num as int * ps <= len);
                assert(len < 0x1_0000_0000_0000_0000);
            }
            assert(page_num as int * ps < 0x1_0000_0000_0000_0000);
        }
        let end64: u64 = (page_num as u64) * (self.db_header.page_size as u64);
        if end64 > (image_len as u64) {
            return Err(Self::incomplete(#[verifier::truncate] (end64 as usize), image_len));
        }
        Ok(())
    }

    /// Copies the byte window of a page out of the image.
    fn page_slice(&self, page_num: usize) -> (r: Result<Vec<u8>, ParseError>)
        requires
            self.wf(),
        ensures
            r matches Ok(w) ==> w@ == self.page_window(page_num as int) && self.page_in_bounds(
                page_num as int,
            ) && w@.len() == self.db_header.page_size,
            r is Ok <==> self.window_error(page_num as int) is None,
            r matches Err(e) ==> Some(e) == self.window_error(page_num as int),
    {
        match self.validate_page_bounds(page_num) {
            Ok(()) => {},
            Err(e) => {
                return Err(e);
            },
        }
        let page_offset = self.page_offset(page_num);
        let page_size = self.db_header.page_size as usize;
        let window = copy_range(self.bytes.as_slice(), page_offset, page_size);
        proof {
            assert(window@ =~= self.page_window(page_num as int));
        }
        Ok(window)
    }

    /// Builds the error for a structure that needed more bytes than were
    /// at hand.
    fn incomplete(expected: usize, got: usize) -> (r: ParseError)
        ensures
            r == (ParseError::Truncated { expected, got }),
    {
        ParseError::Truncated { expected, got }
    }

    /// Decodes the b-tree page numbered `page_num`.
    pub fn get_btree_page(&self, page_num: usize) -> (r: Result<Page, ParseError>)
        requires
            self.wf(),
        ensures
            r matches Ok(pg) ==> page_ok(
                self.db_header,
                page_num as int,
                self.page_window(page_num as int),
                pg,
            ) && self.page_in_bounds(page_num as int),
            r is Ok <==> self.window_error(page_num as int) is None && page_error(
                self.db_header,
                page_num as int,
                self.page_window(page_num as int),
            ) is None,
            r matches Err(e) ==> Some(e) == (if self.window_error(page_num as int) is Some {
                self.window_error(page_num as int)
            } else {
                page_error(self.db_header, page_num as int, self.page_window(page_num as int))
            }),
    {
        let buf = match self.page_slice(page_num) {
            Ok(w) => w,
            Err(e) => {
                return Err(e);
            },
        };
        Page::parse(&self.db_header, page_num, buf.as_slice())
    }

    /// Decodes the overflow page numbered `page_num`, splitting its
    /// payload across the pending `overflow` units.
    pub fn get_overflow_page(&self, overflow: Vec<OverflowUnit>, page_num: usize) -> (r: Result<
        OverflowPage,
        ParseError,
    >)
        requires
            self.wf(),
        ensures
            r matches Ok(p) ==> crate::overflow::overflow_data_ok(
                self.db_header.text_encoding,
                overflow@,
                self.page_window(page_num as int).skip(4),
                p.data@,
                p.overflow_units@,
            ) && p.next_page == crate::bytes::be32(self.page_window(page_num as int), 0)
                && crate::overflow::sum_data(p.data@) + crate::overflow::sum_units(
                p.overflow_units@,
            ) == crate::overflow::sum_units(overflow@) && self.page_in_bounds(page_num as int),
            r is Ok <==> self.window_error(page_num as int) is None && overflow_data_error(
                self.db_header.text_encoding,
                overflow@,
                self.page_window(page_num as int).skip(4),
            ) is None,
            r matches Err(e) ==> Some(e) == (if self.window_error(page_num as int) is Some {
                self.window_error(page_num as int)
            } else {
                overflow_data_error(
                    self.db_header.text_encoding,
                    overflow@,
                    self.page_window(page_num as int).skip(4),
                )
            }),
    {
        let buf = match self.page_slice(page_num) {
            Ok(w) => w,
            Err(e) => {
                return Err(e);
            },
        };
        proof {
            assert(buf@.len() >= 512);
        }
        OverflowPage::parse(self.db_header.text_encoding, overflow, buf.as_slice())
    }

    /// Decodes the freelist trunk page numbered `page_num`.
    pub fn get_trunk_freelist_page(&self, page_num: usize) -> (r: Result<
        TrunkFreelistPage,
        ParseError,
    >)
        requires
            self.wf(),
        ensures
            r is Ok <==> self.window_error(page_num as int) is None && trunk_error(
                self.page_window(page_num as int),
            ) is None,
            r matches Ok(t) ==> crate::freelist::trunk_ok(self.page_window(page_num as int), t),
            r matches Err(e) ==> Some(e) == (if self.window_error(page_num as int) is Some {
                self.window_error(page_num as int)
            } else {
                trunk_error(self.page_window(page_num as int))
            }),
    {
        let buf = match self.page_slice(page_num) {
            Ok(w) => w,
            Err(e) => {
                return Err(e);
            },
        };
        TrunkFreelistPage::parse(buf.as_slice())
    }

    /// Decodes the freelist leaf page numbered `page_num`: its bytes are
    /// opaque and kept whole.
    pub fn get_leaf_freelist_page(&self, page_num: usize) -> (r: Result<
        LeafFreelistPage,
        ParseError,
    >)
        requires
            self.wf(),
        ensures
            r is Ok <==> self.window_error(page_num as int) is None,
            r matches Ok(p) ==> p.unallocated@ == self.page_window(page_num as int),
    {
        let buf = match self.page_slice(page_num) {
            Ok(w) => w,
            Err(e) => {
                return Err(e);
            },
        };
        LeafFreelistPage::parse(buf.as_slice())
    }
}

} // verus!
