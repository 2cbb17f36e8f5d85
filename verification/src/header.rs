//! The database header: the first 100 bytes of the image.

use vstd::prelude::*;
use crate::ParseError;
use crate::bytes::{be16, be32, read_u16_be, read_u32_be, copy_range};
use crate::text::{utf8_decode, utf8_to_string};

verus! {

/// The fixed size of the database header in bytes.
pub const DB_HEADER_SIZE: usize = 100;

/// The text encoding declared by the database header.
#[derive(Debug, Clone, Copy, PartialEq, Eq, Structural)]
pub enum TextEncoding {
    UTF8,
    UTF16le,
    UTF16be,
}

/// The numeric code of a text encoding as stored in the header.
pub open spec fn encoding_code(e: TextEncoding) -> int {
    match e {
        TextEncoding::UTF8 => 1,
        TextEncoding::UTF16le => 2,
        TextEncoding::UTF16be => 3,
    }
}

impl TextEncoding {
    /// The header representation of the encoding: a big-endian 32-bit code.
    pub fn to_be_bytes(&self) -> (r: [u8; 4])
        ensures
            r@ =~= seq![0u8, 0u8, 0u8, encoding_code(*self) as u8],
    {
        match self {
            TextEncoding::UTF8 => [0, 0, 0, 1],
            TextEncoding::UTF16le => [0, 0, 0, 2],
            TextEncoding::UTF16be => [0, 0, 0, 3],
        }
    }

    /// Decodes the text-encoding field: 1, 2 and 3 name the encodings, and
    /// every other value is an error.
    pub fn parse(value: u32) -> (r: Result<TextEncoding, ParseError>)
        ensures
            r is Ok <==> 1 <= value <= 3,
            r matches Ok(e) ==> encoding_code(e) == value,
            r matches Err(e) ==> e == (ParseError::InvalidTextEncoding { value }),
    {
        match value {
            1 => Ok(TextEncoding::UTF8),
            2 => Ok(TextEncoding::UTF16le),
            3 => Ok(TextEncoding::UTF16be),
            _ => Err(ParseError::InvalidTextEncoding { value }),
        }
    }
}

/// The interpreted page size: the stored sentinel 1 denotes 65536.
pub open spec fn page_size_of(raw: int) -> int {
    if raw == 1 {
        65536
    } else {
        raw
    }
}

/// The stored page-size field is acceptable: the 65536 sentinel, or at
/// least the smallest legal page size.
pub open spec fn page_size_valid(raw: int) -> bool {
    raw == 1 || raw >= 512
}

/// The parsed database header. The page size is stored interpreted, so it
/// is 65536 where the on-disk field holds the sentinel 1.
#[derive(Debug, Clone, PartialEq)]
pub struct DBHeader {
    /// The magic string, "SQLite format 3" and a trailing NUL.
    pub header: String,
    /// Interpreted page size in bytes: 512..=32768, or 65536.
    pub page_size: u32,
    /// 1 for legacy, 2 for WAL.
    pub write_version: u8,
    /// 1 for legacy, 2 for WAL.
    pub read_version: u8,
    /// Bytes reserved for extensions at the end of each page.
    pub reserved_page_space: u8,
    pub max_embedded_payload_fraction: u8,
    pub min_embedded_payload_fraction: u8,
    pub leaf_payload_fraction: u8,
    pub file_change_counter: u32,
    /// Declared size of the database in pages.
    pub db_size: u32,
    /// Page number of the first freelist trunk page, 0 when none.
    pub first_free_page_num: u32,
    /// Total number of freelist pages.
    pub freelist_total: u32,
    pub schema_cookie: u32,
    /// Schema format number; known formats are 1 through 4.
    pub schema_format_num: u32,
    pub default_page_cache_size: u32,
    /// Largest root page when vacuum modes are in use, 0 otherwise.
    pub largest_root: u32,
    pub text_encoding: TextEncoding,
    pub user_version: u32,
    pub inc_vacuum_mode: u32,
    pub application_id: u32,
    /// The 20 reserved bytes at offset 72.
    pub reserved_for_expansion: Vec<u8>,
    pub version_valid_for_number: u32,
    /// The version of the library that last modified the file.
    pub version: u32,
}

/// The field-by-field relation between the first 100 bytes of an image and
/// a decoded header.
pub open spec fn db_header_fields(s: Seq<u8>, h: DBHeader) -> bool {
    &&& Some(h.header@) == utf8_decode(s.subrange(0, 16))
    &&& h.page_size == page_size_of(be16(s, 16))
    &&& h.write_version == s[18]
    &&& h.read_version == s[19]
    &&& h.reserved_page_space == s[20]
    &&& h.max_embedded_payload_fraction == s[21]
    &&& h.min_embedded_payload_fraction == s[22]
    &&& h.leaf_payload_fraction == s[23]
    &&& h.file_change_counter == be32(s, 24)
    &&& h.db_size == be32(s, 28)
    &&& h.first_free_page_num == be32(s, 32)
    &&& h.freelist_total == be32(s, 36)
    &&& h.schema_cookie == be32(s, 40)
    &&& h.schema_format_num == be32(s, 44)
    &&& h.default_page_cache_size == be32(s, 48)
    &&& h.largest_root == be32(s, 52)
    &&& encoding_code(h.text_encoding) == be32(s, 56)
    &&& h.user_version == be32(s, 60)
    &&& h.inc_vacuum_mode == be32(s, 64)
    &&& h.application_id == be32(s, 68)
    &&& h.reserved_for_expansion@ == s.subrange(72, 92)
    &&& h.version_valid_for_number == be32(s, 92)
    &&& h.version == be32(s, 96)
}

/// The first failure a decode of the header meets, if any: a short image,
/// a magic string that is not UTF-8, a bad page size, a bad text encoding.
pub open spec fn db_header_error(s: Seq<u8>) -> Option<ParseError> {
    if s.len() < 100 {
        Some(ParseError::Truncated { expected: 100, got: s.len() as usize })
    } else if utf8_decode(s.subrange(0, 16)) is None {
        Some(ParseError::TextDecode)
    } else if !page_size_valid(be16(s, 16)) {
        Some(ParseError::InvalidPageSize { value: be16(s, 16) as u16 })
    } else if !(1 <= be32(s, 56) <= 3) {
        Some(ParseError::InvalidTextEncoding { value: be32(s, 56) as u32 })
    } else {
        None
    }
}

impl DBHeader {
    /// Builds a header value from its fields.
    pub fn new(
        header: String,
        page_size: u32,
        write_version: u8,
        read_version: u8,
        reserved_page_space: u8,
        max_embedded_payload_fraction: u8,
        min_embedded_payload_fraction: u8,
        leaf_payload_fraction: u8,
        file_change_counter: u32,
        db_size: u32,
        first_free_page_num: u32,
        freelist_total: u32,
        schema_cookie: u32,
        schema_format_num: u32,
        default_page_cache_size: u32,
        largest_root: u32,
        text_encoding: TextEncoding,
        user_version: u32,
        inc_vacuum_mode: u32,
        application_id: u32,
        reserved_for_expansion: Vec<u8>,
        version_valid_for_number: u32,
        version: u32,
    ) -> (r: DBHeader)
        ensures
            r.header == header,
            r.page_size == page_size,
            r.write_version == write_version,
            r.read_version == read_version,
            r.reserved_page_space == reserved_page_space,
            r.max_embedded_payload_fraction == max_embedded_payload_fraction,
            r.min_embedded_payload_fraction == min_embedded_payload_fraction,
            r.leaf_payload_fraction == leaf_payload_fraction,
            r.file_change_counter == file_change_counter,
            r.db_size == db_size,
            r.first_free_page_num == first_free_page_num,
            r.freelist_total == freelist_total,
            r.schema_cookie == schema_cookie,
            r.schema_format_num == schema_format_num,
            r.default_page_cache_size == default_page_cache_size,
            r.largest_root == largest_root,
            r.text_encoding == text_encoding,
            r.user_version == user_version,
            r.inc_vacuum_mode == inc_vacuum_mode,
            r.application_id == application_id,
            r.reserved_for_expansion == reserved_for_expansion,
            r.version_valid_for_number == version_valid_for_number,
            r.version == version,
    {
        DBHeader {
            header,
            page_size,
            write_version,
            read_version,
            reserved_page_space,
            max_embedded_payload_fraction,
            min_embedded_payload_fraction,
            leaf_payload_fraction,
            file_change_counter,
            db_size,
            first_free_page_num,
            freelist_total,
            schema_cookie,
            schema_format_num,
            default_page_cache_size,
            largest_root,
            text_encoding,
            user_version,
            inc_vacuum_mode,
            application_id,
            reserved_for_expansion,
            version_valid_for_number,
            version,
        }
    }

    /// Decodes the 100-byte database header from the front of `buf`.
    pub fn parse(buf: &[u8]) -> (r: Result<DBHeader, ParseError>)
        ensures
            r matches Ok(h) ==> db_header_fields(buf@, h) && buf@.len() >= 100,
            r matches Ok(h) ==> page_size_valid_interp(h.page_size as int),
            r is Ok <==> db_header_error(buf@) is None,
            r matches Err(e) ==> Some(e) == db_header_error(buf@),
    {
        if buf.len() < DB_HEADER_SIZE {
            return Err(ParseError::Truncated { expected: DB_HEADER_SIZE, got: buf.len() });
        }

        let magic_bytes = copy_range(buf, 0, 16);
        let header = match utf8_to_string(magic_bytes) {
            Some(s) => s,
            None => {
                return Err(ParseError::TextDecode);
            },
        };

        let raw_page_size = read_u16_be(buf, 16);
        if !(raw_page_size == 1 || raw_page_size >= 512) {
            return Err(ParseError::InvalidPageSize { value: raw_page_size });
        }
        let page_size: u32 = if raw_page_size == 1 {
            65536
        } else {
            raw_page_size as u32
        };

        let text_encoding = match TextEncoding::parse(read_u32_be(buf, 56)) {
            Ok(e) => e,
            Err(e) => {
                return Err(e);
            },
        };

        Ok(
            DBHeader::new(
                header,
                page_size,
                buf[18],
                buf[19],
                buf[20],
                buf[21],
                buf[22],
                buf[23],
                read_u32_be(buf, 24),
                read_u32_be(buf, 28),
                read_u32_be(buf, 32),
                read_u32_be(buf, 36),
                read_u32_be(buf, 40),
                read_u32_be(buf, 44),
                read_u32_be(buf, 48),
                read_u32_be(buf, 52),
                text_encoding,
                read_u32_be(buf, 60),
                read_u32_be(buf, 64),
                read_u32_be(buf, 68),
                copy_range(buf, 72, 20),
                read_u32_be(buf, 92),
                read_u32_be(buf, 96),
            ),
        )
    }

    /// Copies the header field by field, so each decoded page can carry
    /// its own handle on it.
    pub fn duplicate(&self) -> (r: DBHeader)
        ensures
            header_eq(r, *self),
    {
        let reserved = copy_range(
            self.reserved_for_expansion.as_slice(),
            0,
            self.reserved_for_expansion.len(),
        );
        proof {
            assert(reserved@ =~= self.reserved_for_expansion@);
        }
        DBHeader {
            header: self.header.clone(),
            page_size: self.page_size,
            write_version: self.write_version,
            read_version: self.read_version,
            reserved_page_space: self.reserved_page_space,
            max_embedded_payload_fraction: self.max_embedded_payload_fraction,
            min_embedded_payload_fraction: self.min_embedded_payload_fraction,
            leaf_payload_fraction: self.leaf_payload_fraction,
            file_change_counter: self.file_change_counter,
            db_size: self.db_size,
            first_free_page_num: self.first_free_page_num,
            freelist_total: self.freelist_total,
            schema_cookie: self.schema_cookie,
            schema_format_num: self.schema_format_num,
            default_page_cache_size: self.default_page_cache_size,
            largest_root: self.largest_root,
            text_encoding: self.text_encoding,
            user_version: self.user_version,
            inc_vacuum_mode: self.inc_vacuum_mode,
            application_id: self.application_id,
            reserved_for_expansion: reserved,
            version_valid_for_number: self.version_valid_for_number,
            version: self.version,
        }
    }

    /// The usable bytes of a page: the page size less the reserved space.
    pub fn usable_size(&self) -> (r: u32)
        requires
            page_size_valid_interp(self.page_size as int),
        ensures
            r == self.page_size - self.reserved_page_space,
            r >= 257,
    {
        self.page_size - (self.reserved_page_space as u32)
    }
}

/// An interpreted page size is one a valid header can carry: at least 512.
pub open spec fn page_size_valid_interp(interpreted: int) -> bool {
    interpreted >= 512
}

/// Two header values carry the same decoded fields.
pub open spec fn header_eq(a: DBHeader, b: DBHeader) -> bool {
    &&& a.header@ == b.header@
    &&& a.page_size == b.page_size
    &&& a.write_version == b.write_version
    &&& a.read_version == b.read_version
    &&& a.reserved_page_space == b.reserved_page_space
    &&& a.max_embedded_payload_fraction == b.max_embedded_payload_fraction
    &&& a.min_embedded_payload_fraction == b.min_embedded_payload_fraction
    &&& a.leaf_payload_fraction == b.leaf_payload_fraction
    &&& a.file_change_counter == b.file_change_counter
    &&& a.db_size == b.db_size
    &&& a.first_free_page_num == b.first_free_page_num
    &&& a.freelist_total == b.freelist_total
    &&& a.schema_cookie == b.schema_cookie
    &&& a.schema_format_num == b.schema_format_num
    &&& a.default_page_cache_size == b.default_page_cache_size
    &&& a.largest_root == b.largest_root
    &&& a.text_encoding == b.text_encoding
    &&& a.user_version == b.user_version
    &&& a.inc_vacuum_mode == b.inc_vacuum_mode
    &&& a.application_id == b.application_id
    &&& a.reserved_for_expansion@ == b.reserved_for_expansion@
    &&& a.version_valid_for_number == b.version_valid_for_number
    &&& a.version == b.version
}

} // verus!
