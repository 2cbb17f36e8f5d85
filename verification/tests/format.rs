use sqlite_parser::ParseError;
use sqlite_parser::freelist::{LeafFreelistPage, TrunkFreelistPage};
use sqlite_parser::header::{DBHeader, TextEncoding};
use sqlite_parser::page::{CellPointer, PageHeader, PageHeaderType};
use sqlite_parser::reader::Reader;
use sqlite_parser::record::{Record, RecordCode, RecordType, RecordValue};

fn put_u16(buf: &mut [u8], off: usize, v: u16) {
    buf[off] = (v >> 8) as u8;
    buf[off + 1] = v as u8;
}

fn put_u32(buf: &mut [u8], off: usize, v: u32) {
    buf[off] = (v >> 24) as u8;
    buf[off + 1] = (v >> 16) as u8;
    buf[off + 2] = (v >> 8) as u8;
    buf[off + 3] = v as u8;
}

/// A well-formed 100-byte database header with the given raw page-size
/// field and page count.
fn db_header_bytes(page_size_raw: u16, db_size: u32) -> [u8; 100] {
    let mut h = [0u8; 100];
    h[..16].copy_from_slice(b"SQLite format 3\0");
    put_u16(&mut h, 16, page_size_raw);
    h[18] = 1;
    h[19] = 1;
    h[20] = 0; // reserved space
    h[21] = 64;
    h[22] = 32;
    h[23] = 32;
    put_u32(&mut h, 24, 1); // file change counter
    put_u32(&mut h, 28, db_size);
    put_u32(&mut h, 44, 1); // schema format
    put_u32(&mut h, 56, 1); // UTF-8
    put_u32(&mut h, 92, 1); // version valid for
    put_u32(&mut h, 96, 3_037_000);
    h
}

#[test]
fn page_size_sentinel_one_means_65536() {
    let h = db_header_bytes(1, 0);
    let parsed = DBHeader::parse(&h).unwrap();
    assert_eq!(parsed.page_size, 65536);
}

#[test]
fn ordinary_page_size_kept() {
    let h = db_header_bytes(4096, 0);
    let parsed = DBHeader::parse(&h).unwrap();
    assert_eq!(parsed.page_size, 4096);
}

#[test]
fn header_fields_decode() {
    let h = db_header_bytes(512, 7);
    let parsed = DBHeader::parse(&h).unwrap();
    assert_eq!(parsed.header.as_str(), "SQLite format 3\0");
    assert_eq!(parsed.db_size, 7);
    assert_eq!(parsed.file_change_counter, 1);
    assert_eq!(parsed.text_encoding, TextEncoding::UTF8);
    assert_eq!(parsed.max_embedded_payload_fraction, 64);
    assert_eq!(parsed.min_embedded_payload_fraction, 32);
    assert_eq!(parsed.leaf_payload_fraction, 32);
    assert_eq!(parsed.version, 3_037_000);
}

#[test]
fn short_header_is_truncated_error() {
    let r = Reader::new(vec![0u8; 50]);
    assert_eq!(r.err(), Some(ParseError::Truncated { expected: 100, got: 50 }));
}

#[test]
fn invalid_page_size_rejected() {
    let h = db_header_bytes(100, 0);
    assert_eq!(DBHeader::parse(&h).err(), Some(ParseError::InvalidPageSize { value: 100 }));
}

#[test]
fn invalid_text_encoding_rejected() {
    let mut h = db_header_bytes(512, 0);
    put_u32(&mut h, 56, 5);
    assert_eq!(DBHeader::parse(&h).err(), Some(ParseError::InvalidTextEncoding { value: 5 }));
}

#[test]
fn text_encoding_codes() {
    assert_eq!(TextEncoding::parse(1).unwrap(), TextEncoding::UTF8);
    assert_eq!(TextEncoding::parse(2).unwrap(), TextEncoding::UTF16le);
    assert_eq!(TextEncoding::parse(3).unwrap(), TextEncoding::UTF16be);
    assert_eq!(TextEncoding::UTF16be.to_be_bytes(), [0, 0, 0, 3]);
}

#[test]
fn cell_content_start_zero_means_65536() {
    let bytes = [13u8, 0, 0, 0, 0, 0, 0, 0];
    let h = PageHeader::parse(&bytes).unwrap();
    assert_eq!(h.cell_start_offset, 65536);
    assert_eq!(h.page_type, PageHeaderType::LeafTable);
    assert_eq!(h.size, 8);
    assert_eq!(h.page_num, None);
}

#[test]
fn interior_page_header_has_right_pointer() {
    let bytes = [5u8, 0, 0, 0, 2, 0x01, 0x00, 0, 0, 0, 0, 9];
    let h = PageHeader::parse(&bytes).unwrap();
    assert_eq!(h.page_type, PageHeaderType::InteriorTable);
    assert_eq!(h.size, 12);
    assert_eq!(h.cell_num, 2);
    assert_eq!(h.cell_start_offset, 0x100);
    assert_eq!(h.page_num, Some(9));
    assert!(h.page_type.is_interior());
    assert_eq!(h.page_type.to_be_bytes(), [5]);
}

#[test]
fn unknown_page_type_rejected() {
    let bytes = [7u8, 0, 0, 0, 0, 0, 0, 0];
    assert_eq!(PageHeader::parse(&bytes).err(), Some(ParseError::UnknownPageType { value: 7 }));
}

#[test]
fn cell_pointer_zero_means_65536() {
    let c = CellPointer::parse(&[0u8, 0]);
    assert_eq!(c.array, vec![65536]);
}

#[test]
fn cell_pointer_array_decodes_in_order() {
    let c = CellPointer::parse(&[0x01, 0xFB, 0x01, 0xF6, 0x01, 0xF1]);
    assert_eq!(c.array, vec![507, 502, 497]);
    assert!(c.is_non_increasing());
    let growing = CellPointer::parse(&[0x01, 0x00, 0x02, 0x00]);
    assert!(!growing.is_non_increasing());
}

#[test]
fn serial_type_sizes() {
    assert_eq!(RecordCode::size(0), 0);
    assert_eq!(RecordCode::size(1), 1);
    assert_eq!(RecordCode::size(2), 2);
    assert_eq!(RecordCode::size(3), 3);
    assert_eq!(RecordCode::size(4), 4);
    assert_eq!(RecordCode::size(5), 6);
    assert_eq!(RecordCode::size(6), 8);
    assert_eq!(RecordCode::size(7), 8);
    assert_eq!(RecordCode::size(8), 0);
    assert_eq!(RecordCode::size(9), 0);
    assert_eq!(RecordCode::size(12), 0);
    assert_eq!(RecordCode::size(13), 0);
    assert_eq!(RecordCode::size(4012), 2000);
    assert_eq!(RecordCode::size(1213), 600);
}

#[test]
fn reserved_serial_types_rejected() {
    let e = RecordValue::new(10, TextEncoding::UTF8, &[]).err();
    assert_eq!(e, Some(ParseError::InvalidSerialType { code: 10 }));
    let e = RecordValue::new(11, TextEncoding::UTF8, &[]).err();
    assert_eq!(e, Some(ParseError::InvalidSerialType { code: 11 }));
    let e = RecordValue::new(-3, TextEncoding::UTF8, &[]).err();
    assert_eq!(e, Some(ParseError::InvalidSerialType { code: -3 }));
}

#[test]
fn integer_values_sign_extend() {
    let v = RecordValue::new(1, TextEncoding::UTF8, &[0xFE]).unwrap();
    assert_eq!(v.value, RecordType::I8(-2));
    let v = RecordValue::new(2, TextEncoding::UTF8, &[0x01, 0x00]).unwrap();
    assert_eq!(v.value, RecordType::I16(256));
    let v = RecordValue::new(3, TextEncoding::UTF8, &[0xFF, 0xFF, 0xFF]).unwrap();
    assert_eq!(v.value, RecordType::I24(-1));
    let v = RecordValue::new(4, TextEncoding::UTF8, &[0x00, 0x00, 0x01, 0x00]).unwrap();
    assert_eq!(v.value, RecordType::I32(256));
    let v = RecordValue::new(5, TextEncoding::UTF8, &[0x80, 0, 0, 0, 0, 0]).unwrap();
    assert_eq!(v.value, RecordType::I48(-140_737_488_355_328));
    let v = RecordValue::new(6, TextEncoding::UTF8, &[0xFF; 8]).unwrap();
    assert_eq!(v.value, RecordType::I64(-1));
}

#[test]
fn float_value_keeps_bit_pattern() {
    let bits = 1.5f64.to_be_bytes();
    let v = RecordValue::new(7, TextEncoding::UTF8, &bits).unwrap();
    match v.value {
        RecordType::F64(raw) => assert_eq!(f64::from_bits(raw), 1.5),
        other => panic!("expected a float value, got {:?}", other),
    }
}

#[test]
fn literal_zero_and_one() {
    let v = RecordValue::new(8, TextEncoding::UTF8, &[]).unwrap();
    assert_eq!(v.value, RecordType::Zero(0));
    assert_eq!(v.bytes, None);
    let v = RecordValue::new(9, TextEncoding::UTF8, &[]).unwrap();
    assert_eq!(v.value, RecordType::One(1));
    assert_eq!(v.bytes, None);
}

#[test]
fn utf8_text_decodes() {
    // Multi-byte UTF-8: the decoded characters differ from the raw bytes.
    let bytes = [0xC3u8, 0xA9]; // "é"
    let v = RecordValue::new(13 + 2 * 2, TextEncoding::UTF8, &bytes).unwrap();
    assert_eq!(v.value, RecordType::Text(Some("\u{e9}".to_string())));
    assert_eq!(v.bytes, Some(vec![0xC3, 0xA9]));
}

#[test]
fn utf16_text_decodes() {
    let le = [0x68u8, 0x00, 0x69, 0x00]; // "hi" little-endian
    let v = RecordValue::new(13 + 2 * 4, TextEncoding::UTF16le, &le).unwrap();
    assert_eq!(v.value, RecordType::Text(Some("hi".to_string())));

    let be = [0x00u8, 0x68, 0x00, 0x69]; // "hi" big-endian
    let v = RecordValue::new(13 + 2 * 4, TextEncoding::UTF16be, &be).unwrap();
    assert_eq!(v.value, RecordType::Text(Some("hi".to_string())));
}

#[test]
fn invalid_text_is_decode_error() {
    let e = RecordValue::new(15, TextEncoding::UTF8, &[0xFF]).err();
    assert_eq!(e, Some(ParseError::TextDecode));
    // Odd byte count cannot be UTF-16.
    let e = RecordValue::new(15, TextEncoding::UTF16le, &[0x68]).err();
    assert_eq!(e, Some(ParseError::TextDecode));
}

#[test]
fn all_zero_size_serial_types_give_empty_body() {
    // Header of 4 bytes: the size varint and three serial types, each of
    // size zero. The record body is empty and every value owns no bytes.
    let record = Record::parse(TextEncoding::UTF8, &[0x04, 0x00, 0x08, 0x09]).unwrap();
    assert_eq!(record.header.size.value, 4);
    assert_eq!(record.header.datatypes.len(), 3);
    assert_eq!(record.values.len(), 3);
    assert_eq!(record.values[0].value, RecordType::Null);
    assert_eq!(record.values[1].value, RecordType::Zero(0));
    assert_eq!(record.values[2].value, RecordType::One(1));
    for v in &record.values {
        assert_eq!(v.bytes, None);
    }
}

#[test]
fn record_with_body_decodes() {
    // One text column "ab" and one integer column 7.
    let record = Record::parse(TextEncoding::UTF8, &[0x03, 17, 1, b'a', b'b', 7]).unwrap();
    assert_eq!(record.values.len(), 2);
    assert_eq!(record.values[0].value, RecordType::Text(Some("ab".to_string())));
    assert_eq!(record.values[1].value, RecordType::I8(7));
}

#[test]
fn trunk_freelist_page_decodes() {
    let mut page = vec![0u8; 512];
    put_u32(&mut page, 0, 7); // next trunk page
    put_u32(&mut page, 4, 2); // two leaves
    put_u32(&mut page, 8, 4);
    put_u32(&mut page, 12, 5);
    let t = TrunkFreelistPage::parse(&page).unwrap();
    assert_eq!(t.next_page, 7);
    assert_eq!(t.leaf_page_amount, 2);
    assert_eq!(t.leaf_page_numbers, Some(vec![4, 5]));
    assert_eq!(t.unallocated.as_ref().map(|u| u.len()), Some(512 - 16));
}

#[test]
fn trunk_freelist_without_leaves() {
    let page = [0u8; 8];
    let t = TrunkFreelistPage::parse(&page).unwrap();
    assert_eq!(t.next_page, 0);
    assert_eq!(t.leaf_page_amount, 0);
    assert_eq!(t.leaf_page_numbers, None);
    assert_eq!(t.unallocated, None);
}

#[test]
fn trunk_freelist_truncated() {
    let mut page = vec![0u8; 12];
    put_u32(&mut page, 4, 9); // nine leaves claimed, one fits
    let e = TrunkFreelistPage::parse(&page).err();
    assert_eq!(e, Some(ParseError::Truncated { expected: 8 + 4 * 9, got: 12 }));
}

#[test]
fn leaf_freelist_page_is_opaque() {
    let page = [0xABu8; 32];
    let l = LeafFreelistPage::parse(&page).unwrap();
    assert_eq!(l.unallocated, vec![0xAB; 32]);
}

#[test]
fn error_messages_are_short_and_stable() {
    let e = ParseError::TextDecode;
    assert_eq!(e.message(), "text bytes are invalid in the declared encoding");
    let e = ParseError::CycleDetected;
    assert_eq!(e.message(), "page chain does not terminate");
}

#[test]
fn page_header_builder_size_rule() {
    let h = PageHeader::new(PageHeaderType::LeafIndex, None, 0, 100, 0, None);
    assert_eq!(h.size, 8);
    let h = PageHeader::new(PageHeaderType::InteriorIndex, Some(5), 1, 100, 2, Some(7));
    assert_eq!(h.size, 12);
    assert_eq!(h.page_num, Some(7));
    assert_eq!(h.free_block_offset, Some(5));
}

#[test]
fn cell_pointer_builder_keeps_array() {
    let c = CellPointer::new(vec![400, 300]);
    assert_eq!(c.array, vec![400, 300]);
}
