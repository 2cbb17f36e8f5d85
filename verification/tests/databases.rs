use sqlite_parser::ParseError;
use sqlite_parser::btree::{BTreeNode, Schema};
use sqlite_parser::cell::Cell;
use sqlite_parser::reader::Reader;
use sqlite_parser::record::RecordType;

fn put_u16(buf: &mut [u8], off: usize, v: u16) {
    buf[off] = (v >> 8) as u8;
    buf[off + 1] = v as u8;
}

fn put_u32(buf: &mut [u8], off: usize, v: u32) {
    buf[off] = (v >> 24) as u8;
    buf[off + 1] = (v >> 16) as u8;
    buf[off + 2] = (v >> 8) as u8;
    buf[off + 3] = v as u8;
}

fn write_db_header(image: &mut [u8], page_size_raw: u16, db_size: u32) {
    image[..16].copy_from_slice(b"SQLite format 3\0");
    put_u16(image, 16, page_size_raw);
    image[18] = 1;
    image[19] = 1;
    image[20] = 0;
    image[21] = 64;
    image[22] = 32;
    image[23] = 32;
    put_u32(image, 24, 1); // file change counter
    put_u32(image, 28, db_size);
    put_u32(image, 44, 1); // schema format
    put_u32(image, 56, 1); // UTF-8
    put_u32(image, 92, 1); // version valid for
    put_u32(image, 96, 3_037_000);
}

/// `CREATE TABLE simple(int)` with rows (1), (2), (3), (4): a 512-byte
/// page schema table on page 1 and the table's leaf page on page 2.
fn minimal_database() -> Vec<u8> {
    let mut image = vec![0u8; 1024];
    write_db_header(&mut image, 512, 2);

    // Page 1: one schema row for "simple", rooted at page 2.
    let sql = b"CREATE TABLE simple(int)"; // 24 bytes -> serial type 61
    let mut record: Vec<u8> = vec![6, 23, 25, 25, 1, 61];
    record.extend_from_slice(b"table");
    record.extend_from_slice(b"simple");
    record.extend_from_slice(b"simple");
    record.push(2);
    record.extend_from_slice(sql);
    assert_eq!(record.len(), 48);
    let mut cell: Vec<u8> = vec![48, 1]; // payload length, rowid
    cell.extend_from_slice(&record);
    assert_eq!(cell.len(), 50);
    let cell_off = 512 - 50;
    image[100] = 13; // leaf table
    put_u16(&mut image, 103, 1); // one cell
    put_u16(&mut image, 105, cell_off as u16);
    put_u16(&mut image, 108, cell_off as u16);
    image[cell_off..cell_off + 50].copy_from_slice(&cell);

    // Page 2: four table-leaf cells with rowids 1..=4 and values 1..=4.
    let base = 512;
    image[base] = 13;
    put_u16(&mut image, base + 3, 4);
    put_u16(&mut image, base + 5, 492);
    for k in 0..4u8 {
        let rowid = k + 1;
        let off = 507 - 5 * (k as usize);
        put_u16(&mut image, base + 8 + 2 * (k as usize), off as u16);
        let cell = [3, rowid, 2, 1, rowid];
        image[base + off..base + off + 5].copy_from_slice(&cell);
    }
    image
}

#[test]
fn minimal_database_trees() {
    let reader = Reader::new(minimal_database()).unwrap();
    assert_eq!(reader.pages_total(), 2);

    let trees = reader.get_btrees().unwrap();
    assert_eq!(trees.len(), 2);

    assert_eq!(trees[0].ttype.as_str(), "table");
    assert_eq!(trees[0].name.as_str(), "master schema");
    assert_eq!(trees[0].root.page_num, 1);

    assert_eq!(trees[1].ttype.as_str(), "table");
    assert_eq!(trees[1].name.as_str(), "simple");
    assert_eq!(trees[1].root.page_num, 2);

    let root = &trees[1].root;
    assert_eq!(root.page.cells.len(), 4);
    for (i, cell) in root.page.cells.iter().enumerate() {
        let expected = (i + 1) as i64;
        match cell {
            Cell::TableLeaf(leaf) => {
                assert_eq!(leaf.rowid_varint.value, expected);
                assert_eq!(leaf.payload.values.len(), 1);
                assert_eq!(leaf.payload.values[0].value, RecordType::I8(expected as i8));
                assert!(leaf.overflow.is_none());
            },
            other => panic!("expected a table leaf cell, got {:?}", other),
        }
    }
}

#[test]
fn minimal_database_page_partition() {
    // Page header + cell-pointer array + unallocated region + cell-content
    // area partition each page (less the database header on page 1).
    let reader = Reader::new(minimal_database()).unwrap();

    let page2 = reader.get_btree_page(2).unwrap();
    let content = 512 - page2.page_header.cell_start_offset as usize;
    assert_eq!(
        page2.page_header.size + 2 * page2.page_header.cell_num as usize
            + page2.unallocated.len() + content,
        512,
    );

    let page1 = reader.get_btree_page(1).unwrap();
    let content = 512 - page1.page_header.cell_start_offset as usize;
    assert_eq!(
        page1.page_header.size + 2 * page1.page_header.cell_num as usize
            + page1.unallocated.len() + content,
        512 - 100,
    );
}

#[test]
fn minimal_database_pointers_non_increasing() {
    let reader = Reader::new(minimal_database()).unwrap();
    let page2 = reader.get_btree_page(2).unwrap();
    assert_eq!(page2.cell_pointer.array, vec![507, 502, 497, 492]);
    assert!(page2.cell_pointer.is_non_increasing());
}

#[test]
fn page_out_of_range() {
    let reader = Reader::new(minimal_database()).unwrap();
    let e = reader.get_btree_page(9).err();
    assert_eq!(e, Some(ParseError::PageOutOfRange { page: 9, total: 2 }));
    let e = reader.get_btree_page(0).err();
    assert_eq!(e, Some(ParseError::PageOutOfRange { page: 0, total: 2 }));
}

#[test]
fn sixty_four_kilobyte_pages() {
    // The page-size field holds the sentinel 0x0001: the reader reports
    // 65536 and derives the page count from the image length.
    let mut image = vec![0u8; 65536];
    write_db_header(&mut image, 1, 0);
    image[100] = 13;
    put_u16(&mut image, 105, 0x0200);
    let reader = Reader::new(image).unwrap();
    assert_eq!(reader.db_header.page_size, 65536);
    assert_eq!(reader.pages_total(), 1);
}

/// A 1024-byte-page database whose only row holds a 2000-byte blob, which
/// spills onto overflow page 3.
fn overflow_database() -> (Vec<u8>, Vec<u8>) {
    let blob: Vec<u8> = (0..2000u32).map(|i| (i % 251) as u8).collect();
    let mut image = vec![0u8; 3 * 1024];
    write_db_header(&mut image, 1024, 3);

    // Page 1: an empty schema table.
    image[100] = 13;
    put_u16(&mut image, 105, 1024);

    // Page 2: one cell. Declared payload 2003 = 3 header bytes + the
    // blob; the spill formula keeps 983 bytes on the page.
    let base = 1024;
    let mut cell: Vec<u8> = vec![0x8F, 0x53, 0x01]; // payload 2003, rowid 1
    cell.extend_from_slice(&[0x03, 0x9F, 0x2C]); // header: size 3, serial type 4012
    cell.extend_from_slice(&blob[..980]);
    cell.extend_from_slice(&[0, 0, 0, 3]); // first overflow page
    assert_eq!(cell.len(), 990);
    let off = 1024 - 990;
    image[base] = 13;
    put_u16(&mut image, base + 3, 1);
    put_u16(&mut image, base + 5, off as u16);
    put_u16(&mut image, base + 8, off as u16);
    image[base + off..base + off + 990].copy_from_slice(&cell);

    // Page 3: the final overflow page, exactly filled.
    let base = 2048;
    put_u32(&mut image, base, 0);
    image[base + 4..base + 4 + 1020].copy_from_slice(&blob[980..]);
    (image, blob)
}

#[test]
fn overflow_chain_reconstitutes_blob() {
    let (image, blob) = overflow_database();
    let reader = Reader::new(image).unwrap();

    let page = reader.get_btree_page(2).unwrap();
    assert_eq!(page.cells.len(), 1);
    let leaf = match &page.cells[0] {
        Cell::TableLeaf(leaf) => leaf,
        other => panic!("expected a table leaf cell, got {:?}", other),
    };
    assert_eq!(leaf.payload_varint.value, 2003);

    let overflow = leaf.overflow.as_ref().expect("the cell must spill");
    assert_eq!(overflow.page, 3);
    assert_eq!(overflow.units.len(), 1);
    assert_eq!(overflow.units[0].overflow_type, 4012);
    assert_eq!(overflow.units[0].bytes_left, 1020);

    // On-page prefix of the blob.
    let on_page = match &leaf.payload.values[0].value {
        RecordType::Blob(Some(bytes)) => bytes.clone(),
        other => panic!("expected a blob, got {:?}", other),
    };
    assert_eq!(on_page.len(), 980);

    // The parsed record plus the pending units cover the declared payload:
    // 3 header bytes + 980 on-page blob bytes + 1020 owed == 2003.
    assert_eq!(3 + on_page.len() + overflow.units[0].bytes_left, 2003);

    // Walking the chain until next-page == 0 yields the balance.
    let opage = reader.get_overflow_page(overflow.units.clone(), 3).unwrap();
    assert_eq!(opage.next_page, 0);
    assert_eq!(opage.data.len(), 1);
    assert_eq!(opage.data[0].bytes.len(), 2000 - 980);
    assert!(opage.overflow_units.is_empty());
    assert!(opage.unallocated.is_none());

    let mut rebuilt = on_page;
    rebuilt.extend_from_slice(&opage.data[0].bytes);
    assert_eq!(rebuilt, blob);
}

/// A database whose single schema row spills: its 600-byte SQL text is
/// split between page 1 and overflow page 2; the named table sits on
/// page 3.
fn spilled_schema_database() -> (Vec<u8>, Vec<u8>) {
    let sql: Vec<u8> = (0..600u32).map(|i| b'a' + (i % 26) as u8).collect();
    let mut image = vec![0u8; 3 * 512];
    write_db_header(&mut image, 512, 3);

    // Schema row: "table", "t", "t", root page 3, 600-byte SQL text
    // (serial type 1213). Declared payload 615; the spill formula keeps
    // 107 bytes on the page (7 header + 8 small columns + 92 SQL bytes).
    let mut cell: Vec<u8> = vec![0x84, 0x67, 0x01]; // payload 615, rowid 1
    cell.extend_from_slice(&[0x07, 23, 15, 15, 1, 0x89, 0x3D]);
    cell.extend_from_slice(b"table");
    cell.push(b't');
    cell.push(b't');
    cell.push(3);
    cell.extend_from_slice(&sql[..92]);
    cell.extend_from_slice(&[0, 0, 0, 2]); // first overflow page
    assert_eq!(cell.len(), 114);
    let off = 512 - 114;
    image[100] = 13;
    put_u16(&mut image, 103, 1);
    put_u16(&mut image, 105, off as u16);
    put_u16(&mut image, 108, off as u16);
    image[off..off + 114].copy_from_slice(&cell);

    // Page 2: the overflow page, exactly filled with the SQL balance.
    put_u32(&mut image, 512, 0);
    image[516..1024].copy_from_slice(&sql[92..]);

    // Page 3: the named table, an empty leaf.
    image[1024] = 13;
    put_u16(&mut image, 1029, 512);
    (image, sql)
}

#[test]
fn spilled_schema_row_is_stitched() {
    let (image, _sql) = spilled_schema_database();
    let reader = Reader::new(image).unwrap();
    let trees = reader.get_btrees().unwrap();
    assert_eq!(trees.len(), 2);
    assert_eq!(trees[1].ttype.as_str(), "table");
    assert_eq!(trees[1].name.as_str(), "t");
    assert_eq!(trees[1].root.page_num, 3);
    assert_eq!(trees[1].root.page.cells.len(), 0);
}

#[test]
fn overflow_chain_terminates_within_page_count() {
    // Following next-page pointers reaches 0 within pages_total() steps,
    // and the chain accounts for every byte the units owed.
    let (image, _) = overflow_database();
    let reader = Reader::new(image).unwrap();
    let page = reader.get_btree_page(2).unwrap();
    let overflow = match &page.cells[0] {
        Cell::TableLeaf(leaf) => leaf.overflow.clone().unwrap(),
        other => panic!("expected a table leaf cell, got {:?}", other),
    };
    let chain = BTreeNode::follow_overflow(overflow.units, overflow.page, &reader).unwrap();
    assert!(chain.len() <= reader.pages_total());
    assert_eq!(chain[0].page_num, 3);
    assert_eq!(chain.last().unwrap().page.next_page, 0);
    assert!(chain.last().unwrap().page.overflow_units.is_empty());
}

#[test]
fn freelist_pages_through_the_reader() {
    // Page 3 is a freelist trunk naming page 2 as its only leaf.
    let mut image = vec![0u8; 3 * 512];
    write_db_header(&mut image, 512, 3);
    put_u32(&mut image, 32, 3); // first freelist trunk page
    put_u32(&mut image, 36, 2); // freelist page count
    image[100] = 13;
    put_u16(&mut image, 105, 512);
    let base = 2 * 512;
    put_u32(&mut image, base, 0); // last trunk
    put_u32(&mut image, base + 4, 1); // one leaf
    put_u32(&mut image, base + 8, 2); // the leaf's page number

    let reader = Reader::new(image).unwrap();
    assert_eq!(reader.db_header.first_free_page_num, 3);
    assert_eq!(reader.db_header.freelist_total, 2);

    let trunk = reader.get_trunk_freelist_page(3).unwrap();
    assert_eq!(trunk.next_page, 0);
    assert_eq!(trunk.leaf_page_amount, 1);
    assert_eq!(trunk.leaf_page_numbers, Some(vec![2]));

    let leaf = reader.get_leaf_freelist_page(2).unwrap();
    assert_eq!(leaf.unallocated.len(), 512);
}

#[test]
fn schema_column_order() {
    assert_eq!(Schema::Type.column_index(), 0);
    assert_eq!(Schema::Name.column_index(), 1);
    assert_eq!(Schema::TableName.column_index(), 2);
    assert_eq!(Schema::RootPage.column_index(), 3);
    assert_eq!(Schema::SQL.column_index(), 4);
}

#[test]
fn broken_schema_page_fails_tree_discovery() {
    // A schema page whose one cell pointer runs past the page: discovering
    // the trees reports that page's decode error.
    let mut image = vec![0u8; 512];
    write_db_header(&mut image, 512, 1);
    image[100] = 13;
    put_u16(&mut image, 103, 1); // one cell
    put_u16(&mut image, 105, 510); // cell content start
    put_u16(&mut image, 108, 600); // pointer past the page end
    let reader = Reader::new(image).unwrap();
    let e = reader.get_btrees().err();
    assert_eq!(e, Some(ParseError::Truncated { expected: 600, got: 512 }));
}

#[test]
fn self_referencing_page_is_a_cycle() {
    // An interior page whose right-most pointer names itself: traversal
    // must stop within pages_total() steps and report a cycle.
    let mut image = vec![0u8; 1024];
    write_db_header(&mut image, 512, 2);
    image[100] = 13;
    put_u16(&mut image, 105, 512);
    let base = 512;
    image[base] = 5; // interior table
    put_u16(&mut image, base + 5, 512);
    put_u32(&mut image, base + 8, 2); // right-most child: itself
    let reader = Reader::new(image).unwrap();
    let e = BTreeNode::new(2, &reader).err();
    assert_eq!(e, Some(ParseError::CycleDetected));
}
