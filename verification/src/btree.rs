//! The b-tree materializer: starting from the schema table on page 1, it
//! discovers every named b-tree and builds each one as a tree of decoded
//! pages, with the overflow chains of its cells.

use vstd::prelude::*;
use crate::ParseError;
use crate::cell::{Cell, CellOverflow, TableLeafCell};
use crate::overflow::{OverflowPage, OverflowUnit, sum_data, sum_units};
use crate::page::{Page, page_ok, page_error, page_start, page_header_ok, cells_ok,
    is_interior_spec, page_type_code};
use crate::cell::cell_ok;
use crate::reader::Reader;
use crate::record::{Record, RecordCode, RecordType, RecordValue, rv_like, values_ok};
use crate::cell::{spec_units, sum_sizes, lemma_spill_conservation};
use crate::header::TextEncoding;

verus! {

/// One overflow page of a chain, with the number of the page it was read
/// from.
#[derive(Debug, Clone, PartialEq)]
pub struct OverflowNode {
    pub page: OverflowPage,
    pub page_num: usize,
}

/// One node of a materialized b-tree: the decoded page, its number, its
/// child nodes in traversal order, and the overflow chains of its cells,
/// flattened in traversal order.
#[derive(Debug, PartialEq)]
pub struct BTreeNode {
    pub page: Page,
    pub page_num: usize,
    pub children: Option<Vec<BTreeNode>>,
    pub overflow: Option<Vec<OverflowNode>>,
}

/// A named b-tree of the database: its schema type, its name, and its
/// materialized root node.
#[derive(Debug, PartialEq)]
pub struct BTree {
    pub ttype: String,
    pub name: String,
    pub root: BTreeNode,
}

/// The columns of a schema-table row, in record order.
#[derive(Debug, Clone, Copy, PartialEq, Eq, Structural)]
pub enum Schema {
    Type,
    Name,
    TableName,
    RootPage,
    SQL,
}

impl Schema {
    /// The index of the column within a schema row.
    pub fn column_index(&self) -> (r: usize)
        ensures
            r == match *self {
                Schema::Type => 0int,
                Schema::Name => 1int,
                Schema::TableName => 2int,
                Schema::RootPage => 3int,
                Schema::SQL => 4int,
            },
    {
        match self {
            Schema::Type => 0,
            Schema::Name => 1,
            Schema::TableName => 2,
            Schema::RootPage => 3,
            Schema::SQL => 4,
        }
    }
}

/// The root of a materialized node was decoded from the page it names:
/// the page number is in range and the page decodes from its window.
pub open spec fn node_root_ok(rd: Reader, page_num: int, node: BTreeNode) -> bool {
    &&& node.page_num == page_num
    &&& 1 <= page_num <= rd.pages_total_spec()
    &&& rd.page_in_bounds(page_num)
    &&& page_ok(rd.db_header, page_num, rd.page_window(page_num), node.page)
}

/// Every node of a materialized tree was decoded from the page it names,
/// its overflow pages lie within the database, and the same holds of the
/// children, recursively.
pub open spec fn subtree_wf(rd: Reader, node: BTreeNode) -> bool
    decreases node,
{
    &&& node_root_ok(rd, node.page_num as int, node)
    &&& (node.overflow matches Some(os) ==> forall|i: int|
        0 <= i < os@.len() ==> 1 <= (#[trigger] os@[i]).page_num <= rd.pages_total_spec())
    &&& (node.children matches Some(cs) ==> forall|i: int|
        0 <= i < cs@.len() ==> subtree_wf(rd, #[trigger] cs@[i]))
}

/// The left-child pointer a cell carries, if its variant has one.
pub open spec fn cell_left(c: Cell) -> Option<int> {
    match c {
        Cell::TableInterior(t) => Some(t.left_page_number as int),
        Cell::IndexInterior(t) => Some(t.left_page_number as int),
        _ => None,
    }
}

/// The overflow descriptor a cell carries, if any; a table-interior cell
/// never overflows.
pub open spec fn cell_overflow_of(c: Cell) -> Option<CellOverflow> {
    match c {
        Cell::TableLeaf(t) => t.overflow,
        Cell::IndexLeaf(t) => t.overflow,
        Cell::IndexInterior(t) => t.overflow,
        Cell::TableInterior(_) => None,
    }
}

/// The left-child pointers of a cell list, in cell order.
pub open spec fn lefts_of(cells: Seq<Cell>) -> Seq<int>
    decreases cells.len(),
{
    if cells.len() == 0 {
        Seq::empty()
    } else {
        match cell_left(cells[0]) {
            Some(l) => seq![l] + lefts_of(cells.skip(1)),
            None => lefts_of(cells.skip(1)),
        }
    }
}

/// Every child page a decoded page names, in traversal order: each
/// interior cell's left pointer, then the right-most pointer when the
/// page is interior.
pub open spec fn expected_children(pg: Page) -> Seq<int> {
    lefts_of(pg.cells@) + (match pg.page_header.page_num {
        Some(rp) => seq![rp as int],
        None => Seq::empty(),
    })
}

/// The page numbers of a node's children, in order.
pub open spec fn child_pages(node: BTreeNode) -> Seq<int> {
    match node.children {
        Some(cs) => cs@.map_values(|c: BTreeNode| c.page_num as int),
        None => Seq::empty(),
    }
}

/// The overflow list of a node, flattened out of its option.
pub open spec fn overflow_pages(node: BTreeNode) -> Seq<OverflowNode> {
    match node.overflow {
        Some(os) => os@,
        None => Seq::empty(),
    }
}

/// Extending a cell prefix by one cell extends its left pointers by that
/// cell's pointer, if it has one.
proof fn lemma_lefts_take_step(cells: Seq<Cell>, i: int)
    requires
        0 <= i < cells.len(),
    ensures
        lefts_of(cells.take(i + 1)) == lefts_of(cells.take(i)) + (match cell_left(cells[i]) {
            Some(l) => seq![l],
            None => Seq::<int>::empty(),
        }),
    decreases i,
{
    if i == 0 {
        assert(cells.take(1)[0] == cells[0]);
        assert(cells.take(1).skip(1) =~= Seq::<Cell>::empty());
        assert(cells.take(0) =~= Seq::<Cell>::empty());
        assert(lefts_of(cells.take(i + 1)) =~= lefts_of(cells.take(i)) + (match cell_left(
            cells[i],
        ) {
            Some(l) => seq![l],
            None => Seq::<int>::empty(),
        }));
    } else {
        lemma_lefts_take_step(cells.skip(1), i - 1);
        assert(cells.take(i + 1)[0] == cells[0]);
        assert(cells.take(i)[0] == cells[0]);
        assert(cells.take(i + 1).skip(1) =~= cells.skip(1).take(i));
        assert(cells.take(i).skip(1) =~= cells.skip(1).take(i - 1));
        assert(cells.skip(1)[i - 1] == cells[i]);
        match cell_left(cells[0]) {
            Some(l) => {
                assert(lefts_of(cells.take(i + 1)) =~= lefts_of(cells.take(i)) + (
                match cell_left(cells[i]) {
                    Some(l2) => seq![l2],
                    None => Seq::<int>::empty(),
                }));
            },
            None => {},
        }
    }
}

/// The flattened overflow lists of a cell list, in cell order: a spilling
/// cell contributes its decoded chain, or nothing when its chain does not
/// decode (failed chains are skipped); other cells contribute nothing.
pub open spec fn overflow_flatten_ok(rd: Reader, cells: Seq<Cell>, list: Seq<OverflowNode>) -> bool
    decreases cells.len(),
{
    if cells.len() == 0 {
        list.len() == 0
    } else {
        match cell_overflow_of(cells[0]) {
            None => overflow_flatten_ok(rd, cells.skip(1), list),
            Some(o) => (exists|k: int|
                0 <= k <= list.len() && #[trigger] chain_pages_ok(
                    rd,
                    o.units@,
                    o.page as int,
                    list.take(k),
                ) && overflow_flatten_ok(rd, cells.skip(1), list.skip(k))) || overflow_flatten_ok(
                rd,
                cells.skip(1),
                list,
            ),
        }
    }
}

/// A cell without an overflow descriptor contributes nothing to the
/// flattened overflow list.
proof fn lemma_flatten_none(rd: Reader, cells: Seq<Cell>, i: int, list: Seq<OverflowNode>)
    requires
        0 <= i < cells.len(),
        cell_overflow_of(cells[i]) is None,
    ensures
        forall|t: Seq<OverflowNode>|
            #[trigger] overflow_flatten_ok(rd, cells.skip(i + 1), t) ==> overflow_flatten_ok(
                rd,
                cells.skip(i),
                t,
            ),
{
    assert forall|t: Seq<OverflowNode>|
        #[trigger] overflow_flatten_ok(rd, cells.skip(i + 1), t) implies overflow_flatten_ok(
        rd,
        cells.skip(i),
        t,
    ) by {
        assert(cells.skip(i)[0] == cells[i]);
        assert(cells.skip(i).skip(1) =~= cells.skip(i + 1));
    }
}

/// A cell whose chain was walked (or skipped after failing to decode)
/// contributes exactly the walked pages to the flattened list.
proof fn lemma_flatten_extend(
    rd: Reader,
    cells: Seq<Cell>,
    i: int,
    desc: Option<CellOverflow>,
    added: Seq<OverflowNode>,
)
    requires
        0 <= i < cells.len(),
        cell_overflow_of(cells[i]) == desc,
        match desc {
            Some(o) => chain_pages_ok(rd, o.units@, o.page as int, added) || added.len() == 0,
            None => added.len() == 0,
        },
    ensures
        forall|t: Seq<OverflowNode>|
            #[trigger] overflow_flatten_ok(rd, cells.skip(i + 1), t) ==> overflow_flatten_ok(
                rd,
                cells.skip(i),
                added + t,
            ),
{
    assert forall|t: Seq<OverflowNode>|
        #[trigger] overflow_flatten_ok(rd, cells.skip(i + 1), t) implies overflow_flatten_ok(
        rd,
        cells.skip(i),
        added + t,
    ) by {
        assert(cells.skip(i)[0] == cells[i]);
        assert(cells.skip(i).skip(1) =~= cells.skip(i + 1));
        match desc {
            Some(o) => {
                if chain_pages_ok(rd, o.units@, o.page as int, added) {
                    let k = added.len() as int;
                    assert((added + t).take(k) =~= added);
                    assert((added + t).skip(k) =~= t);
                    assert(chain_pages_ok(rd, o.units@, o.page as int, (added + t).take(k)));
                } else {
                    assert(added + t =~= t);
                }
            },
            None => {
                assert(added + t =~= t);
            },
        }
    }
}

/// Two decoded varints carry the same value and byte run.
pub open spec fn varint_like(a: crate::varint::Varint, b: crate::varint::Varint) -> bool {
    a.value == b.value && a.bytes@ == b.bytes@
}

/// Two table-leaf cells carry the same content: varints, record header,
/// column values and overflow descriptor, compared through views.
pub open spec fn tlc_like(a: TableLeafCell, b: TableLeafCell) -> bool {
    &&& varint_like(a.payload_varint, b.payload_varint)
    &&& varint_like(a.rowid_varint, b.rowid_varint)
    &&& varint_like(a.payload.header.size, b.payload.header.size)
    &&& a.payload.header.datatypes@.len() == b.payload.header.datatypes@.len()
    &&& forall|i: int|
        0 <= i < a.payload.header.datatypes@.len() ==> varint_like(
            #[trigger] a.payload.header.datatypes@[i],
            b.payload.header.datatypes@[i],
        )
    &&& a.payload.values@.len() == b.payload.values@.len()
    &&& forall|i: int|
        0 <= i < a.payload.values@.len() ==> rv_like(
            #[trigger] a.payload.values@[i],
            b.payload.values@[i],
        )
    &&& (match (a.overflow, b.overflow) {
        (Some(x), Some(y)) => x.page == y.page && x.units@ == y.units@,
        (None, None) => true,
        _ => false,
    })
}

/// The table-leaf rows of the table b-tree rooted at `page_num`, depth
/// first: for each cell of the root page in order, an interior cell
/// contributes its left subtree's rows and a leaf cell contributes
/// itself; the right-most subtree's rows come last. `fuel` bounds the
/// depth.
pub open spec fn schema_rows_of(
    rd: Reader,
    page_num: int,
    fuel: nat,
    rows: Seq<TableLeafCell>,
) -> bool
    decreases fuel, 1int, 0int,
{
    if fuel == 0 {
        false
    } else {
        &&& node_page_error(rd, page_num) is None
        &&& exists|pg: Page|
            #[trigger] page_ok(rd.db_header, page_num, rd.page_window(page_num), pg)
                && rows_from_cells(rd, pg, 0, fuel, rows)
    }
}

/// The rows contributed by `pg.cells[i..]` and then the right-most
/// subtree, depth first.
pub open spec fn rows_from_cells(
    rd: Reader,
    pg: Page,
    i: int,
    fuel: nat,
    rows: Seq<TableLeafCell>,
) -> bool
    decreases fuel, 0int, pg.cells@.len() - i,
{
    if fuel == 0 {
        false
    } else if i >= pg.cells@.len() {
        match pg.page_header.page_num {
            Some(rp) => schema_rows_of(rd, rp as int, (fuel - 1) as nat, rows),
            None => rows.len() == 0,
        }
    } else if pg.cells@[i] is TableInterior {
        exists|k: int|
            #![trigger rows.take(k), rows.skip(k)]
            0 <= k <= rows.len() && schema_rows_of(
                rd,
                pg.cells@[i]->TableInterior_0.left_page_number as int,
                (fuel - 1) as nat,
                rows.take(k),
            ) && rows_from_cells(rd, pg, i + 1, fuel, rows.skip(k))
    } else if pg.cells@[i] is TableLeaf {
        rows.len() >= 1 && tlc_like(rows[0], pg.cells@[i]->TableLeaf_0) && rows_from_cells(
            rd,
            pg,
            i + 1,
            fuel,
            rows.skip(1),
        )
    } else {
        rows_from_cells(rd, pg, i + 1, fuel, rows)
    }
}

/// An interior cell prepends its left subtree's rows.
proof fn lemma_rows_step_interior(
    rd: Reader,
    pg: Page,
    i: int,
    fuel: nat,
    left: int,
    a: Seq<TableLeafCell>,
    b: Seq<TableLeafCell>,
)
    requires
        fuel >= 1,
        0 <= i < pg.cells@.len(),
        pg.cells@[i] matches Cell::TableInterior(c) && c.left_page_number as int == left,
        schema_rows_of(rd, left, (fuel - 1) as nat, a),
        rows_from_cells(rd, pg, i + 1, fuel, b),
    ensures
        rows_from_cells(rd, pg, i, fuel, a + b),
{
    let k = a.len() as int;
    let c = pg.cells@[i]->TableInterior_0;
    assert(c.left_page_number as int == left);
    assert((a + b).take(k) =~= a);
    assert((a + b).skip(k) =~= b);
    assert(schema_rows_of(rd, c.left_page_number as int, (fuel - 1) as nat, (a + b).take(k)));
    assert(rows_from_cells(rd, pg, i + 1, fuel, (a + b).skip(k)));
}

/// A leaf cell prepends its own row.
proof fn lemma_rows_step_leaf(
    rd: Reader,
    pg: Page,
    i: int,
    fuel: nat,
    row: TableLeafCell,
    b: Seq<TableLeafCell>,
)
    requires
        fuel >= 1,
        0 <= i < pg.cells@.len(),
        pg.cells@[i] matches Cell::TableLeaf(c) && tlc_like(row, c),
        rows_from_cells(rd, pg, i + 1, fuel, b),
    ensures
        rows_from_cells(rd, pg, i, fuel, seq![row] + b),
{
    assert((seq![row] + b)[0] == row);
    assert((seq![row] + b).skip(1) =~= b);
}

/// An index cell contributes no row.
proof fn lemma_rows_step_skip(
    rd: Reader,
    pg: Page,
    i: int,
    fuel: nat,
    b: Seq<TableLeafCell>,
)
    requires
        fuel >= 1,
        0 <= i < pg.cells@.len(),
        !(pg.cells@[i] matches Cell::TableInterior(_)),
        !(pg.cells@[i] matches Cell::TableLeaf(_)),
        rows_from_cells(rd, pg, i + 1, fuel, b),
    ensures
        rows_from_cells(rd, pg, i, fuel, b),
{
}

/// The byte run a decoded column owns, empty when it owns none.
pub open spec fn value_bytes_view(v: RecordValue) -> Seq<u8> {
    match v.bytes {
        Some(b) => b@,
        None => Seq::empty(),
    }
}

/// The gathered byte groups, viewed: one (serial type, bytes) pair per
/// overflow unit.
pub open spec fn groups_view(gs: Seq<(i64, Vec<u8>)>) -> Seq<(i64, Seq<u8>)> {
    gs.map_values(|p: (i64, Vec<u8>)| (p.0, p.1@))
}

/// The stitching rule of the record format: the reassembled value list is
/// the on-page values, each further overflow group decoded whole and
/// appended in order — except that, when the first group continues the
/// last on-page value (`merged`), that value's byte run is concatenated
/// with the group's bytes and the typed value re-derived from the whole.
pub open spec fn stitched_ok(
    enc: TextEncoding,
    vals: Seq<RecordValue>,
    merged: bool,
    groups: Seq<(i64, Seq<u8>)>,
    out: Seq<RecordValue>,
) -> bool {
    if merged && groups.len() > 0 && vals.len() > 0 {
        &&& out.len() == vals.len() + groups.len() - 1
        &&& forall|j: int| 0 <= j < vals.len() - 1 ==> rv_like(#[trigger] out[j], vals[j])
        &&& crate::record::record_value_ok(
            groups[0].0 as int,
            enc,
            value_bytes_view(vals[vals.len() - 1]) + groups[0].1,
            out[vals.len() - 1],
        )
        &&& forall|j: int|
            1 <= j < groups.len() ==> crate::record::record_value_ok(
                groups[j].0 as int,
                enc,
                groups[j].1,
                #[trigger] out[vals.len() - 1 + j],
            )
    } else {
        &&& out.len() == vals.len() + groups.len()
        &&& forall|j: int| 0 <= j < vals.len() ==> rv_like(#[trigger] out[j], vals[j])
        &&& forall|j: int|
            0 <= j < groups.len() ==> crate::record::record_value_ok(
                groups[j].0 as int,
                enc,
                groups[j].1,
                #[trigger] out[vals.len() + j],
            )
    }
}

/// Some gathering of overflow groups explains the reassembled list by
/// the stitching rule.
pub open spec fn stitched_exists(enc: TextEncoding, vals: Seq<RecordValue>, out: Seq<RecordValue>) -> bool {
    exists|groups: Seq<(i64, Seq<u8>)>, merged: bool|
        #[trigger] stitched_ok(enc, vals, merged, groups, out)
}

/// A returned tree stands for a schema row: its root is the page the
/// row's root-page column names, materialized and well formed; for a row
/// without overflow, its name and type are the row's text columns.
pub open spec fn tree_matches_row(rd: Reader, t: BTree, row: TableLeafCell) -> bool {
    &&& 1 <= t.root.page_num <= rd.pages_total_spec()
    &&& node_root_ok(rd, t.root.page_num as int, t.root)
    &&& subtree_wf(rd, t.root)
    &&& (row.overflow is None ==> {
        &&& schema_row_shaped(row.payload.values@)
        &&& t.ttype@ == text_content(row.payload.values@[0].value)
        &&& t.name@ == text_content(row.payload.values@[1].value)
        &&& root_page_of(row.payload.values@[3].value) == Some(t.root.page_num as int)
    })
}

/// The page decodes from its window and is a leaf, so materializing it
/// can neither recurse nor fail.
pub open spec fn leaf_page_decodes(rd: Reader, page_num: int) -> bool {
    &&& rd.window_error(page_num) is None
    &&& page_error(rd.db_header, page_num, rd.page_window(page_num)) is None
    &&& {
        let w = rd.page_window(page_num).skip(page_start(page_num));
        w[0] != 2 && w[0] != 5
    }
}

/// The error materializing a node meets when its own page does not
/// decode, if so: the window error, else the page's decode error.
pub open spec fn node_page_error(rd: Reader, page_num: int) -> Option<ParseError> {
    if rd.window_error(page_num) is Some {
        rd.window_error(page_num)
    } else {
        page_error(rd.db_header, page_num, rd.page_window(page_num))
    }
}

/// The page decodes as a leaf with no cells at all: nothing to collect,
/// nothing to recurse into.
pub open spec fn empty_leaf_page(rd: Reader, page_num: int) -> bool {
    &&& leaf_page_decodes(rd, page_num)
    &&& crate::bytes::be16(rd.page_window(page_num).skip(page_start(page_num)), 3) == 0
}

/// The per-page decode relation of an overflow chain: the first listed
/// page decodes from the window of `first` with `units` pending; each
/// later page decodes from the window its predecessor names, with the
/// predecessor's leftover units pending; the last page names 0.
pub open spec fn chain_pages_ok(
    rd: Reader,
    units: Seq<OverflowUnit>,
    first: int,
    list: Seq<OverflowNode>,
) -> bool
    decreases list.len(),
{
    if list.len() == 0 {
        false
    } else {
        &&& list[0].page_num == first
        &&& rd.window_error(first) is None
        &&& list[0].page.next_page == crate::bytes::be32(rd.page_window(first), 0)
        &&& crate::overflow::overflow_data_ok(
            rd.db_header.text_encoding,
            units,
            rd.page_window(first).skip(4),
            list[0].page.data@,
            list[0].page.overflow_units@,
        )
        &&& if list.len() == 1 {
            list[0].page.next_page == 0
        } else {
            chain_pages_ok(
                rd,
                list[0].page.overflow_units@,
                list[0].page.next_page as int,
                list.skip(1),
            )
        }
    }
}

/// A walked prefix of an overflow chain: like `chain_pages_ok`, but open
/// ended — after the listed pages, `pending` units are left and `next` is
/// the page still to visit.
spec fn chain_prefix_ok(
    rd: Reader,
    units: Seq<OverflowUnit>,
    first: int,
    list: Seq<OverflowNode>,
    pending: Seq<OverflowUnit>,
    next: int,
) -> bool
    decreases list.len(),
{
    if list.len() == 0 {
        pending == units && next == first
    } else {
        &&& list[0].page_num == first
        &&& rd.window_error(first) is None
        &&& list[0].page.next_page == crate::bytes::be32(rd.page_window(first), 0)
        &&& crate::overflow::overflow_data_ok(
            rd.db_header.text_encoding,
            units,
            rd.page_window(first).skip(4),
            list[0].page.data@,
            list[0].page.overflow_units@,
        )
        &&& chain_prefix_ok(
            rd,
            list[0].page.overflow_units@,
            list[0].page.next_page as int,
            list.skip(1),
            pending,
            next,
        )
    }
}

/// Extending a walked prefix by the page it was about to visit.
proof fn lemma_chain_prefix_push(
    rd: Reader,
    units: Seq<OverflowUnit>,
    first: int,
    list: Seq<OverflowNode>,
    pending: Seq<OverflowUnit>,
    next: int,
    node: OverflowNode,
)
    requires
        chain_prefix_ok(rd, units, first, list, pending, next),
        node.page_num == next,
        rd.window_error(next) is None,
        node.page.next_page == crate::bytes::be32(rd.page_window(next), 0),
        crate::overflow::overflow_data_ok(
            rd.db_header.text_encoding,
            pending,
            rd.page_window(next).skip(4),
            node.page.data@,
            node.page.overflow_units@,
        ),
    ensures
        chain_prefix_ok(
            rd,
            units,
            first,
            list.push(node),
            node.page.overflow_units@,
            node.page.next_page as int,
        ),
    decreases list.len(),
{
    if list.len() == 0 {
        assert(list.push(node)[0] == node);
        assert(list.push(node).skip(1) =~= Seq::<OverflowNode>::empty());
        assert(chain_prefix_ok(
            rd,
            node.page.overflow_units@,
            node.page.next_page as int,
            list.push(node).skip(1),
            node.page.overflow_units@,
            node.page.next_page as int,
        ));
    } else {
        assert(list.push(node)[0] == list[0]);
        assert(list.push(node).skip(1) =~= list.skip(1).push(node));
        lemma_chain_prefix_push(
            rd,
            list[0].page.overflow_units@,
            list[0].page.next_page as int,
            list.skip(1),
            pending,
            next,
            node,
        );
        assert(chain_prefix_ok(
            rd,
            list[0].page.overflow_units@,
            list[0].page.next_page as int,
            list.push(node).skip(1),
            node.page.overflow_units@,
            node.page.next_page as int,
        ));
    }
}

/// A walked prefix whose next pointer is 0 is a whole chain.
proof fn lemma_chain_close(
    rd: Reader,
    units: Seq<OverflowUnit>,
    first: int,
    list: Seq<OverflowNode>,
    pending: Seq<OverflowUnit>,
)
    requires
        chain_prefix_ok(rd, units, first, list, pending, 0),
        list.len() >= 1,
    ensures
        chain_pages_ok(rd, units, first, list),
    decreases list.len(),
{
    if list.len() == 1 {
        assert(list.skip(1).len() == 0);
        assert(chain_prefix_ok(
            rd,
            list[0].page.overflow_units@,
            list[0].page.next_page as int,
            list.skip(1),
            pending,
            0,
        ));
        assert(list[0].page.next_page as int == 0);
        assert(list[0].page.next_page == 0);
    } else {
        assert(list.skip(1).len() >= 1);
        lemma_chain_close(
            rd,
            list[0].page.overflow_units@,
            list[0].page.next_page as int,
            list.skip(1),
            pending,
        );
        assert(chain_pages_ok(
            rd,
            list[0].page.overflow_units@,
            list[0].page.next_page as int,
            list.skip(1),
        ));
    }
}

/// The chain starting at page `next` with `units` pending decodes within
/// `fuel` pages: every page window is in bounds, its payload splits across
/// the pending units without error, and the next pointer is 0 or the
/// successor decodes with the leftover units.
pub open spec fn chain_decodes(rd: Reader, units: Seq<OverflowUnit>, next: int, fuel: nat) -> bool
    decreases fuel,
{
    if fuel == 0 {
        false
    } else {
        &&& rd.window_error(next) is None
        &&& crate::overflow::overflow_data_error(
            rd.db_header.text_encoding,
            units,
            rd.page_window(next).skip(4),
        ) is None
        &&& {
            let np = crate::bytes::be32(rd.page_window(next), 0);
            np == 0 || chain_decodes(
                rd,
                crate::overflow::leftover_of(units, rd.page_window(next).skip(4)),
                np,
                (fuel - 1) as nat,
            )
        }
    }
}

/// The bytes captured across the data cuts of a chain of overflow pages.
pub open spec fn chain_data(list: Seq<OverflowNode>) -> int
    decreases list.len(),
{
    if list.len() == 0 {
        0
    } else {
        sum_data(list[0].page.data@) + chain_data(list.skip(1))
    }
}

/// The textual content of a column value: the characters of a text
/// column, empty for anything else.
pub open spec fn text_content(v: RecordType) -> Seq<char> {
    match v {
        RecordType::Text(ot) => match ot {
            Some(t) => t@,
            None => Seq::empty(),
        },
        _ => Seq::empty(),
    }
}

/// The page number an integer column value names, if it is one of the
/// integer serial types.
pub open spec fn root_page_of(v: RecordType) -> Option<int> {
    match v {
        RecordType::I8(x) => Some(x as int),
        RecordType::I16(x) => Some(x as int),
        RecordType::I24(x) => Some(x as int),
        RecordType::I32(x) => Some(x as int),
        RecordType::I48(x) => Some(x as int),
        RecordType::I64(x) => Some(x as int),
        _ => None,
    }
}

/// A schema row has the shape the materializer needs: at least the four
/// leading columns, text type and name, and an integer root page.
pub open spec fn schema_row_shaped(vals: Seq<RecordValue>) -> bool {
    &&& vals.len() >= 4
    &&& vals[0].value matches RecordType::Text(_)
    &&& vals[1].value matches RecordType::Text(_)
    &&& root_page_of(vals[3].value) is Some
}

/// The error produced when a schema row names a root page outside
/// `1..=pages_total()`.
pub open spec fn root_range_error(rd: Reader, v: int) -> ParseError {
    ParseError::PageOutOfRange {
        page: if v >= 1 {
            v as usize
        } else {
            0
        },
        total: rd.pages_total_spec() as usize,
    }
}

impl BTreeNode {
    /// Materializes the b-tree rooted at `page_num`: decodes the page,
    /// recurses into every left-child pointer and the right-most pointer,
    /// and follows each cell's overflow chain. Traversal depth is bounded
    /// by the page count; a deeper tree is reported as a cycle.
    pub fn new(page_num: usize, reader: &Reader) -> (r: Result<BTreeNode, ParseError>)
        requires
            reader.wf(),
        ensures
            r matches Ok(node) ==> node_root_ok(*reader, page_num as int, node) && subtree_wf(
                *reader,
                node,
            ),
            reader.pages_total_spec() >= 1 && leaf_page_decodes(*reader, page_num as int) ==> r
                is Ok,
            reader.pages_total_spec() >= 1 && node_page_error(*reader, page_num as int)
                is Some ==> r == Err::<BTreeNode, ParseError>(
                node_page_error(*reader, page_num as int)->Some_0,
            ),
    {
        let fuel = reader.pages_total();
        Self::new_with_fuel(page_num, reader, fuel)
    }

    /// Materializes a node with `fuel` bounding the remaining recursion
    /// depth.
    #[verifier::rlimit(100)]
    fn new_with_fuel(page_num: usize, reader: &Reader, fuel: usize) -> (r: Result<
        BTreeNode,
        ParseError,
    >)
        requires
            reader.wf(),
        ensures
            r matches Ok(node) ==> node_root_ok(*reader, page_num as int, node) && subtree_wf(
                *reader,
                node,
            ),
            r matches Ok(node) ==> {
                &&& child_pages(node) == expected_children(node.page)
                &&& (node.children is None <==> expected_children(node.page).len() == 0)
                &&& overflow_flatten_ok(*reader, node.page.cells@, overflow_pages(node))
                &&& (node.overflow is None <==> overflow_pages(node).len() == 0)
            },
            fuel >= 1 && leaf_page_decodes(*reader, page_num as int) ==> r is Ok,
            fuel >= 1 && node_page_error(*reader, page_num as int) is Some ==> r == Err::<
                BTreeNode,
                ParseError,
            >(node_page_error(*reader, page_num as int)->Some_0),
        decreases fuel,
    {
        if fuel == 0 {
            return Err(ParseError::CycleDetected);
        }
        let page = match reader.get_btree_page(page_num) {
            Ok(p) => p,
            Err(e) => {
                return Err(e);
            },
        };
        let ghost pn = page_num as int;
        let ghost w = reader.page_window(pn);
        let mut children: Vec<BTreeNode> = Vec::new();
        let mut overflow: Vec<OverflowNode> = Vec::new();
        let mut i: usize = 0;
        proof {
            assert(children@.map_values(|c: BTreeNode| c.page_num as int) =~= lefts_of(
                page.cells@.take(0),
            ));
            assert forall|t: Seq<OverflowNode>|
                #[trigger] overflow_flatten_ok(*reader, page.cells@.skip(0), t)
                    implies overflow_flatten_ok(*reader, page.cells@, overflow@ + t) by {
                assert(page.cells@.skip(0) =~= page.cells@);
                assert(overflow@ + t =~= t);
            }
        }
        while i < page.cells.len()
            invariant
                reader.wf(),
                fuel >= 1,
                i <= page.cells@.len(),
                pn == page_num as int,
                w == reader.page_window(pn),
                node_page_error(*reader, pn) is None,
                page_ok(reader.db_header, pn, w, page),
                forall|j: int|
                    0 <= j < children@.len() ==> subtree_wf(*reader, #[trigger] children@[j]),
                forall|j: int|
                    0 <= j < overflow@.len() ==> 1 <= (#[trigger] overflow@[j]).page_num
                        <= reader.pages_total_spec(),
                children@.map_values(|c: BTreeNode| c.page_num as int) == lefts_of(
                    page.cells@.take(i as int),
                ),
                forall|t: Seq<OverflowNode>|
                    #[trigger] overflow_flatten_ok(*reader, page.cells@.skip(i as int), t)
                        ==> overflow_flatten_ok(*reader, page.cells@, overflow@ + t),
            decreases page.cells@.len() - i,
        {
            let ghost cells_seq = page.cells@;
            let ghost rest_cells = cells_seq.skip(i as int);
            let ghost overflow_before = overflow@;
            let ghost children_before = children@;
            proof {
                assert(rest_cells[0] == cells_seq[i as int]);
                assert(rest_cells.skip(1) =~= cells_seq.skip(i as int + 1));
                lemma_lefts_take_step(cells_seq, i as int);
                // A cell of an interior variant pins the page type, and
                // with it the tag byte of the page.
                assert(cell_ok(
                    page.page_header.page_type,
                    reader.db_header.text_encoding,
                    reader.db_header.page_size - reader.db_header.reserved_page_space,
                    w.skip(page.cell_pointer.array@[i as int] as int),
                    page.cells@[i as int],
                ));
                assert(page_type_code(page.page_header.page_type) == w.skip(page_start(pn))[0]);
            }
            match &page.cells[i] {
                Cell::TableInterior(cell) => {
                    let child = match Self::new_with_fuel(
                        cell.left_page_number as usize,
                        reader,
                        fuel - 1,
                    ) {
                        Ok(c) => c,
                        Err(e) => {
                            return Err(e);
                        },
                    };
                    children.push(child);
                    proof {
                        assert(children@.map_values(|c: BTreeNode| c.page_num as int)
                            =~= children_before.map_values(|c: BTreeNode| c.page_num as int)
                            + seq![cell.left_page_number as int]);
                        lemma_flatten_none(*reader, cells_seq, i as int, overflow_before);
                        assert forall|t: Seq<OverflowNode>|
                            #[trigger] overflow_flatten_ok(
                                *reader,
                                cells_seq.skip(i as int + 1),
                                t,
                            ) implies overflow_flatten_ok(*reader, cells_seq, overflow@ + t) by {
                            assert(overflow_flatten_ok(*reader, cells_seq.skip(i as int), t));
                        }
                    }
                },
                Cell::TableLeaf(cell) => {
                    Self::extend_overflow(&cell.overflow, reader, &mut overflow);
                    proof {
                        let added = overflow@.skip(overflow_before.len() as int);
                        assert(overflow@ =~= overflow_before + added);
                        lemma_flatten_extend(*reader, cells_seq, i as int, cell.overflow, added);
                        assert forall|t: Seq<OverflowNode>|
                            #[trigger] overflow_flatten_ok(
                                *reader,
                                cells_seq.skip(i as int + 1),
                                t,
                            ) implies overflow_flatten_ok(*reader, cells_seq, overflow@ + t) by {
                            assert(overflow_flatten_ok(
                                *reader,
                                cells_seq.skip(i as int),
                                added + t,
                            ));
                            assert(overflow@ + t =~= overflow_before + (added + t));
                        }
                        assert(lefts_of(cells_seq.take(i as int + 1)) =~= lefts_of(
                            cells_seq.take(i as int),
                        ));
                    }
                },
                Cell::IndexInterior(cell) => {
                    let child = match Self::new_with_fuel(
                        cell.left_page_number as usize,
                        reader,
                        fuel - 1,
                    ) {
                        Ok(c) => c,
                        Err(e) => {
                            return Err(e);
                        },
                    };
                    children.push(child);
                    Self::extend_overflow(&cell.overflow, reader, &mut overflow);
                    proof {
                        assert(children@.map_values(|c: BTreeNode| c.page_num as int)
                            =~= children_before.map_values(|c: BTreeNode| c.page_num as int)
                            + seq![cell.left_page_number as int]);
                        let added = overflow@.skip(overflow_before.len() as int);
                        assert(overflow@ =~= overflow_before + added);
                        lemma_flatten_extend(*reader, cells_seq, i as int, cell.overflow, added);
                        assert forall|t: Seq<OverflowNode>|
                            #[trigger] overflow_flatten_ok(
                                *reader,
                                cells_seq.skip(i as int + 1),
                                t,
                            ) implies overflow_flatten_ok(*reader, cells_seq, overflow@ + t) by {
                            assert(overflow_flatten_ok(
                                *reader,
                                cells_seq.skip(i as int),
                                added + t,
                            ));
                            assert(overflow@ + t =~= overflow_before + (added + t));
                        }
                    }
                },
                Cell::IndexLeaf(cell) => {
                    Self::extend_overflow(&cell.overflow, reader, &mut overflow);
                    proof {
                        let added = overflow@.skip(overflow_before.len() as int);
                        assert(overflow@ =~= overflow_before + added);
                        lemma_flatten_extend(*reader, cells_seq, i as int, cell.overflow, added);
                        assert forall|t: Seq<OverflowNode>|
                            #[trigger] overflow_flatten_ok(
                                *reader,
                                cells_seq.skip(i as int + 1),
                                t,
                            ) implies overflow_flatten_ok(*reader, cells_seq, overflow@ + t) by {
                            assert(overflow_flatten_ok(
                                *reader,
                                cells_seq.skip(i as int),
                                added + t,
                            ));
                            assert(overflow@ + t =~= overflow_before + (added + t));
                        }
                        assert(lefts_of(cells_seq.take(i as int + 1)) =~= lefts_of(
                            cells_seq.take(i as int),
                        ));
                    }
                },
            }
            i = i + 1;
        }
        proof {
            assert(i == page.cells@.len());
            assert(page.cells@.take(i as int) =~= page.cells@);
            assert(page.cells@.skip(i as int).len() == 0);
            assert(overflow_flatten_ok(
                *reader,
                page.cells@.skip(i as int),
                Seq::<OverflowNode>::empty(),
            ));
            assert(overflow@ + Seq::<OverflowNode>::empty() =~= overflow@);
            assert(overflow_flatten_ok(*reader, page.cells@, overflow@));
        }
        let ghost lefts_done = children@.map_values(|c: BTreeNode| c.page_num as int);
        if page.page_header.page_type.is_interior() {
            proof {
                assert(page_type_code(page.page_header.page_type) == w.skip(page_start(pn))[0]);
            }
            // The right-most pointer lives in the page header.
            match page.page_header.page_num {
                Some(right) => {
                    let child = match Self::new_with_fuel(right as usize, reader, fuel - 1) {
                        Ok(c) => c,
                        Err(e) => {
                            return Err(e);
                        },
                    };
                    children.push(child);
                    proof {
                        assert(children@.map_values(|c: BTreeNode| c.page_num as int)
                            =~= lefts_done + seq![right as int]);
                    }
                },
                None => {},
            }
        }
        proof {
            assert(children@.map_values(|c: BTreeNode| c.page_num as int) =~= expected_children(
                page,
            ));
        }
        let children_opt = if children.len() > 0 {
            Some(children)
        } else {
            None
        };
        let overflow_opt = if overflow.len() > 0 {
            Some(overflow)
        } else {
            None
        };
        Ok(BTreeNode { page, page_num, children: children_opt, overflow: overflow_opt })
    }

    /// Follows a cell's overflow chain and appends its pages; a chain that
    /// fails to decode is skipped, leaving the tree itself intact.
    fn extend_overflow(
        cell_overflow: &Option<CellOverflow>,
        reader: &Reader,
        out: &mut Vec<OverflowNode>,
    )
        requires
            reader.wf(),
        ensures
            final(out)@.len() >= old(out)@.len(),
            forall|i: int|
                0 <= i < old(out)@.len() ==> #[trigger] final(out)@[i] == old(out)@[i],
            forall|i: int|
                old(out)@.len() <= i < final(out)@.len() ==> 1 <= (#[trigger] final(out)@[
                    i
                ]).page_num <= reader.pages_total_spec(),
            cell_overflow matches Some(o) ==> chain_pages_ok(
                *reader,
                o.units@,
                o.page as int,
                final(out)@.skip(old(out)@.len() as int),
            ) || final(out)@ == old(out)@,
            cell_overflow is None ==> final(out)@ == old(out)@,
    {
        match cell_overflow {
            Some(o) => {
                let units = OverflowPage::units_suffix(&o.units, 0);
                proof {
                    assert(units@ =~= o.units@);
                }
                match Self::follow_overflow(units, o.page, reader) {
                    Ok(mut nodes) => {
                        let ghost walked = nodes@;
                        let ghost before = out@;
                        out.append(&mut nodes);
                        proof {
                            assert(out@.skip(before.len() as int) =~= walked);
                        }
                    },
                    Err(_) => {},
                }
            },
            None => {},
        }
    }

    /// Walks an overflow chain from `first_page`, splitting the pending
    /// units across its pages, until a page names 0 as its successor.
    ///
    /// The walk visits at most `pages_total()` pages — a longer chain is
    /// reported as a cycle — and on success the last page ends the chain,
    /// each page is in bounds, successive pages follow the next-page
    /// pointers, and the bytes cut across the chain plus the bytes still
    /// owed after it account for every byte the units owed.
    pub fn follow_overflow(units: Vec<OverflowUnit>, first_page: u32, reader: &Reader) -> (r: Result<
        Vec<OverflowNode>,
        ParseError,
    >)
        requires
            reader.wf(),
        ensures
            r matches Ok(list) ==> {
                &&& 1 <= list@.len() <= reader.pages_total_spec()
                &&& list@[list@.len() - 1].page.next_page == 0
                &&& list@[0].page_num == first_page
                &&& forall|i: int|
                    0 <= i < list@.len() ==> 1 <= #[trigger] list@[i].page_num
                        <= reader.pages_total_spec()
                &&& forall|i: int|
                    0 <= i < list@.len() - 1 ==> #[trigger] list@[i + 1].page_num == list@[
                        i
                    ].page.next_page
                &&& chain_data(list@) + sum_units(
                    list@[list@.len() - 1].page.overflow_units@,
                ) == sum_units(units@)
                &&& chain_pages_ok(*reader, units@, first_page as int, list@)
            },
            chain_decodes(
                *reader,
                units@,
                first_page as int,
                reader.pages_total_spec() as nat,
            ) ==> r is Ok,
    {
        let ghost total_units = sum_units(units@);
        let total = reader.pages_total();
        let mut pages: Vec<OverflowNode> = Vec::new();
        let mut pending = units;
        let mut next: u32 = first_page;
        let mut steps: usize = 0;
        loop
            invariant
                reader.wf(),
                total == reader.pages_total_spec(),
                total_units == sum_units(units@),
                steps == pages@.len(),
                steps <= total,
                forall|i: int|
                    0 <= i < pages@.len() ==> 1 <= #[trigger] pages@[i].page_num
                        <= reader.pages_total_spec(),
                forall|i: int|
                    0 <= i < pages@.len() - 1 ==> #[trigger] pages@[i + 1].page_num == pages@[
                        i
                    ].page.next_page,
                pages@.len() > 0 ==> pages@[0].page_num == first_page,
                pages@.len() > 0 ==> pages@[pages@.len() - 1].page.next_page == next,
                pages@.len() > 0 ==> next != 0,
                pages@.len() == 0 ==> next == first_page,
                chain_data(pages@) + sum_units(pending@) == total_units,
                chain_prefix_ok(*reader, units@, first_page as int, pages@, pending@, next as int),
                chain_decodes(
                    *reader,
                    units@,
                    first_page as int,
                    reader.pages_total_spec() as nat,
                ) ==> chain_decodes(*reader, pending@, next as int, (total - steps) as nat),
            decreases total - steps,
        {
            if steps == total {
                return Err(ParseError::CycleDetected);
            }
            let ghost pending_before = pending@;
            proof {
                if chain_decodes(*reader, units@, first_page as int, total as nat) {
                    assert(chain_decodes(*reader, pending@, next as int, (total - steps) as nat));
                }
            }
            let opage = match reader.get_overflow_page(pending, next as usize) {
                Ok(p) => p,
                Err(e) => {
                    return Err(e);
                },
            };
            let next_page = opage.next_page;
            let leftover = OverflowPage::units_suffix(&opage.overflow_units, 0);
            let ghost old_pages = pages@;
            let node = OverflowNode { page: opage, page_num: next as usize };
            pages.push(node);
            steps = steps + 1;
            proof {
                assert(pages@ =~= old_pages.push(node));
                lemma_chain_data_push(old_pages, node);
                assert(pages@[pages@.len() - 1] == node);
                assert(forall|i: int|
                    0 <= i < old_pages.len() ==> #[trigger] pages@[i] == old_pages[i]);
                assert(sum_data(node.page.data@) + sum_units(node.page.overflow_units@)
                    == sum_units(pending_before));
                assert(node.page.overflow_units@.skip(0) =~= node.page.overflow_units@);
                assert(leftover@ == node.page.overflow_units@);
                assert(chain_data(pages@) + sum_units(leftover@) == total_units);
                assert forall|i: int| 0 <= i < pages@.len() - 1 implies #[trigger] pages@[
                    i + 1
                ].page_num == pages@[i].page.next_page by {
                    if i < old_pages.len() - 1 {
                        assert(old_pages[i + 1].page_num == old_pages[i].page.next_page);
                    } else {
                        assert(pages@[i + 1] == node);
                        assert(pages@[i] == old_pages[old_pages.len() - 1]);
                    }
                }
                lemma_chain_prefix_push(
                    *reader,
                    units@,
                    first_page as int,
                    old_pages,
                    pending_before,
                    next as int,
                    node,
                );
                crate::overflow::lemma_leftover_determined(
                    reader.db_header.text_encoding,
                    pending_before,
                    reader.page_window(next as int).skip(4),
                    node.page.data@,
                    node.page.overflow_units@,
                );
                if chain_decodes(*reader, units@, first_page as int, total as nat) {
                    assert(chain_decodes(
                        *reader,
                        pending_before,
                        next as int,
                        (total - steps + 1) as nat,
                    ));
                }
            }
            if next_page == 0 {
                proof {
                    lemma_chain_close(
                        *reader,
                        units@,
                        first_page as int,
                        pages@,
                        leftover@,
                    );
                }
                return Ok(pages);
            }
            pending = leftover;
            next = next_page;
        }
    }
}

/// After a completed overflow walk, the record is whole again: when the
/// chain leaves no unit unsatisfied, the header and column bytes kept on
/// the page plus the bytes cut across the chain add up to the declared
/// payload size.
pub proof fn lemma_walk_completes_payload(
    enc: TextEncoding,
    codes: Seq<int>,
    rest: Seq<u8>,
    vals: Seq<RecordValue>,
    hl: int,
    p: int,
    chain: Seq<OverflowNode>,
    leftover: Seq<OverflowUnit>,
)
    requires
        values_ok(enc, codes, rest, vals),
        rest.len() <= usize::MAX,
        p == hl + sum_sizes(codes),
        sum_sizes(codes) >= rest.len(),
        chain_data(chain) + sum_units(leftover) == sum_units(spec_units(codes, vals)),
        leftover.len() == 0,
    ensures
        hl + rest.len() + chain_data(chain) == p,
{
    lemma_spill_conservation(enc, codes, rest, vals, hl, p);
}

/// Appending one page to a chain adds exactly its cut bytes.
proof fn lemma_chain_data_push(list: Seq<OverflowNode>, node: OverflowNode)
    ensures
        chain_data(list.push(node)) == chain_data(list) + sum_data(node.page.data@),
    decreases list.len(),
{
    if list.len() == 0 {
        assert(list.push(node).skip(1) =~= Seq::<OverflowNode>::empty());
        assert(list.push(node)[0] == node);
        assert(list.push(node).len() == 1);
        assert(chain_data(list.push(node).skip(1)) == 0);
        assert(chain_data(list.push(node)) == sum_data(list.push(node)[0].page.data@)
            + chain_data(list.push(node).skip(1)));
        assert(chain_data(list) == 0);
    } else {
        assert(list.push(node).skip(1) =~= list.skip(1).push(node));
        assert(list.push(node)[0] == list[0]);
        lemma_chain_data_push(list.skip(1), node);
    }
}

impl BTree {
    /// Builds the named b-tree a schema row describes: stitches the row's
    /// payload back together when it spills, then reads its name, type and
    /// root page and materializes the tree.
    pub fn new(cell: &TableLeafCell, reader: &Reader) -> (r: Result<BTree, ParseError>)
        requires
            reader.wf(),
        ensures
            r matches Ok(bt) ==> 1 <= bt.root.page_num <= reader.pages_total_spec()
                && node_root_ok(*reader, bt.root.page_num as int, bt.root) && subtree_wf(
                *reader,
                bt.root,
            ),
            r matches Ok(bt) ==> cell.overflow is None ==> {
                &&& schema_row_shaped(cell.payload.values@)
                &&& bt.ttype@ == text_content(cell.payload.values@[0].value)
                &&& bt.name@ == text_content(cell.payload.values@[1].value)
                &&& root_page_of(cell.payload.values@[3].value) == Some(bt.root.page_num as int)
            },
            cell.overflow is None && !schema_row_shaped(cell.payload.values@) ==> r == Err::<
                BTree,
                ParseError,
            >(ParseError::SchemaMismatch),
            cell.overflow is None && schema_row_shaped(cell.payload.values@) && !(1
                <= root_page_of(cell.payload.values@[3].value)->Some_0
                <= reader.pages_total_spec()) ==> r == Err::<BTree, ParseError>(
                root_range_error(
                    *reader,
                    root_page_of(cell.payload.values@[3].value)->Some_0,
                ),
            ),
            cell.overflow is None && schema_row_shaped(cell.payload.values@) && 1 <= root_page_of(
                cell.payload.values@[3].value,
            )->Some_0 <= reader.pages_total_spec() && leaf_page_decodes(
                *reader,
                root_page_of(cell.payload.values@[3].value)->Some_0,
            ) ==> r is Ok,
            r matches Ok(bt) ==> cell.overflow is Some ==> exists|vs: Seq<RecordValue>|
                {
                    &&& #[trigger] stitched_exists(
                        reader.db_header.text_encoding,
                        cell.payload.values@,
                        vs,
                    )
                    &&& schema_row_shaped(vs)
                    &&& bt.ttype@ == text_content(vs[0].value)
                    &&& bt.name@ == text_content(vs[1].value)
                    &&& root_page_of(vs[3].value) == Some(bt.root.page_num as int)
                },
    {
        match &cell.overflow {
            Some(overflow) => {
                let values = match Self::follow_overflow(
                    &cell.payload,
                    &overflow.units,
                    overflow.page,
                    reader,
                ) {
                    Ok(vs) => vs,
                    Err(e) => {
                        return Err(e);
                    },
                };
                Self::parse_tree(&values, reader)
            },
            None => Self::parse_tree(&cell.payload.values, reader),
        }
    }

    /// Reunites a spilled schema row with its overflow chain: the last
    /// on-page value of a partially captured column is merged with the
    /// chain's continuation of it (byte runs concatenated, typed value
    /// re-derived); every further unit's bytes are gathered across the
    /// chain and decoded whole.
    fn follow_overflow(
        record: &Record,
        units: &Vec<OverflowUnit>,
        first_page: u32,
        reader: &Reader,
    ) -> (r: Result<Vec<RecordValue>, ParseError>)
        requires
            reader.wf(),
        ensures
            r matches Ok(vs) ==> vs@.len() >= record.values@.len(),
            r matches Ok(vs) ==> stitched_exists(
                reader.db_header.text_encoding,
                record.values@,
                vs@,
            ),
    {
        let enc = reader.db_header.text_encoding;

        // Does the first unit continue the last on-page value?
        let vals_n = record.values.len();
        let codes_n = record.header.datatypes.len();
        let merge_first: bool = if vals_n > 0 && vals_n <= codes_n && units.len() > 0 {
            let declared = RecordCode::size(record.header.datatypes[vals_n - 1].value);
            let captured = match &record.values[vals_n - 1].bytes {
                Some(b) => b.len(),
                None => 0,
            };
            captured < declared
        } else {
            false
        };

        // Gather the bytes of each unit across the chain: one group per
        // unit, in order.
        let mut groups: Vec<(i64, Vec<u8>)> = Vec::new();
        let mut open_group: bool = false;
        let total = reader.pages_total();
        let mut pending = OverflowPage::units_suffix(units, 0);
        let mut next: u32 = first_page;
        let mut steps: usize = 0;
        loop
            invariant
                reader.wf(),
                total == reader.pages_total_spec(),
                steps <= total,
            decreases total - steps,
        {
            if steps == total {
                return Err(ParseError::CycleDetected);
            }
            let codes = Self::unit_codes(&pending);
            let opage = match reader.get_overflow_page(pending, next as usize) {
                Ok(p) => p,
                Err(e) => {
                    return Err(e);
                },
            };
            let mut k: usize = 0;
            while k < opage.data.len()
                invariant
                    0 <= k,
                decreases opage.data@.len() - k,
            {
                let piece = crate::record::copy_vec(&opage.data[k].bytes);
                let code: i64 = if k < codes.len() {
                    codes[k]
                } else {
                    0
                };
                if k == 0 && open_group && groups.len() > 0 {
                    let last = groups.len() - 1;
                    Self::append_group(&mut groups, last, piece);
                } else {
                    groups.push((code, piece));
                }
                k = k + 1;
            }
            open_group = opage.overflow_units.len() > 0;
            steps = steps + 1;
            if opage.next_page == 0 {
                break ;
            }
            pending = OverflowPage::units_suffix(&opage.overflow_units, 0);
            next = opage.next_page;
        }

        // Rebuild the flat value list: the on-page values, with the first
        // group merged into the last of them when it continues a column.
        let ghost vals = record.values@;
        let ghost gs0 = groups_view(groups@);
        let mut out: Vec<RecordValue> = Vec::new();
        let mut i: usize = 0;
        while i < record.values.len()
            invariant
                out@.len() == i,
                i <= record.values@.len(),
                vals == record.values@,
                forall|j: int| 0 <= j < i ==> rv_like(#[trigger] out@[j], vals[j]),
            decreases record.values@.len() - i,
        {
            out.push(record.values[i].duplicate());
            i = i + 1;
        }
        let mut g: usize = 0;
        let ghost did_merge = merge_first && gs0.len() > 0 && vals.len() > 0;
        if merge_first && groups.len() > 0 && out.len() > 0 {
            let (code, group_bytes) = Self::take_group(&mut groups);
            proof {
                assert(code == gs0[0].0 && group_bytes@ == gs0[0].1);
                assert(groups_view(groups@) =~= gs0.skip(1));
            }
            let last_value = match out.pop() {
                Some(v) => v,
                None => {
                    return Err(ParseError::SchemaMismatch);
                },
            };
            proof {
                assert(rv_like(last_value, vals[vals.len() - 1]));
            }
            let mut merged_bytes = match last_value.bytes {
                Some(b) => b,
                None => Vec::new(),
            };
            proof {
                assert(merged_bytes@ == value_bytes_view(vals[vals.len() - 1]));
            }
            let mut tail_bytes = group_bytes;
            merged_bytes.append(&mut tail_bytes);
            proof {
                assert(merged_bytes@ == value_bytes_view(vals[vals.len() - 1]) + gs0[0].1);
            }
            let value = match RecordValue::new(code, enc, merged_bytes.as_slice()) {
                Ok(v) => v,
                Err(e) => {
                    return Err(e);
                },
            };
            out.push(value);
            proof {
                assert(out@.len() == vals.len());
                assert(out@[vals.len() - 1] == value);
                assert(crate::record::record_value_ok(
                    gs0[0].0 as int,
                    enc,
                    value_bytes_view(vals[vals.len() - 1]) + gs0[0].1,
                    out@[vals.len() - 1],
                ));
            }
        }
        let ghost out0 = out@;
        let ghost gtail = groups_view(groups@);
        proof {
            if did_merge {
                assert(gtail =~= gs0.skip(1));
            } else {
                assert(gtail =~= gs0);
            }
        }
        while g < groups.len()
            invariant
                g <= groups@.len(),
                gtail == groups_view(groups@),
                vals == record.values@,
                enc == reader.db_header.text_encoding,
                out0.len() == vals.len(),
                out@.len() == out0.len() + g,
                did_merge ==> vals.len() > 0 && gs0.len() > 0 && gtail == gs0.skip(1) && (
                forall|j: int| 0 <= j < vals.len() - 1 ==> rv_like(#[trigger] out0[j], vals[j]))
                    && crate::record::record_value_ok(
                    gs0[0].0 as int,
                    enc,
                    value_bytes_view(vals[vals.len() - 1]) + gs0[0].1,
                    out0[vals.len() - 1],
                ),
                !did_merge ==> gtail == gs0 && (forall|j: int|
                    0 <= j < vals.len() ==> rv_like(#[trigger] out0[j], vals[j])),
                forall|j: int| 0 <= j < out0.len() ==> #[trigger] out@[j] == out0[j],
                forall|j: int|
                    0 <= j < g ==> crate::record::record_value_ok(
                        gtail[j].0 as int,
                        enc,
                        gtail[j].1,
                        #[trigger] out@[out0.len() + j],
                    ),
            decreases groups@.len() - g,
        {
            let code = groups[g].0;
            let bytes = crate::record::copy_vec(&groups[g].1);
            proof {
                assert(gtail[g as int].0 == code && gtail[g as int].1 == bytes@);
            }
            let value = match RecordValue::new(code, enc, bytes.as_slice()) {
                Ok(v) => v,
                Err(e) => {
                    return Err(e);
                },
            };
            out.push(value);
            g = g + 1;
        }
        proof {
            if did_merge {
                assert(out@.len() == vals.len() + gs0.len() - 1);
                assert forall|j: int| 1 <= j < gs0.len() implies crate::record::record_value_ok(
                    gs0[j].0 as int,
                    enc,
                    gs0[j].1,
                    #[trigger] out@[vals.len() - 1 + j],
                ) by {
                    assert(gtail[j - 1] == gs0[j]);
                    assert(out@[out0.len() + (j - 1)] == out@[vals.len() - 1 + j]);
                }
            }
            assert(stitched_ok(enc, vals, did_merge, gs0, out@));
            assert(stitched_ok(
                reader.db_header.text_encoding,
                record.values@,
                did_merge,
                gs0,
                out@,
            ));
            assert(stitched_exists(reader.db_header.text_encoding, record.values@, out@));
        }
        Ok(out)
    }

    /// The serial-type codes of a unit list, in order.
    fn unit_codes(units: &Vec<OverflowUnit>) -> (r: Vec<i64>)
        ensures
            r@.len() == units@.len(),
            forall|i: int| 0 <= i < units@.len() ==> #[trigger] r@[i] == units@[i].overflow_type,
    {
        let mut out: Vec<i64> = Vec::new();
        let mut i: usize = 0;
        while i < units.len()
            invariant
                i <= units@.len(),
                out@.len() == i,
                forall|j: int| 0 <= j < i ==> #[trigger] out@[j] == units@[j].overflow_type,
            decreases units@.len() - i,
        {
            out.push(units[i].overflow_type);
            i = i + 1;
        }
        out
    }

    /// Appends bytes to the group at `idx`.
    fn append_group(groups: &mut Vec<(i64, Vec<u8>)>, idx: usize, mut bytes: Vec<u8>)
        requires
            idx < old(groups)@.len(),
    {
        let (code, mut existing) = groups.remove(idx);
        existing.append(&mut bytes);
        groups.insert(idx, (code, existing));
    }

    /// Removes and returns the first group.
    fn take_group(groups: &mut Vec<(i64, Vec<u8>)>) -> (r: (i64, Vec<u8>))
        requires
            old(groups)@.len() > 0,
        ensures
            r == old(groups)@[0],
            final(groups)@ == old(groups)@.skip(1),
    {
        let r = groups.remove(0);
        proof {
            assert(groups@ =~= old(groups)@.skip(1));
        }
        r
    }

    /// Reads a schema row's type, name and root page and materializes the
    /// tree rooted there. A row without the expected shape is a schema
    /// mismatch; a root page outside `1..=pages_total()` is out of range.
    fn parse_tree(values: &Vec<RecordValue>, reader: &Reader) -> (r: Result<BTree, ParseError>)
        requires
            reader.wf(),
        ensures
            r matches Ok(bt) ==> {
                &&& schema_row_shaped(values@)
                &&& bt.ttype@ == text_content(values@[0].value)
                &&& bt.name@ == text_content(values@[1].value)
                &&& root_page_of(values@[3].value) == Some(bt.root.page_num as int)
                &&& 1 <= bt.root.page_num <= reader.pages_total_spec()
                &&& node_root_ok(*reader, bt.root.page_num as int, bt.root)
                &&& subtree_wf(*reader, bt.root)
            },
            !schema_row_shaped(values@) ==> r == Err::<BTree, ParseError>(
                ParseError::SchemaMismatch,
            ),
            schema_row_shaped(values@) && !(1 <= root_page_of(values@[3].value)->Some_0
                <= reader.pages_total_spec()) ==> r == Err::<BTree, ParseError>(
                root_range_error(*reader, root_page_of(values@[3].value)->Some_0),
            ),
            schema_row_shaped(values@) && 1 <= root_page_of(values@[3].value)->Some_0
                <= reader.pages_total_spec() && leaf_page_decodes(
                *reader,
                root_page_of(values@[3].value)->Some_0,
            ) ==> r is Ok,
    {
        if values.len() < 4 {
            return Err(ParseError::SchemaMismatch);
        }
        let ttype: String = match &values[0].value {
            RecordType::Text(ot) => match ot {
                Some(t) => t.clone(),
                None => String::new(),
            },
            _ => {
                return Err(ParseError::SchemaMismatch);
            },
        };
        let name: String = match &values[1].value {
            RecordType::Text(ot) => match ot {
                Some(t) => t.clone(),
                None => String::new(),
            },
            _ => {
                return Err(ParseError::SchemaMismatch);
            },
        };
        let root_page: i64 = match &values[3].value {
            RecordType::I8(v) => *v as i64,
            RecordType::I16(v) => *v as i64,
            RecordType::I24(v) => *v as i64,
            RecordType::I32(v) => *v as i64,
            RecordType::I48(v) => *v,
            RecordType::I64(v) => *v,
            _ => {
                return Err(ParseError::SchemaMismatch);
            },
        };
        let total = reader.pages_total();
        if root_page < 1 || (root_page as u64) > (total as u64) {
            let page: usize = if root_page >= 1 {
                #[verifier::truncate] (root_page as usize)
            } else {
                0
            };
            return Err(ParseError::PageOutOfRange { page, total });
        }
        let root = match BTreeNode::new(root_page as usize, reader) {
            Ok(n) => n,
            Err(e) => {
                return Err(e);
            },
        };
        Ok(BTree { ttype, name, root })
    }
}

impl Reader {
    /// Collects the table-leaf cells of the table b-tree rooted at
    /// `page_num`, in traversal order, appending them to `cells`.
    #[verifier::rlimit(100)]
    fn collect_cells(
        &self,
        page_num: usize,
        cells: &mut Vec<TableLeafCell>,
        fuel: usize,
    ) -> (r: Result<(), ParseError>)
        requires
            self.wf(),
        ensures
            old(cells)@.len() <= final(cells)@.len(),
            old(cells)@ == final(cells)@.take(old(cells)@.len() as int),
            fuel >= 1 && empty_leaf_page(*self, page_num as int) ==> r is Ok && final(cells)@
                == old(cells)@,
            r is Ok ==> schema_rows_of(
                *self,
                page_num as int,
                fuel as nat,
                final(cells)@.skip(old(cells)@.len() as int),
            ),
            fuel >= 1 && node_page_error(*self, page_num as int) is Some ==> r == Err::<
                (),
                ParseError,
            >(node_page_error(*self, page_num as int)->Some_0),
        decreases fuel,
    {
        if fuel == 0 {
            return Err(ParseError::CycleDetected);
        }
        let page = match self.get_btree_page(page_num) {
            Ok(p) => p,
            Err(e) => {
                return Err(e);
            },
        };
        proof {
            if empty_leaf_page(*self, page_num as int) {
                assert(page.cells@.len() == 0);
                assert(!is_interior_spec(page.page_header.page_type)) by {
                    assert(page_type_code(page.page_header.page_type) == self.page_window(
                        page_num as int,
                    ).skip(page_start(page_num as int))[0]);
                }
            }
        }
        let ghost entry = cells@;
        let ghost pn = page_num as int;
        let mut i: usize = 0;
        proof {
            assert(cells@.skip(entry.len() as int) =~= Seq::<TableLeafCell>::empty());
            assert forall|b: Seq<TableLeafCell>|
                #[trigger] rows_from_cells(*self, page, 0, fuel as nat, b)
                    implies rows_from_cells(
                    *self,
                    page,
                    0,
                    fuel as nat,
                    cells@.skip(entry.len() as int) + b,
                ) by {
                assert(cells@.skip(entry.len() as int) + b =~= b);
            }
        }
        while i < page.cells.len()
            invariant
                self.wf(),
                fuel >= 1,
                i <= page.cells@.len(),
                pn == page_num as int,
                entry == old(cells)@,
                entry.len() <= cells@.len(),
                entry == cells@.take(entry.len() as int),
                node_page_error(*self, pn) is None,
                page_ok(self.db_header, pn, self.page_window(pn), page),
                empty_leaf_page(*self, page_num as int) ==> page.cells@.len() == 0 && cells@
                    == entry && !is_interior_spec(page.page_header.page_type),
                forall|b: Seq<TableLeafCell>|
                    #[trigger] rows_from_cells(*self, page, i as int, fuel as nat, b)
                        ==> rows_from_cells(
                        *self,
                        page,
                        0,
                        fuel as nat,
                        cells@.skip(entry.len() as int) + b,
                    ),
            decreases page.cells@.len() - i,
        {
            let ghost before = cells@;
            let ghost added_old = before.skip(entry.len() as int);
            match &page.cells[i] {
                Cell::TableInterior(cell) => {
                    let res = self.collect_cells(cell.left_page_number as usize, cells, fuel - 1);
                    proof {
                        assert(cells@.take(entry.len() as int) =~= before.take(
                            entry.len() as int,
                        ));
                    }
                    match res {
                        Ok(()) => {},
                        Err(e) => {
                            return Err(e);
                        },
                    }
                    proof {
                        assert(page.cells@[i as int] == Cell::TableInterior(*cell));
                        let delta = cells@.skip(before.len() as int);
                        let added_new = cells@.skip(entry.len() as int);
                        assert(added_new =~= added_old + delta);
                        assert(schema_rows_of(
                            *self,
                            cell.left_page_number as int,
                            (fuel - 1) as nat,
                            delta,
                        ));
                        assert forall|b: Seq<TableLeafCell>|
                            #[trigger] rows_from_cells(*self, page, i as int + 1, fuel as nat, b)
                                implies rows_from_cells(
                                *self,
                                page,
                                0,
                                fuel as nat,
                                added_new + b,
                            ) by {
                            lemma_rows_step_interior(
                                *self,
                                page,
                                i as int,
                                fuel as nat,
                                cell.left_page_number as int,
                                delta,
                                b,
                            );
                            assert(added_old + (delta + b) =~= added_new + b);
                        }
                    }
                },
                Cell::TableLeaf(cell) => {
                    let copy = Self::leaf_cell_copy(cell);
                    let ghost copied = copy;
                    cells.push(copy);
                    proof {
                        assert(page.cells@[i as int] == Cell::TableLeaf(*cell));
                        assert(tlc_like(copied, *cell));
                        assert(cells@.take(entry.len() as int) =~= before.take(
                            entry.len() as int,
                        ));
                        let delta = cells@.skip(before.len() as int);
                        let added_new = cells@.skip(entry.len() as int);
                        assert(added_new =~= added_old + delta);
                        assert(cells@[before.len() as int] == copied);
                        assert(delta =~= seq![copied]);
                        assert forall|b: Seq<TableLeafCell>|
                            #[trigger] rows_from_cells(*self, page, i as int + 1, fuel as nat, b)
                                implies rows_from_cells(
                                *self,
                                page,
                                0,
                                fuel as nat,
                                added_new + b,
                            ) by {
                            lemma_rows_step_leaf(
                                *self,
                                page,
                                i as int,
                                fuel as nat,
                                copied,
                                b,
                            );
                            assert(delta + b =~= seq![copied] + b);
                            assert(rows_from_cells(*self, page, i as int, fuel as nat, delta + b));
                            assert(added_old + (delta + b) =~= added_new + b);
                        }
                    }
                },
                _ => {
                    proof {
                        assert forall|b: Seq<TableLeafCell>|
                            #[trigger] rows_from_cells(*self, page, i as int + 1, fuel as nat, b)
                                implies rows_from_cells(
                                *self,
                                page,
                                0,
                                fuel as nat,
                                cells@.skip(entry.len() as int) + b,
                            ) by {
                            lemma_rows_step_skip(*self, page, i as int, fuel as nat, b);
                        }
                    }
                },
            }
            i = i + 1;
        }
        proof {
            assert(i == page.cells@.len());
        }
        if page.page_header.page_type.is_interior() {
            let ghost before = cells@;
            let ghost added_loop = before.skip(entry.len() as int);
            match page.page_header.page_num {
                Some(right) => {
                    let res = self.collect_cells(right as usize, cells, fuel - 1);
                    proof {
                        assert(cells@.take(entry.len() as int) =~= before.take(
                            entry.len() as int,
                        ));
                    }
                    match res {
                        Ok(()) => {},
                        Err(e) => {
                            return Err(e);
                        },
                    }
                    proof {
                        let delta = cells@.skip(before.len() as int);
                        let added = cells@.skip(entry.len() as int);
                        assert(added =~= added_loop + delta);
                        assert(schema_rows_of(*self, right as int, (fuel - 1) as nat, delta));
                        assert(rows_from_cells(*self, page, i as int, fuel as nat, delta));
                        assert(rows_from_cells(*self, page, 0, fuel as nat, added_loop + delta));
                        assert(rows_from_cells(*self, page, 0, fuel as nat, added));
                        assert(schema_rows_of(*self, pn, fuel as nat, added));
                    }
                },
                None => {
                    proof {
                        // An interior page always carries its right-most
                        // pointer.
                        assert(is_interior_spec(page.page_header.page_type));
                        assert(false);
                    }
                },
            }
        } else {
            proof {
                let added = cells@.skip(entry.len() as int);
                assert(page.page_header.page_num is None);
                assert(rows_from_cells(
                    *self,
                    page,
                    i as int,
                    fuel as nat,
                    Seq::<TableLeafCell>::empty(),
                ));
                assert(added + Seq::<TableLeafCell>::empty() =~= added);
                assert(rows_from_cells(*self, page, 0, fuel as nat, added));
                assert(schema_rows_of(*self, pn, fuel as nat, added));
            }
        }
        Ok(())
    }

    /// Copies a table-leaf cell so collected schema rows own their data.
    fn leaf_cell_copy(cell: &TableLeafCell) -> (r: TableLeafCell)
        ensures
            tlc_like(r, *cell),
    {
        let mut values: Vec<RecordValue> = Vec::new();
        let mut i: usize = 0;
        while i < cell.payload.values.len()
            invariant
                i <= cell.payload.values@.len(),
                values@.len() == i,
                forall|j: int|
                    0 <= j < i ==> rv_like(#[trigger] values@[j], cell.payload.values@[j]),
            decreases cell.payload.values@.len() - i,
        {
            values.push(cell.payload.values[i].duplicate());
            i = i + 1;
        }
        let mut datatypes: Vec<crate::varint::Varint> = Vec::new();
        let mut j: usize = 0;
        while j < cell.payload.header.datatypes.len()
            invariant
                j <= cell.payload.header.datatypes@.len(),
                datatypes@.len() == j,
                forall|k: int|
                    0 <= k < j ==> varint_like(
                        #[trigger] datatypes@[k],
                        cell.payload.header.datatypes@[k],
                    ),
            decreases cell.payload.header.datatypes@.len() - j,
        {
            let d = &cell.payload.header.datatypes[j];
            datatypes.push(
                crate::varint::Varint {
                    value: d.value,
                    bytes: crate::record::copy_vec(&d.bytes),
                },
            );
            j = j + 1;
        }
        let overflow: Option<CellOverflow> = match &cell.overflow {
            Some(o) => {
                let units = OverflowPage::units_suffix(&o.units, 0);
                proof {
                    assert(units@ =~= o.units@);
                }
                Some(CellOverflow { page: o.page, units })
            },
            None => None,
        };
        TableLeafCell {
            payload_varint: crate::varint::Varint {
                value: cell.payload_varint.value,
                bytes: crate::record::copy_vec(&cell.payload_varint.bytes),
            },
            rowid_varint: crate::varint::Varint {
                value: cell.rowid_varint.value,
                bytes: crate::record::copy_vec(&cell.rowid_varint.bytes),
            },
            payload: Record {
                header: crate::record::RecordHeader {
                    size: crate::varint::Varint {
                        value: cell.payload.header.size.value,
                        bytes: crate::record::copy_vec(&cell.payload.header.size.bytes),
                    },
                    datatypes,
                },
                values,
            },
            overflow,
        }
    }

    /// Materializes every b-tree the schema table names: a synthetic
    /// "master schema" tree rooted at page 1, then one tree per schema
    /// row, each rooted at the page its row names.
    ///
    /// Every returned tree's root page lies in `1..=pages_total()` and
    /// decodes successfully from its window.
    pub fn get_btrees(&self) -> (r: Result<Vec<BTree>, ParseError>)
        requires
            self.wf(),
        ensures
            self.pages_total_spec() >= 1 && node_page_error(*self, 1) is Some ==> r == Err::<
                Vec<BTree>,
                ParseError,
            >(node_page_error(*self, 1)->Some_0),
            self.pages_total_spec() >= 1 && empty_leaf_page(*self, 1) ==> r is Ok,
            r matches Ok(trees) ==> {
                &&& trees@.len() >= 1
                &&& trees@[0].root.page_num == 1
                &&& trees@[0].ttype@ == "table"@
                &&& trees@[0].name@ == "master schema"@
                &&& forall|i: int|
                    0 <= i < trees@.len() ==> 1 <= (#[trigger] trees@[i]).root.page_num
                        <= self.pages_total_spec() && node_root_ok(
                        *self,
                        trees@[i].root.page_num as int,
                        trees@[i].root,
                    ) && subtree_wf(*self, trees@[i].root)
            },
            r matches Ok(trees) ==> exists|rows: Seq<TableLeafCell>|
                {
                    &&& #[trigger] schema_rows_of(
                        *self,
                        1,
                        self.pages_total_spec() as nat,
                        rows,
                    )
                    &&& trees@.len() == rows.len() + 1
                    &&& forall|i: int|
                        0 <= i < rows.len() ==> tree_matches_row(
                            *self,
                            #[trigger] trees@[i + 1],
                            rows[i],
                        )
                },
    {
        // The schema table is always a table b-tree rooted at page 1, and
        // its rows name every other tree.
        let mut cells: Vec<TableLeafCell> = Vec::new();
        let fuel = self.pages_total();
        match self.collect_cells(1, &mut cells, fuel) {
            Ok(()) => {},
            Err(e) => {
                return Err(e);
            },
        }
        let ghost rows0 = cells@;
        proof {
            assert(cells@.skip(0) =~= cells@);
            assert(schema_rows_of(*self, 1, self.pages_total_spec() as nat, rows0));
        }

        let root = match BTreeNode::new(1, self) {
            Ok(n) => n,
            Err(e) => {
                return Err(e);
            },
        };
        let mut trees: Vec<BTree> = Vec::new();
        trees.push(
            BTree {
                ttype: String::from_str("table"),
                name: String::from_str("master schema"),
                root,
            },
        );
        let mut i: usize = 0;
        while i < cells.len()
            invariant
                self.wf(),
                node_page_error(*self, 1) is None,
                empty_leaf_page(*self, 1) ==> cells@.len() == 0,
                cells@ == rows0,
                i <= cells@.len(),
                forall|j: int|
                    0 <= j < i ==> tree_matches_row(*self, #[trigger] trees@[j + 1], rows0[j]),
                trees@.len() == i + 1,
                trees@.len() >= 1,
                trees@[0].root.page_num == 1,
                trees@[0].ttype@ == "table"@,
                trees@[0].name@ == "master schema"@,
                forall|j: int|
                    0 <= j < trees@.len() ==> 1 <= (#[trigger] trees@[j]).root.page_num
                        <= self.pages_total_spec() && node_root_ok(
                        *self,
                        trees@[j].root.page_num as int,
                        trees@[j].root,
                    ) && subtree_wf(*self, trees@[j].root),
            decreases cells@.len() - i,
        {
            let tree = match BTree::new(&cells[i], self) {
                Ok(t) => t,
                Err(e) => {
                    return Err(e);
                },
            };
            trees.push(tree);
            i = i + 1;
        }
        proof {
            assert(trees@.len() == rows0.len() + 1);
        }
        Ok(trees)
    }
}

} // verus!
