//! The freelist: reclaimed pages kept for reuse. Trunk pages hold a
//! linked list of leaf-page numbers; leaf pages carry no structure.

use vstd::prelude::*;
use crate::ParseError;
use crate::bytes::{be32, read_u32_be, copy_range};

verus! {

/// A decoded freelist trunk page: the next trunk page (0 ends the list),
/// the leaf count, the leaf page numbers, and the remaining bytes.
#[derive(Debug, Clone, PartialEq)]
pub struct TrunkFreelistPage {
    pub next_page: u32,
    pub leaf_page_amount: u32,
    pub leaf_page_numbers: Option<Vec<u32>>,
    pub unallocated: Option<Vec<u8>>,
}

/// A freelist leaf page: opaque, nothing but unallocated bytes.
#[derive(Debug, Clone, PartialEq)]
pub struct LeafFreelistPage {
    pub unallocated: Vec<u8>,
}

/// The failure a trunk-page decode meets, if any: too few bytes for the
/// two leading integers or for the declared leaf-number array.
pub open spec fn trunk_error(s: Seq<u8>) -> Option<ParseError> {
    if s.len() < 8 {
        Some(ParseError::Truncated { expected: 8, got: s.len() as usize })
    } else if 8 + 4 * be32(s, 4) > s.len() {
        Some(
            ParseError::Truncated {
                expected: (8 + 4 * be32(s, 4)) as usize,
                got: s.len() as usize,
            },
        )
    } else {
        None
    }
}

/// The relation between a trunk page's bytes and its decoded form.
pub open spec fn trunk_ok(s: Seq<u8>, t: TrunkFreelistPage) -> bool {
    let amount = be32(s, 4);
    let end = 8 + 4 * amount;
    &&& t.next_page == be32(s, 0)
    &&& t.leaf_page_amount == amount
    &&& (if amount > 0 {
        t.leaf_page_numbers matches Some(nums) && nums@.len() == amount && forall|i: int|
            0 <= i < amount ==> #[trigger] nums@[i] == be32(s, 8 + 4 * i)
    } else {
        t.leaf_page_numbers is None
    })
    &&& (if end < s.len() {
        t.unallocated matches Some(u) && u@ == s.skip(end)
    } else {
        t.unallocated is None
    })
}

impl TrunkFreelistPage {
    /// Decodes a freelist trunk page: next-trunk pointer, leaf count `L`,
    /// then `L` leaf page numbers; the remaining bytes are unallocated.
    pub fn parse(buf: &[u8]) -> (r: Result<TrunkFreelistPage, ParseError>)
        ensures
            r matches Ok(t) ==> trunk_ok(buf@, t),
            r is Ok <==> trunk_error(buf@) is None,
            r matches Err(e) ==> Some(e) == trunk_error(buf@),
    {
        if buf.len() < 8 {
            return Err(ParseError::Truncated { expected: 8, got: buf.len() });
        }
        let next_page = read_u32_be(buf, 0);
        let leaf_page_amount = read_u32_be(buf, 4);
        let count = leaf_page_amount as usize;
        if count > (buf.len() - 8) / 4 {
            proof {
                vstd::arithmetic::div_mod::lemma_fundamental_div_mod(buf@.len() - 8, 4);
            }
            let expected64: u64 = 8 + 4 * (leaf_page_amount as u64);
            return Err(
                ParseError::Truncated {
                    expected: #[verifier::truncate] (expected64 as usize),
                    got: buf.len(),
                },
            );
        }
        proof {
            vstd::arithmetic::div_mod::lemma_fundamental_div_mod(buf@.len() - 8, 4);
        }

        let n = buf.len();
        let leaf_page_numbers: Option<Vec<u32>> = if count > 0 {
            let mut numbers: Vec<u32> = Vec::new();
            let mut i: usize = 0;
            while i < count
                invariant
                    i <= count,
                    n == buf@.len(),
                    8 + 4 * count <= n,
                    numbers@.len() == i,
                    forall|j: int| 0 <= j < i ==> #[trigger] numbers@[j] == be32(buf@, 8 + 4 * j),
                decreases count - i,
            {
                numbers.push(read_u32_be(buf, 8 + 4 * i));
                i = i + 1;
            }
            Some(numbers)
        } else {
            None
        };

        let end = 8 + 4 * count;
        let unallocated = if end < buf.len() {
            Some(copy_range(buf, end, buf.len() - end))
        } else {
            None
        };
        proof {
            if end < buf@.len() {
                assert(buf@.subrange(end as int, end as int + (buf@.len() - end as int)) =~= buf@.skip(
                    end as int,
                ));
            }
        }
        Ok(TrunkFreelistPage { next_page, leaf_page_amount, leaf_page_numbers, unallocated })
    }
}

impl LeafFreelistPage {
    /// Decodes a freelist leaf page: its bytes, kept as one unallocated
    /// span.
    pub fn parse(buf: &[u8]) -> (r: Result<LeafFreelistPage, ParseError>)
        ensures
            r matches Ok(p) ==> p.unallocated@ == buf@,
            r is Ok,
    {
        let unallocated = copy_range(buf, 0, buf.len());
        proof {
            assert(unallocated@ =~= buf@);
        }
        Ok(LeafFreelistPage { unallocated })
    }
}

} // verus!
