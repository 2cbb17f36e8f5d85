//! Text decoding for the three encodings a database can declare.
//!
//! The decodings themselves are done by the standard library; their results
//! are named by uninterpreted functions, and everything around them — the
//! pairing of bytes into 16-bit units, the choice of encoding — is verified.

use vstd::prelude::*;

verus! {

/// What decoding a byte sequence as UTF-8 yields: the character sequence,
/// or nothing when the bytes are not valid UTF-8.
pub uninterp spec fn utf8_decode(s: Seq<u8>) -> Option<Seq<char>>;

/// What decoding a sequence of 16-bit units as UTF-16 yields: the character
/// sequence, or nothing when the units are not valid UTF-16.
pub uninterp spec fn utf16_decode(s: Seq<u16>) -> Option<Seq<char>>;

/// Relies on String::from_utf8: it returns Ok exactly when the bytes are
/// valid UTF-8, and then yields their decoding.
#[verifier::external_body]
pub fn utf8_to_string(bytes: Vec<u8>) -> (r: Option<String>)
    ensures
        r is Some <==> utf8_decode(bytes@) is Some,
        r matches Some(s) ==> Some(s@) == utf8_decode(bytes@),
{
    match String::from_utf8(bytes) {
        Ok(s) => Some(s),
        Err(_) => None,
    }
}

/// Relies on String::from_utf16: it returns Ok exactly when the units are
/// valid UTF-16, and then yields their decoding.
#[verifier::external_body]
pub fn utf16_to_string(units: &Vec<u16>) -> (r: Option<String>)
    ensures
        r is Some <==> utf16_decode(units@) is Some,
        r matches Some(s) ==> Some(s@) == utf16_decode(units@),
{
    match String::from_utf16(units.as_slice()) {
        Ok(s) => Some(s),
        Err(_) => None,
    }
}

/// The 16-bit units of `s` read pairwise, little-endian when `le` holds and
/// big-endian otherwise. Only whole pairs form units.
pub open spec fn utf16_units(s: Seq<u8>, le: bool) -> Seq<u16> {
    Seq::new((s.len() / 2) as nat, |i: int| if le {
        (s[2 * i] + s[2 * i + 1] * 256) as u16
    } else {
        (s[2 * i] * 256 + s[2 * i + 1]) as u16
    })
}

/// Reads the bytes of `s` pairwise as 16-bit units.
pub fn read_utf16_units(s: &[u8], le: bool) -> (r: Vec<u16>)
    requires
        s@.len() % 2 == 0,
    ensures
        r@ == utf16_units(s@, le),
{
    let n = s.len();
    let mut out: Vec<u16> = Vec::new();
    let mut i: usize = 0;
    while i + 1 < n
        invariant
            n == s@.len(),
            n % 2 == 0,
            i % 2 == 0,
            i <= n,
            out@.len() == i / 2,
            forall|j: int| 0 <= j < out@.len() ==> out@[j] == utf16_units(s@, le)[j],
        decreases n - i,
    {
        let lo = s[i];
        let hi = s[i + 1];
        let unit: u16 = if le {
            (lo as u16) + (hi as u16) * 256
        } else {
            (lo as u16) * 256 + (hi as u16)
        };
        out.push(unit);
        i = i + 2;
    }
    proof {
        assert(i == n);
        assert(out@ =~= utf16_units(s@, le));
    }
    out
}

} // verus!
