//! Character to glyph mapping, format 4: segments of character codes, each
//! mapped by a delta or through an array of glyph ids.
use vstd::prelude::*;

use std::collections::BTreeMap;

use crate::glyf::be_i16;
use crate::layout::be_u16;
use crate::scalar::{read_i16, read_u16};

verus! {

/// Adds a signed delta to a glyph id, clamping below at zero and reducing
/// modulo `0xFFFF`.
pub open spec fn add_delta(base: u16, delta: i16) -> u16 {
    let s = base as int + delta as int;
    let r = if s < 0 {
        0
    } else {
        s
    };
    (r % 0xFFFF) as u16
}

pub fn wrapping_add_delta(base: u16, delta: i16) -> (r: u16)
    ensures
        r == add_delta(base, delta),
{
    let s: i32 = base as i32 + delta as i32;
    let r: u32 = if s < 0 {
        0
    } else {
        s as u32
    };
    (r % 0xFFFF) as u16
}

/// Code points a `char` cannot hold: the surrogates.
pub open spec fn is_surrogate(c: u32) -> bool {
    0xD800 <= c <= 0xDFFF
}

/// Relies on `char::from_u32`: a `char` for every code point up to
/// `0x10FFFF` that is not a surrogate, with that code.
#[verifier::external_body]
fn char_from_u32(c: u32) -> (r: Option<char>)
    ensures
        r is Some <==> (c <= 0x10FFFF && !is_surrogate(c)),
        r matches Some(ch) ==> ch as u32 == c,
{
    char::from_u32(c)
}

/// `ch` stands for code `c`: the character itself, or the replacement
/// character for a surrogate.
pub open spec fn char_for(ch: char, c: u16) -> bool {
    if is_surrogate(c as u32) {
        ch == '\u{FFFD}'
    } else {
        ch as u32 == c as u32
    }
}

/// The number of segments.
pub open spec fn seg_count(d: Seq<u8>) -> int {
    (be_u16(d, 6) / 2) as int
}

pub open spec fn end_code(d: Seq<u8>, i: int) -> u16 {
    be_u16(d, 14 + 2 * i)
}

pub open spec fn start_code(d: Seq<u8>, i: int) -> u16 {
    be_u16(d, 16 + 2 * seg_count(d) + 2 * i)
}

pub open spec fn id_delta(d: Seq<u8>, i: int) -> i16 {
    be_i16(d, 16 + 4 * seg_count(d) + 2 * i)
}

pub open spec fn id_range_offset(d: Seq<u8>, i: int) -> u16 {
    be_u16(d, 16 + 6 * seg_count(d) + 2 * i)
}

/// The number of entries of the glyph id array: every whole pair of bytes
/// after the segment arrays.
pub open spec fn glyph_array_len(d: Seq<u8>) -> int {
    (d.len() - (16 + 8 * seg_count(d))) / 2
}

pub open spec fn glyph_array_at(d: Seq<u8>, k: int) -> u16 {
    be_u16(d, 16 + 8 * seg_count(d) + 2 * k)
}

/// The glyph segment `i` maps code `c` to: by delta when the segment has no
/// range offset, otherwise through the glyph id array (a zero entry stays
/// zero); `None` when the array index falls outside the array.
pub open spec fn glyph_for(d: Seq<u8>, i: int, c: int) -> Option<u16> {
    let ro = id_range_offset(d, i) / 2;
    if ro == 0 {
        Some(add_delta(c as u16, id_delta(d, i)))
    } else {
        let k = c - start_code(d, i) + ro + i - seg_count(d);
        if 0 <= k < glyph_array_len(d) {
            let g = glyph_array_at(d, k);
            Some(
                if g == 0 {
                    0
                } else {
                    add_delta(g, id_delta(d, i))
                },
            )
        } else {
            None
        }
    }
}

/// Records, for codes `lo ..= hi` of segment `i` in turn, glyph to code;
/// a later code replaces an earlier one with the same glyph.
pub open spec fn insert_codes(m: Map<u16, u16>, d: Seq<u8>, i: int, lo: int, hi: int) -> Map<u16, u16>
    decreases hi - lo + 1,
{
    if lo > hi {
        m
    } else {
        let m2 = match glyph_for(d, i, lo) {
            Some(g) => m.insert(g, lo as u16),
            None => m,
        };
        insert_codes(m2, d, i, lo + 1, hi)
    }
}

/// Records the codes of segments `i` on, stopping at the first segment
/// that ends at `0xFFFF`; an inverted segment adds nothing.
pub open spec fn reverse_from(m: Map<u16, u16>, d: Seq<u8>, i: int) -> Map<u16, u16>
    decreases seg_count(d) - i,
{
    if i >= seg_count(d) || end_code(d, i) == 0xFFFF {
        m
    } else {
        reverse_from(
            insert_codes(m, d, i, start_code(d, i) as int, end_code(d, i) as int),
            d,
            i + 1,
        )
    }
}

/// A format 4 character map subtable.
pub struct Cmap4<'a> {
    data: &'a [u8],
}

impl<'a> Cmap4<'a> {
    pub closed spec fn bytes(&self) -> Seq<u8> {
        self.data@
    }

    /// The fixed fields and the four segment arrays fit.
    pub open spec fn fits(d: Seq<u8>) -> bool {
        d.len() >= 16 && d.len() >= 16 + 8 * seg_count(d)
    }

    /// Reads the subtable; the segment count is half the stored value.
    pub fn read(bytes: &'a [u8]) -> (r: Option<Cmap4<'a>>)
        ensures
            r is Some <==> Self::fits(bytes@),
            r matches Some(c) ==> c.bytes() == bytes@,
    {
        let seg = match read_u16(bytes, 6) {
            Some(x) => div_by_two(x),
            None => return None,
        };
        if bytes.len() < 16 + 8 * seg {
            return None;
        }
        Some(Cmap4 { data: bytes })
    }

    /// Maps each glyph reached by some code to that code's character; when
    /// several codes reach one glyph, the last one read wins. Segments are
    /// read up to the one that ends at `0xFFFF`.
    pub fn reverse(&self) -> (r: BTreeMap<u16, char>)
        requires
            Self::fits(self.bytes()),
        ensures
            ({
                let codes = reverse_from(Map::empty(), self.bytes(), 0);
                &&& r@.dom() == codes.dom()
                &&& forall|g: u16| #[trigger] codes.contains_key(g) ==> char_for(r@[g], codes[g])
            }),
    {
        broadcast use vstd::laws_cmp::group_laws_cmp;

        let d = self.data;
        let seg = div_by_two(read_u16(d, 6).unwrap());
        let glyph_len = (d.len() - (16 + 8 * seg)) / 2;
        let mut map: BTreeMap<u16, char> = BTreeMap::new();
        let ghost mut codes: Map<u16, u16> = Map::empty();
        let mut i: usize = 0;
        while i < seg
            invariant
                Self::fits(d@),
                d@ == self.bytes(),
                seg == seg_count(d@),
                glyph_len == glyph_array_len(d@),
                i <= seg,
                reverse_from(codes, d@, i as int) == reverse_from(Map::empty(), d@, 0),
                map@.dom() == codes.dom(),
                forall|g: u16| #[trigger] codes.contains_key(g) ==> char_for(map@[g], codes[g]),
            decreases seg - i,
        {
            let end = read_u16(d, 14 + 2 * i).unwrap();
            if end == 0xFFFF {
                proof {
                    assert(reverse_from(codes, d@, i as int) == codes);
                    assert(reverse_from(codes, d@, seg as int) == codes);
                }
                i = seg;
                continue;
            }
            let start = read_u16(d, 16 + 2 * seg + 2 * i).unwrap();
            let delta = read_i16(d, 16 + 4 * seg + 2 * i).unwrap();
            let ro = read_u16(d, 16 + 6 * seg + 2 * i).unwrap() / 2;
            let ghost seg_start = codes;
            if end >= start {
                let mut c: u32 = start as u32;
                while c <= end as u32
                    invariant
                        Self::fits(d@),
                        seg == seg_count(d@),
                        glyph_len == glyph_array_len(d@),
                        i < seg,
                        start == start_code(d@, i as int),
                        end == end_code(d@, i as int),
                        delta == id_delta(d@, i as int),
                        ro == id_range_offset(d@, i as int) / 2,
                        start <= c <= end + 1,
                        insert_codes(codes, d@, i as int, c as int, end as int) == insert_codes(
                            seg_start,
                            d@,
                            i as int,
                            start as int,
                            end as int,
                        ),
                        map@.dom() == codes.dom(),
                        forall|g: u16| #[trigger] codes.contains_key(g) ==> char_for(map@[g], codes[g]),
                    decreases end + 1 - c,
                {
                    let ch = match char_from_u32(c) {
                        Some(ch) => ch,
                        None => '\u{FFFD}',
                    };
                    let target: Option<u16> = if ro == 0 {
                        Some(wrapping_add_delta(c as u16, delta))
                    } else {
                        let k: i64 = (c as i64) - (start as i64) + (ro as i64) + (i as i64) - (seg as i64);
                        if 0 <= k && (k as usize) < glyph_len {
                            let g = read_u16(d, 16 + 8 * seg + 2 * (k as usize)).unwrap();
                            Some(
                                if g == 0 {
                                    0
                                } else {
                                    wrapping_add_delta(g, delta)
                                },
                            )
                        } else {
                            None
                        }
                    };
                    assert(target == glyph_for(d@, i as int, c as int));
                    if let Some(g) = target {
                        map.insert(g, ch);
                        proof {
                            codes = codes.insert(g, c as u16);
                        }
                    }
                    c = c + 1;
                }
            }
            proof {
                if end < start {
                    assert(insert_codes(seg_start, d@, i as int, start as int, end as int) == seg_start);
                }
            }
            i = i + 1;
        }
        proof {
            assert(reverse_from(codes, d@, i as int) == codes);
        }
        map
    }
}

/// The number of entries of a format 0 subtable: one per byte value.
pub const CMAP0_GLYPHS: usize = 256;

/// A format 0 character map subtable: a glyph id (one byte) for each of
/// the 256 byte-sized codes.
pub struct Cmap0<'a> {
    data: &'a [u8],
}

impl<'a> Cmap0<'a> {
    pub closed spec fn bytes(&self) -> Seq<u8> {
        self.data@
    }

    /// Reads the subtable: six bytes of header and 256 glyph ids.
    pub fn read(bytes: &'a [u8]) -> (r: Option<Cmap0<'a>>)
        ensures
            r is Some <==> bytes@.len() >= 6 + CMAP0_GLYPHS && be_u16(bytes@, 0) == 0,
            r matches Some(c) ==> c.bytes() == bytes@,
    {
        if bytes.len() < 6 + CMAP0_GLYPHS || read_u16(bytes, 0) != Some(0u16) {
            return None;
        }
        Some(Cmap0 { data: bytes })
    }

    /// The glyph id of byte code `code`.
    pub fn glyph_id(&self, code: u8) -> (r: u8)
        requires
            self.bytes().len() >= 6 + CMAP0_GLYPHS,
        ensures
            r == self.bytes()[6 + code as int],
    {
        self.data[6 + code as usize]
    }
}

/// Half of a stored doubled count.
fn div_by_two(seg_count_x2: u16) -> (r: usize)
    ensures
        r == seg_count_x2 / 2,
{
    (seg_count_x2 / 2) as usize
}

} // verus!
