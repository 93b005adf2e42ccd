//! Resolving offsets against the bytes of the table that holds them.
use vstd::prelude::*;

use crate::scalar::{be_bytes, be_value, lemma_be_round_trip, lemma_pow256_pos, Offset};

verus! {

/// A table type that can be read from the start of a byte slice.
pub trait FontRead<'a>: Sized {
    /// Whether `bytes` read as this table (extra bytes at the end are
    /// ignored by the reader).
    spec fn accepts(bytes: Seq<u8>) -> bool;

    /// The bytes a table value is a view over.
    spec fn view_bytes(&self) -> Seq<u8>;

    fn read(bytes: &'a [u8]) -> (r: Option<Self>)
        ensures
            r is Some <==> Self::accepts(bytes@),
            r matches Some(v) ==> v.view_bytes() == bytes@,
    ;
}

/// The bytes at a resolved offset: those from `off` on, when `off` is not
/// zero and not past the end.
pub open spec fn target_bytes(data: Seq<u8>, off: nat) -> Option<Seq<u8>> {
    if off == 0 || off > data.len() {
        None
    } else {
        Some(data.subrange(off as int, data.len() as int))
    }
}

/// A table that holds offsets, measured from the start of its own bytes.
pub trait OffsetHost<'a> {
    spec fn host_bytes(&self) -> Seq<u8>;

    /// The bytes offsets are resolved against.
    fn bytes(&self) -> (r: &'a [u8])
        ensures
            r@ == self.host_bytes(),
    ;

    /// The bytes an offset points to; empty for a null offset or one past
    /// the end.
    fn bytes_at_offset<O: Offset>(&self, offset: O) -> (r: &'a [u8])
        ensures
            r@ == match target_bytes(self.host_bytes(), offset.raw()) {
                Some(b) => b,
                None => Seq::<u8>::empty(),
            },
    {
        let data = self.bytes();
        match offset.non_null() {
            Some(off) => {
                if off <= data.len() {
                    &data[off..data.len()]
                } else {
                    &data[0..0]
                }
            },
            None => &data[0..0],
        }
    }

    /// Reads the table an offset points to. A null offset and a target that
    /// does not read as `T` both give `None`.
    fn resolve_offset<T: FontRead<'a>, O: Offset>(&self, offset: O) -> (r: Option<T>)
        ensures
            offset.raw() == 0 ==> r is None,
            target_bytes(self.host_bytes(), offset.raw()) is None ==> r is None,
            target_bytes(self.host_bytes(), offset.raw()) matches Some(b) ==> (r is Some <==> T::accepts(b)),
            r matches Some(v) ==> target_bytes(self.host_bytes(), offset.raw()) == Some(v.view_bytes()),
    {
        match offset.non_null() {
            None => return None,
            Some(off) => {
                if off > self.bytes().len() {
                    return None;
                }
            },
        }
        T::read(self.bytes_at_offset(offset))
    }
}

/// Bytes of a table that starts `start_offset` bytes before them: offsets
/// are measured from the start of the table, while the bytes held here
/// begin later.
pub struct OffsetData<'a> {
    data: &'a [u8],
    start_offset: usize,
}

impl<'a> OffsetData<'a> {
    pub closed spec fn bytes(&self) -> Seq<u8> {
        self.data@
    }

    pub closed spec fn start(&self) -> nat {
        self.start_offset as nat
    }

    pub fn new(data: &'a [u8], start_offset: usize) -> (r: OffsetData<'a>)
        ensures
            r.bytes() == data@,
            r.start() == start_offset,
    {
        OffsetData { data, start_offset }
    }

    /// The bytes at a table offset; `None` when the offset is null, points
    /// before the held bytes or past their end.
    pub fn bytes_at_offset<O: Offset>(&self, offset: O) -> (r: Option<&'a [u8]>)
        ensures
            r is Some <==> (offset.raw() != 0 && self.start() <= offset.raw() <= self.start()
                + self.bytes().len()),
            r matches Some(b) ==> b@ == self.bytes().subrange(
                offset.raw() - self.start(),
                self.bytes().len() as int,
            ),
    {
        match offset.non_null() {
            Some(off) => {
                if off < self.start_offset || off - self.start_offset > self.data.len() {
                    None
                } else {
                    Some(&self.data[off - self.start_offset..self.data.len()])
                }
            },
            None => None,
        }
    }

    /// The bytes between two table positions, `end` exclusive, or to the
    /// end when `end` is `None`; `None` when the range is not inside.
    pub fn get(&self, start: usize, end: Option<usize>) -> (r: Option<&'a [u8]>)
        ensures
            ({
                let (lo, hi) = resolve_range_spec(start, end, self.start(), self.bytes().len());
                &&& r is Some <==> lo <= hi <= self.bytes().len()
                &&& r matches Some(b) ==> b@ == self.bytes().subrange(lo, hi)
            }),
    {
        let (lo, hi) = resolve_range(start, end, self.start_offset, self.data.len());
        if lo <= hi && hi <= self.data.len() {
            Some(&self.data[lo..hi])
        } else {
            None
        }
    }
}

/// The positions in the held bytes of a range of table positions: each
/// bound moves back by `start`, not below zero; an open end is the end of
/// the bytes (or the start, if that is later).
pub open spec fn resolve_range_spec(index_start: usize, index_end: Option<usize>, start: nat, len: nat) -> (
    int,
    int,
) {
    let lo = if index_start >= start {
        index_start - start
    } else {
        0
    };
    let hi = match index_end {
        None => if len >= lo {
            len as int
        } else {
            lo
        },
        Some(e) => if e >= start {
            e - start
        } else {
            0
        },
    };
    (lo, hi)
}

/// Converts a range of table positions into one of held-byte positions.
pub fn resolve_range(index_start: usize, index_end: Option<usize>, start: usize, len: usize) -> (r: (
    usize,
    usize,
))
    ensures
        (r.0 as int, r.1 as int) == resolve_range_spec(index_start, index_end, start as nat, len as nat),
{
    let lo = index_start.saturating_sub(start);
    let hi = match index_end {
        None => if len >= lo {
            len
        } else {
            lo
        },
        Some(e) => e.saturating_sub(start),
    };
    (lo, hi)
}

/// An absent offset is written as zeros of its field's width, which read
/// back as the value zero, which resolves to no bytes at all.
pub proof fn lemma_null_offset_absent(width: nat, data: Seq<u8>)
    ensures
        be_bytes(0, width).len() == width,
        forall|i: int| 0 <= i < width ==> #[trigger] be_bytes(0, width)[i] == 0,
        be_value(be_bytes(0, width), 0, width) == 0,
        target_bytes(data, be_value(be_bytes(0, width), 0, width)) is None,
    decreases width,
{
    lemma_pow256_pos(width);
    lemma_be_round_trip(0, width);
    if width > 0 {
        lemma_null_offset_absent((width - 1) as nat, data);
        assert forall|i: int| 0 <= i < width implies #[trigger] be_bytes(0, width)[i] == 0 by {
            if i < width - 1 {
                assert(be_bytes(0, width)[i] == be_bytes(0, (width - 1) as nat)[i]);
            }
        }
    }
}

} // verus!
