//! Layout tables shared by positioning: coverage, value records, single
//! adjustment subtables, anchors, and the lookup list.
use vstd::prelude::*;

use crate::compile::{Table, TableWriter};
use crate::glyf::be_i16;
use crate::offsets::OffsetMarker;
use crate::scalar::{be_bytes, be_value, lemma_be_round_trip, read_i16, read_u16, Offset16};
use crate::subset::{remap_coverage, remapped_ids, retain_covered, Error, Plan, Subset};

verus! {

/// The 16-bit value at `pos`.
pub open spec fn be_u16(data: Seq<u8>, pos: int) -> u16 {
    be_value(data, pos, 2) as u16
}

/// Saturates a length to the largest count a 16-bit field can hold.
pub(crate) fn count_u16(n: usize) -> (r: u16)
    ensures
        r == (if n <= 0xFFFF {
            n as u16
        } else {
            0xFFFFu16
        }),
{
    if n <= 0xFFFF {
        n as u16
    } else {
        0xFFFF
    }
}

/// A run of consecutive glyph ids in a format 2 coverage table.
#[derive(Clone, Copy, Debug, PartialEq, Eq, Structural)]
pub struct RangeRecord {
    pub start_glyph_id: u16,
    pub end_glyph_id: u16,
    pub start_coverage_index: u16,
}

/// Range record `i` of a format 2 coverage table.
pub open spec fn range_at(data: Seq<u8>, i: int) -> RangeRecord {
    RangeRecord {
        start_glyph_id: be_u16(data, 4 + 6 * i),
        end_glyph_id: be_u16(data, 6 + 6 * i),
        start_coverage_index: be_u16(data, 8 + 6 * i),
    }
}

/// The glyphs of a range, ascending; none when it is inverted.
pub open spec fn range_glyphs(r: RangeRecord) -> Seq<u16> {
    if r.end_glyph_id >= r.start_glyph_id {
        Seq::new(
            (r.end_glyph_id - r.start_glyph_id + 1) as nat,
            |i: int| (r.start_glyph_id + i) as u16,
        )
    } else {
        Seq::empty()
    }
}

/// The glyphs of a list of ranges, in order.
pub open spec fn ranges_glyphs(rs: Seq<RangeRecord>) -> Seq<u16>
    decreases rs.len(),
{
    if rs.len() == 0 {
        Seq::empty()
    } else {
        ranges_glyphs(rs.drop_last()) + range_glyphs(rs.last())
    }
}

/// A sorted set of glyph ids; the position of a glyph in it indexes the
/// arrays of the table that owns it.
#[derive(Debug)]
pub enum CoverageTable {
    Format1 { glyphs: Vec<u16> },
    Format2 { ranges: Vec<RangeRecord> },
}

impl CoverageTable {
    /// The covered glyphs, in coverage order.
    pub open spec fn spec_glyphs(&self) -> Seq<u16> {
        match self {
            CoverageTable::Format1 { glyphs } => glyphs@,
            CoverageTable::Format2 { ranges } => ranges_glyphs(ranges@),
        }
    }

    /// Reads a coverage table of format 1 or 2; `None` for another format or
    /// when its array does not fit.
    pub fn read(bytes: &[u8]) -> (r: Option<CoverageTable>)
        ensures
            bytes@.len() < 4 ==> r is None,
            bytes@.len() >= 4 && be_u16(bytes@, 0) == 1 ==> {
                let n = be_u16(bytes@, 2) as int;
                &&& r is Some <==> bytes@.len() >= 4 + 2 * n
                &&& r matches Some(c) ==> c is Format1 && c.spec_glyphs().len() == n && forall|i: int|
                    0 <= i < n ==> c.spec_glyphs()[i] == be_u16(bytes@, 4 + 2 * i)
            },
            bytes@.len() >= 4 && be_u16(bytes@, 0) == 2 ==> {
                let n = be_u16(bytes@, 2) as int;
                &&& r is Some <==> bytes@.len() >= 4 + 6 * n
                &&& r matches Some(c) ==> c is Format2 && c->ranges@.len() == n && forall|i: int|
                    0 <= i < n ==> #[trigger] c->ranges@[i] == range_at(bytes@, i)
            },
            bytes@.len() >= 4 && be_u16(bytes@, 0) != 1 && be_u16(bytes@, 0) != 2 ==> r is None,
    {
        let format = match read_u16(bytes, 0) {
            Some(f) => f,
            None => return None,
        };
        let count = match read_u16(bytes, 2) {
            Some(c) => c as usize,
            None => return None,
        };
        if format == 1 {
            if bytes.len() < 4 + 2 * count {
                return None;
            }
            let mut glyphs: Vec<u16> = Vec::new();
            let mut i: usize = 0;
            while i < count
                invariant
                    count <= 0xFFFF,
                    i <= count,
                    bytes@.len() >= 4 + 2 * count,
                    glyphs@.len() == i,
                    forall|m: int| 0 <= m < i ==> glyphs@[m] == be_u16(bytes@, 4 + 2 * m),
                decreases count - i,
            {
                glyphs.push(read_u16(bytes, 4 + 2 * i).unwrap());
                i = i + 1;
            }
            Some(CoverageTable::Format1 { glyphs })
        } else if format == 2 {
            if bytes.len() < 4 + 6 * count {
                return None;
            }
            let mut ranges: Vec<RangeRecord> = Vec::new();
            let mut i: usize = 0;
            while i < count
                invariant
                    count <= 0xFFFF,
                    i <= count,
                    bytes@.len() >= 4 + 6 * count,
                    ranges@.len() == i,
                    forall|m: int| 0 <= m < i ==> #[trigger] ranges@[m] == range_at(bytes@, m),
                decreases count - i,
            {
                ranges.push(
                    RangeRecord {
                        start_glyph_id: read_u16(bytes, 4 + 6 * i).unwrap(),
                        end_glyph_id: read_u16(bytes, 6 + 6 * i).unwrap(),
                        start_coverage_index: read_u16(bytes, 8 + 6 * i).unwrap(),
                    },
                );
                i = i + 1;
            }
            Some(CoverageTable::Format2 { ranges })
        } else {
            None
        }
    }

    /// The covered glyphs, in coverage order.
    pub fn glyphs(&self) -> (r: Vec<u16>)
        ensures
            r@ == self.spec_glyphs(),
    {
        match self {
            CoverageTable::Format1 { glyphs } => {
                let mut out: Vec<u16> = Vec::new();
                let mut i: usize = 0;
                while i < glyphs.len()
                    invariant
                        i <= glyphs@.len(),
                        out@ == glyphs@.subrange(0, i as int),
                    decreases glyphs@.len() - i,
                {
                    out.push(glyphs[i]);
                    i = i + 1;
                    assert(out@ =~= glyphs@.subrange(0, i as int));
                }
                assert(glyphs@.subrange(0, i as int) =~= glyphs@);
                out
            },
            CoverageTable::Format2 { ranges } => {
                let mut out: Vec<u16> = Vec::new();
                let mut i: usize = 0;
                while i < ranges.len()
                    invariant
                        i <= ranges@.len(),
                        out@ == ranges_glyphs(ranges@.subrange(0, i as int)),
                    decreases ranges@.len() - i,
                {
                    let r = ranges[i];
                    let ghost before = out@;
                    if r.end_glyph_id >= r.start_glyph_id {
                        let mut g: u32 = r.start_glyph_id as u32;
                        while g <= r.end_glyph_id as u32
                            invariant
                                r.start_glyph_id <= g <= r.end_glyph_id + 1,
                                r.end_glyph_id >= r.start_glyph_id,
                                out@ == before + range_glyphs(r).subrange(
                                    0,
                                    (g - r.start_glyph_id) as int,
                                ),
                            decreases r.end_glyph_id + 1 - g,
                        {
                            out.push(g as u16);
                            assert(out@ =~= before + range_glyphs(r).subrange(
                                0,
                                (g - r.start_glyph_id + 1) as int,
                            ));
                            g = g + 1;
                        }
                        assert(range_glyphs(r).subrange(0, (r.end_glyph_id - r.start_glyph_id + 1) as int)
                            =~= range_glyphs(r));
                    }
                    proof {
                        let s = ranges@.subrange(0, i + 1);
                        assert(s.drop_last() =~= ranges@.subrange(0, i as int));
                        assert(s.last() == r);
                        if r.end_glyph_id < r.start_glyph_id {
                            assert(out@ =~= before + range_glyphs(r));
                        }
                    }
                    i = i + 1;
                }
                assert(ranges@.subrange(0, i as int) =~= ranges@);
                out
            },
        }
    }
}

/// The big-endian bytes of a list of 16-bit values.
pub open spec fn u16s_bytes(s: Seq<u16>) -> Seq<u8>
    decreases s.len(),
{
    if s.len() == 0 {
        Seq::empty()
    } else {
        u16s_bytes(s.drop_last()) + be_bytes(s.last() as nat, 2)
    }
}

/// The bytes of a format 1 coverage table of `glyphs`.
pub open spec fn coverage_format1_bytes(glyphs: Seq<u16>) -> Seq<u8> {
    be_bytes(1, 2) + be_bytes(glyphs.len(), 2) + u16s_bytes(glyphs)
}

proof fn lemma_u16s_bytes(s: Seq<u16>)
    ensures
        u16s_bytes(s).len() == 2 * s.len(),
        forall|i: int| 0 <= i < s.len() ==> be_value(u16s_bytes(s), 2 * i, 2) == s[i],
    decreases s.len(),
{
    if s.len() > 0 {
        let p = s.drop_last();
        lemma_u16s_bytes(p);
        crate::scalar::lemma_pow256_values();
        lemma_be_round_trip(s.last() as nat, 2);
        let all = u16s_bytes(s);
        let last = be_bytes(s.last() as nat, 2);
        assert forall|i: int| 0 <= i < s.len() implies be_value(all, 2 * i, 2) == s[i] by {
            if i < s.len() - 1 {
                assert forall|m: int| 0 <= m < 2 implies #[trigger] all[2 * i + m] == u16s_bytes(p)[2 * i + m] by {}
                crate::scalar::lemma_be_value_window(all, 2 * i, u16s_bytes(p), 2 * i, 2);
                assert(p[i] == s[i]);
            } else {
                assert forall|m: int| 0 <= m < 2 implies #[trigger] all[2 * i + m] == last[0 + m] by {}
                crate::scalar::lemma_be_value_window(all, 2 * i, last, 0, 2);
            }
        }
    }
}

/// A format 1 coverage table written out reads back as the same glyphs:
/// format 1, the count, and each glyph in order.
pub proof fn lemma_coverage_round_trip(glyphs: Seq<u16>)
    requires
        glyphs.len() <= 0xFFFF,
    ensures
        ({
            let b = coverage_format1_bytes(glyphs);
            &&& b.len() == 4 + 2 * glyphs.len()
            &&& be_u16(b, 0) == 1
            &&& be_u16(b, 2) == glyphs.len()
            &&& forall|i: int| 0 <= i < glyphs.len() ==> be_u16(b, 4 + 2 * i) == glyphs[i]
        }),
{
    crate::scalar::lemma_pow256_values();
    lemma_be_round_trip(1, 2);
    lemma_be_round_trip(glyphs.len(), 2);
    lemma_u16s_bytes(glyphs);
    let h1 = be_bytes(1, 2);
    let h2 = be_bytes(glyphs.len(), 2);
    let body = u16s_bytes(glyphs);
    let b = coverage_format1_bytes(glyphs);
    assert forall|m: int| 0 <= m < 2 implies #[trigger] b[0 + m] == h1[0 + m] by {}
    crate::scalar::lemma_be_value_window(b, 0, h1, 0, 2);
    assert forall|m: int| 0 <= m < 2 implies #[trigger] b[2 + m] == h2[0 + m] by {}
    crate::scalar::lemma_be_value_window(b, 2, h2, 0, 2);
    assert forall|i: int| 0 <= i < glyphs.len() implies be_u16(b, 4 + 2 * i) == glyphs[i] by {
        assert forall|m: int| 0 <= m < 2 implies #[trigger] b[4 + 2 * i + m] == body[2 * i + m] by {}
        crate::scalar::lemma_be_value_window(b, 4 + 2 * i, body, 2 * i, 2);
    }
}

impl CoverageTable {
    /// Writes the table into the writer's current table: for format 1 with
    /// at most `0xFFFF` glyphs, exactly [`coverage_format1_bytes`].
    pub fn write_into(&self, writer: &mut TableWriter)
        requires
            old(writer).wf(),
        ensures
            final(writer).wf(),
            final(writer).finished() == old(writer).finished(),
            final(writer).keeps(*old(writer)),
            final(writer).depth() == old(writer).depth(),
            self matches CoverageTable::Format1 { glyphs } ==> glyphs@.len() <= 0xFFFF
                ==> final(writer).current() == old(writer).current() + coverage_format1_bytes(glyphs@),
    {
        match self {
            CoverageTable::Format1 { glyphs } => {
                let ghost start = writer.current();
                writer.write(1u16);
                writer.write(count_u16(glyphs.len()));
                let ghost head = writer.current();
                let mut i: usize = 0;
                while i < glyphs.len()
                    invariant
                        writer.wf(),
                        writer.finished() == old(writer).finished(),
                        writer.keeps(*old(writer)),
                        writer.depth() == old(writer).depth(),
                        i <= glyphs@.len(),
                        writer.current() == head + u16s_bytes(glyphs@.subrange(0, i as int)),
                    decreases glyphs@.len() - i,
                {
                    writer.write(glyphs[i]);
                    proof {
                        let sub = glyphs@.subrange(0, i + 1);
                        assert(sub.drop_last() =~= glyphs@.subrange(0, i as int));
                    }
                    i = i + 1;
                }
                proof {
                    assert(glyphs@.subrange(0, i as int) =~= glyphs@);
                    if glyphs@.len() <= 0xFFFF {
                        assert(writer.current() =~= start + coverage_format1_bytes(glyphs@));
                    }
                }
            },
            CoverageTable::Format2 { ranges } => {
                writer.write(2u16);
                writer.write(count_u16(ranges.len()));
                let mut i: usize = 0;
                while i < ranges.len()
                    invariant
                        writer.wf(),
                        writer.finished() == old(writer).finished(),
                        writer.keeps(*old(writer)),
                        writer.depth() == old(writer).depth(),
                    decreases ranges@.len() - i,
                {
                    writer.write(ranges[i].start_glyph_id);
                    writer.write(ranges[i].end_glyph_id);
                    writer.write(ranges[i].start_coverage_index);
                    i = i + 1;
                }
            },
        }
    }
}

impl Table for CoverageTable {
    fn describe(&self, writer: &mut TableWriter) {
        self.write_into(writer);
    }
}

impl Subset for CoverageTable {
    open spec fn kept(&self) -> bool {
        self.spec_glyphs().len() > 0
    }

    /// Keeps the covered glyphs that survive, renumbered, as a format 1
    /// table; retained while any glyph is left.
    open spec fn subset_post(old: Self, new: Self, plan: Plan, r: Result<bool, Error>) -> bool {
        &&& (new is Format1)
        &&& (new.spec_glyphs() == remapped_ids(old.spec_glyphs(), plan))
        &&& (r == Ok::<bool, Error>(new.spec_glyphs().len() > 0))
    }

    fn subset(&mut self, plan: &Plan) -> (r: Result<bool, Error>) {
        Ok(self.subset_glyphs(plan))
    }
}

impl CoverageTable {
    /// Subsets the coverage: the surviving glyphs, renumbered, as a format 1
    /// table; `true` while any glyph is left.
    pub fn subset_glyphs(&mut self, plan: &Plan) -> (r: bool)
        requires
            plan.wf(),
        ensures
            *final(self) is Format1,
            final(self).spec_glyphs() == remapped_ids(old(self).spec_glyphs(), *plan),
            r == (final(self).spec_glyphs().len() > 0),
    {
        let glyphs = self.glyphs();
        let kept = remap_coverage(&glyphs, plan);
        let retain = kept.len() > 0;
        *self = CoverageTable::Format1 { glyphs: kept };
        retain
    }
}

/// A coverage is present and holds a glyph.
pub open spec fn coverage_kept(m: &OffsetMarker<Offset16, CoverageTable>) -> bool {
    (m.obj() matches Some(c) && c.spec_glyphs().len() > 0)
}

/// Whether bit `k` of `v` is set.
pub open spec fn bit_set(v: u16, k: u16) -> bool {
    (v >> k) & 1 == 1
}

/// The number of set bits among bits `0 .. k` of `v`.
pub open spec fn bits_below(v: u16, k: nat) -> nat
    decreases k,
{
    if k == 0 {
        0
    } else {
        bits_below(v, (k - 1) as nat) + if bit_set(v, (k - 1) as u16) {
            1nat
        } else {
            0nat
        }
    }
}

/// Which fields a value record holds, one bit per field.
#[derive(Clone, Copy, Debug, PartialEq, Eq, Structural)]
pub struct ValueFormat(pub u16);

/// The number of value record fields: the low eight bits of a format.
pub const VALUE_FIELDS: u16 = 8;

impl ValueFormat {
    /// The number of bytes a value record in this format takes: two per set
    /// bit.
    pub fn record_byte_len(self) -> (r: usize)
        ensures
            r == 2 * bits_below(self.0, 16),
    {
        let mut n: usize = 0;
        let mut k: u16 = 0;
        while k < 16
            invariant
                k <= 16,
                n == 2 * bits_below(self.0, k as nat),
                n <= 2 * k,
            decreases 16 - k,
        {
            if (self.0 >> k) & 1 == 1 {
                n = n + 2;
            }
            k = k + 1;
        }
        n
    }
}

/// The fields of a value record read from `pos` on: for each of the eight
/// fields from `k` on, the next two bytes when the format has its bit.
pub open spec fn value_fields(data: Seq<u8>, format: u16, k: u16, pos: int) -> Seq<Option<i16>>
    decreases VALUE_FIELDS - k,
{
    if k >= VALUE_FIELDS {
        Seq::empty()
    } else if bit_set(format, k) {
        seq![Some(be_i16(data, pos))] + value_fields(data, format, (k + 1) as u16, pos + 2)
    } else {
        seq![None::<i16>] + value_fields(data, format, (k + 1) as u16, pos)
    }
}

/// Placement and advance adjustments; each field is present when the value
/// format has its bit.
#[derive(Clone, Copy, Debug, PartialEq, Eq, Structural)]
pub struct ValueRecord {
    pub x_placement: Option<i16>,
    pub y_placement: Option<i16>,
    pub x_advance: Option<i16>,
    pub y_advance: Option<i16>,
    pub x_placement_device: Option<i16>,
    pub y_placement_device: Option<i16>,
    pub x_advance_device: Option<i16>,
    pub y_advance_device: Option<i16>,
}

impl ValueRecord {
    /// The fields in format-bit order.
    pub open spec fn spec_fields(&self) -> Seq<Option<i16>> {
        seq![
            self.x_placement,
            self.y_placement,
            self.x_advance,
            self.y_advance,
            self.x_placement_device,
            self.y_placement_device,
            self.x_advance_device,
            self.y_advance_device,
        ]
    }

    /// Reads a value record in `format` and returns it with the bytes after
    /// it; `None` when the record does not fit.
    pub fn read(bytes: &[u8], format: ValueFormat) -> (r: Option<(ValueRecord, &[u8])>)
        ensures
            r is Some <==> bytes@.len() >= 2 * bits_below(format.0, 16),
            r matches Some((v, rest)) ==> v.spec_fields() == value_fields(bytes@, format.0, 0, 0)
                && rest@ == bytes@.subrange((2 * bits_below(format.0, 16)) as int, bytes@.len() as int),
    {
        let len = format.record_byte_len();
        if len > bytes.len() {
            return None;
        }
        let mut fields: Vec<Option<i16>> = Vec::new();
        let mut k: u16 = 0;
        let mut pos: usize = 0;
        proof {
            lemma_bits_below_mono(format.0, 0, 16);
        }
        while k < VALUE_FIELDS
            invariant
                k <= VALUE_FIELDS,
                pos == 2 * bits_below(format.0, k as nat),
                bytes@.len() >= 2 * bits_below(format.0, 16),
                fields@.len() == k,
                fields@ + value_fields(bytes@, format.0, k, pos as int) == value_fields(
                    bytes@,
                    format.0,
                    0,
                    0,
                ),
            decreases VALUE_FIELDS - k,
        {
            proof {
                lemma_bits_below_mono(format.0, (k + 1) as nat, 16);
                lemma_bits_below_mono(format.0, 0, k as nat);
            }
            let ghost before = fields@;
            if (format.0 >> k) & 1 == 1 {
                fields.push(read_i16(bytes, pos));
                assert(fields@ + value_fields(bytes@, format.0, (k + 1) as u16, pos + 2) =~= before
                    + value_fields(bytes@, format.0, k, pos as int));
                pos = pos + 2;
            } else {
                fields.push(None);
                assert(fields@ + value_fields(bytes@, format.0, (k + 1) as u16, pos as int) =~= before
                    + value_fields(bytes@, format.0, k, pos as int));
            }
            k = k + 1;
        }
        assert(fields@ =~= value_fields(bytes@, format.0, 0, 0));
        let v = ValueRecord {
            x_placement: fields[0],
            y_placement: fields[1],
            x_advance: fields[2],
            y_advance: fields[3],
            x_placement_device: fields[4],
            y_placement_device: fields[5],
            x_advance_device: fields[6],
            y_advance_device: fields[7],
        };
        assert(v.spec_fields() =~= fields@);
        Some((v, &bytes[len..bytes.len()]))
    }

    /// The format that has a bit for exactly the fields that are present.
    pub fn format(&self) -> (r: ValueFormat)
        ensures
            forall|k: u16| k < VALUE_FIELDS ==> (bit_set(r.0, k) <==> self.spec_fields()[k as int] is Some),
            forall|k: u16| VALUE_FIELDS <= k < 16 ==> !bit_set(r.0, k),
    {
        let b0: u16 = if self.x_placement.is_some() { 1 } else { 0 };
        let b1: u16 = if self.y_placement.is_some() { 1 } else { 0 };
        let b2: u16 = if self.x_advance.is_some() { 1 } else { 0 };
        let b3: u16 = if self.y_advance.is_some() { 1 } else { 0 };
        let b4: u16 = if self.x_placement_device.is_some() { 1 } else { 0 };
        let b5: u16 = if self.y_placement_device.is_some() { 1 } else { 0 };
        let b6: u16 = if self.x_advance_device.is_some() { 1 } else { 0 };
        let b7: u16 = if self.y_advance_device.is_some() { 1 } else { 0 };
        let bits: u16 = b0 | (b1 << 1u16) | (b2 << 2u16) | (b3 << 3u16) | (b4 << 4u16) | (b5 << 5u16)
            | (b6 << 6u16) | (b7 << 7u16);
        proof {
            assert({
                &&& (bits >> 0u16) & 1 == b0
                &&& (bits >> 1u16) & 1 == b1
                &&& (bits >> 2u16) & 1 == b2
                &&& (bits >> 3u16) & 1 == b3
                &&& (bits >> 4u16) & 1 == b4
                &&& (bits >> 5u16) & 1 == b5
                &&& (bits >> 6u16) & 1 == b6
                &&& (bits >> 7u16) & 1 == b7
                &&& bits >> 8u16 == 0
            }) by (bit_vector)
                requires
                    b0 <= 1,
                    b1 <= 1,
                    b2 <= 1,
                    b3 <= 1,
                    b4 <= 1,
                    b5 <= 1,
                    b6 <= 1,
                    b7 <= 1,
                    bits == b0 | (b1 << 1u16) | (b2 << 2u16) | (b3 << 3u16) | (b4 << 4u16) | (b5
                        << 5u16) | (b6 << 6u16) | (b7 << 7u16),
            ;
            assert forall|m: u16| VALUE_FIELDS <= m < 16 implies !bit_set(bits, m) by {
                assert((bits >> m) & 1 == 0) by (bit_vector)
                    requires
                        bits >> 8u16 == 0,
                        8 <= m < 16,
                ;
            }
            assert forall|k: u16| k < VALUE_FIELDS implies (bit_set(bits, k) <==> self.spec_fields()[k as int]
                is Some) by {
                if k == 0 {
                } else if k == 1 {
                } else if k == 2 {
                } else if k == 3 {
                } else if k == 4 {
                } else if k == 5 {
                } else if k == 6 {
                } else {
                    assert(k == 7);
                }
            }
        }
        ValueFormat(bits)
    }

    /// Writes the fields that are present, in format-bit order.
    pub fn write_into(&self, writer: &mut TableWriter)
        requires
            old(writer).wf(),
        ensures
            final(writer).wf(),
            final(writer).finished() == old(writer).finished(),
            final(writer).keeps(*old(writer)),
            final(writer).depth() == old(writer).depth(),
            final(writer).current() == old(writer).current() + fields_bytes(self.spec_fields()),
    {
        let ghost start = writer.current();
        let fields: [Option<i16>; 8] = [
            self.x_placement,
            self.y_placement,
            self.x_advance,
            self.y_advance,
            self.x_placement_device,
            self.y_placement_device,
            self.x_advance_device,
            self.y_advance_device,
        ];
        let ghost f = self.spec_fields();
        assert(fields@ =~= f);
        assert(f.subrange(0, 8) =~= f);
        let mut k: usize = 0;
        while k < 8
            invariant
                k <= 8,
                fields@ == f,
                f.len() == 8,
                writer.wf(),
                writer.finished() == old(writer).finished(),
                writer.keeps(*old(writer)),
                writer.depth() == old(writer).depth(),
                writer.current() + fields_bytes(f.subrange(k as int, 8)) == start + fields_bytes(f),
            decreases 8 - k,
        {
            let ghost before = writer.current();
            proof {
                lemma_fields_bytes_step(f, k as int);
            }
            write_field(writer, fields[k]);
            assert(writer.current() + fields_bytes(f.subrange(k + 1, 8)) =~= before + fields_bytes(
                f.subrange(k as int, 8),
            ));
            k = k + 1;
        }
        proof {
            assert(f.subrange(8, 8).len() == 0);
            assert(writer.current() + Seq::<u8>::empty() =~= writer.current());
        }
    }
}

fn write_field(writer: &mut TableWriter, v: Option<i16>)
    requires
        old(writer).wf(),
    ensures
        final(writer).wf(),
        final(writer).finished() == old(writer).finished(),
        final(writer).keeps(*old(writer)),
        final(writer).depth() == old(writer).depth(),
        final(writer).current() == old(writer).current() + field_bytes(v),
{
    if let Some(v) = v {
        writer.write(v);
    }
}

/// The bytes of one field: two for a present value, none otherwise.
pub open spec fn field_bytes(v: Option<i16>) -> Seq<u8> {
    match v {
        Some(x) => be_bytes(x as u16 as nat, 2),
        None => Seq::empty(),
    }
}

/// The bytes of the present fields, in order.
pub open spec fn fields_bytes(fields: Seq<Option<i16>>) -> Seq<u8>
    decreases fields.len(),
{
    if fields.len() == 0 {
        Seq::empty()
    } else {
        field_bytes(fields[0]) + fields_bytes(fields.subrange(1, fields.len() as int))
    }
}

proof fn lemma_fields_bytes_step(f: Seq<Option<i16>>, k: int)
    requires
        0 <= k < f.len(),
    ensures
        fields_bytes(f.subrange(k, f.len() as int)) == field_bytes(f[k]) + fields_bytes(
            f.subrange(k + 1, f.len() as int),
        ),
{
    assert(f.subrange(k, f.len() as int).subrange(1, f.len() - k) =~= f.subrange(k + 1, f.len() as int));
}

/// Reading back, in the record's own format, the bytes a value record is
/// written as gives the record's fields.
pub proof fn lemma_value_record_round_trip(v: ValueRecord, format: ValueFormat)
    requires
        forall|k: u16| k < VALUE_FIELDS ==> (bit_set(format.0, k) <==> v.spec_fields()[k as int] is Some),
    ensures
        value_fields(fields_bytes(v.spec_fields()), format.0, 0, 0) == v.spec_fields(),
{
    let f = v.spec_fields();
    let d = fields_bytes(f);
    assert(f.subrange(0, 8) =~= f);
    assert(d.subrange(0, d.len() as int) =~= d);
    lemma_value_fields_suffix(f, format.0, d, 0, 0);
}

proof fn lemma_value_fields_suffix(f: Seq<Option<i16>>, format: u16, data: Seq<u8>, k: u16, pos: int)
    requires
        f.len() == 8,
        k <= VALUE_FIELDS,
        0 <= pos,
        forall|m: u16| m < VALUE_FIELDS ==> (bit_set(format, m) <==> f[m as int] is Some),
        pos + fields_bytes(f.subrange(k as int, 8)).len() <= data.len(),
        data.subrange(pos, pos + fields_bytes(f.subrange(k as int, 8)).len()) == fields_bytes(
            f.subrange(k as int, 8),
        ),
    ensures
        value_fields(data, format, k, pos) == f.subrange(k as int, 8),
    decreases VALUE_FIELDS - k,
{
    let tail = f.subrange(k as int, 8);
    if k < VALUE_FIELDS {
        let rest = f.subrange(k + 1, 8);
        assert(tail.subrange(1, tail.len() as int) =~= rest);
        let fb = field_bytes(f[k as int]);
        let rb = fields_bytes(rest);
        assert(fields_bytes(tail) == fb + rb);
        let step = fb.len() as int;
        assert(data.subrange(pos + step, pos + step + rb.len()) =~= rb) by {
            assert forall|i: int| 0 <= i < rb.len() implies data[pos + step + i] == rb[i] by {
                assert(data.subrange(pos, pos + (fb + rb).len())[step + i] == (fb + rb)[step + i]);
            }
        }
        lemma_value_fields_suffix(f, format, data, (k + 1) as u16, pos + step);
        match f[k as int] {
            Some(x) => {
                crate::scalar::lemma_pow256_values();
                lemma_be_round_trip(x as u16 as nat, 2);
                assert forall|i: int| 0 <= i < 2 implies #[trigger] data[pos + i] == fb[0 + i] by {
                    assert(data.subrange(pos, pos + (fb + rb).len())[i] == (fb + rb)[i]);
                }
                crate::scalar::lemma_be_value_window(data, pos, fb, 0, 2);
                assert((x as u16) as i16 == x) by (bit_vector);
                assert(value_fields(data, format, k, pos) =~= seq![Some(x)] + rest);
            },
            None => {
                assert(value_fields(data, format, k, pos) =~= seq![None::<i16>] + rest);
            },
        }
        assert(tail =~= seq![f[k as int]] + rest);
    } else {
        assert(tail =~= Seq::<Option<i16>>::empty());
    }
}

proof fn lemma_bits_below_mono(v: u16, a: nat, b: nat)
    requires
        a <= b,
    ensures
        bits_below(v, a) <= bits_below(v, b),
        bits_below(v, b) <= bits_below(v, a) + (b - a),
    decreases b - a,
{
    if a < b {
        lemma_bits_below_mono(v, a, (b - 1) as nat);
    }
}

/// Single adjustment, format 1: one value record for every covered glyph.
pub struct SinglePosFormat1 {
    pub coverage_offset: OffsetMarker<Offset16, CoverageTable>,
    pub value_format: ValueFormat,
    pub value_record: ValueRecord,
}

/// Single adjustment, format 2: one value record per covered glyph, in
/// coverage order.
pub struct SinglePosFormat2 {
    pub coverage_offset: OffsetMarker<Offset16, CoverageTable>,
    pub value_format: ValueFormat,
    pub value_records: Vec<ValueRecord>,
}

/// The coverage table an offset at `pos` of `bytes` points to, if any.
pub(crate) fn read_coverage(bytes: &[u8], pos: usize) -> (r: Option<CoverageTable>)
{
    let off = match read_u16(bytes, pos) {
        Some(o) => o as usize,
        None => return None,
    };
    if off == 0 || off > bytes.len() {
        return None;
    }
    CoverageTable::read(&bytes[off..bytes.len()])
}

impl SinglePosFormat1 {
    /// Reads the subtable and everything it references into owned values.
    pub fn read(bytes: &[u8]) -> (r: Option<SinglePosFormat1>)
        ensures
            r is Some <==> bytes@.len() >= 6 && be_u16(bytes@, 0) == 1 && bytes@.len() >= 6 + 2
                * bits_below(be_u16(bytes@, 4), 16),
            r matches Some(t) ==> t.value_format.0 == be_u16(bytes@, 4) && t.value_record.spec_fields()
                == value_fields(bytes@, be_u16(bytes@, 4), 0, 6),
    {
        match read_u16(bytes, 0) {
            Some(1) => {},
            _ => return None,
        }
        let value_format = match read_u16(bytes, 4) {
            Some(f) => ValueFormat(f),
            None => return None,
        };
        let (value_record, _) = match ValueRecord::read(&bytes[6..bytes.len()], value_format) {
            Some(p) => p,
            None => return None,
        };
        proof {
            lemma_bits_below_mono(value_format.0, 8, 16);
            lemma_value_fields_shift(bytes@, 6, value_format.0, 0, 0);
        }
        Some(
            SinglePosFormat1 {
                coverage_offset: OffsetMarker::new_maybe_null(read_coverage(bytes, 2)),
                value_format,
                value_record,
            },
        )
    }
}

impl SinglePosFormat2 {
    /// Reads the subtable and everything it references into owned values:
    /// `value_count` records of the format's size follow the fixed fields.
    pub fn read(bytes: &[u8]) -> (r: Option<SinglePosFormat2>)
        ensures
            r is Some <==> bytes@.len() >= 8 && be_u16(bytes@, 0) == 2 && 8 + be_u16(bytes@, 6) * (2
                * bits_below(be_u16(bytes@, 4), 16)) <= bytes@.len(),
            r matches Some(t) ==> {
                &&& t.value_format.0 == be_u16(bytes@, 4)
                &&& t.value_records@.len() == be_u16(bytes@, 6)
                &&& 8 + be_u16(bytes@, 6) * (2 * bits_below(t.value_format.0, 16)) <= bytes@.len()
            },
    {
        match read_u16(bytes, 0) {
            Some(2) => {},
            _ => return None,
        }
        let value_format = match read_u16(bytes, 4) {
            Some(f) => ValueFormat(f),
            None => return None,
        };
        let count = match read_u16(bytes, 6) {
            Some(c) => c as usize,
            None => return None,
        };
        let size = value_format.record_byte_len();
        let mut rest: &[u8] = &bytes[8..bytes.len()];
        let mut value_records: Vec<ValueRecord> = Vec::new();
        let mut i: usize = 0;
        while i < count
            invariant
                i <= count,
                count <= 0xFFFF,
                count == be_u16(bytes@, 6),
                value_format.0 == be_u16(bytes@, 4),
                bytes@.len() >= 8 && be_u16(bytes@, 0) == 2,
                size == 2 * bits_below(value_format.0, 16),
                value_records@.len() == i,
                rest@.len() + 8 + i * size == bytes@.len(),
            decreases count - i,
        {
            let (v, next) = match ValueRecord::read(rest, value_format) {
                Some(p) => p,
                None => {
                    proof {
                        assert(count * size >= (i + 1) * size) by (nonlinear_arith)
                            requires
                                i < count,
                        ;
                        assert((i + 1) * size == i * size + size) by (nonlinear_arith);
                    }
                    return None;
                },
            };
            value_records.push(v);
            rest = next;
            proof {
                assert((i + 1) * size == i * size + size) by (nonlinear_arith);
            }
            i = i + 1;
        }
        Some(
            SinglePosFormat2 {
                coverage_offset: OffsetMarker::new_maybe_null(read_coverage(bytes, 2)),
                value_format,
                value_records,
            },
        )
    }
}

impl Table for SinglePosFormat1 {
    fn describe(&self, writer: &mut TableWriter) {
        writer.write(1u16);
        self.coverage_offset.write_into(writer);
        writer.write(self.value_format.0);
        self.value_record.write_into(writer);
    }
}

impl Table for SinglePosFormat2 {
    fn describe(&self, writer: &mut TableWriter) {
        writer.write(2u16);
        self.coverage_offset.write_into(writer);
        writer.write(self.value_format.0);
        writer.write(count_u16(self.value_records.len()));
        let mut i: usize = 0;
        while i < self.value_records.len()
            invariant
                writer.wf(),
                writer.finished() >= old(writer).finished(),
                writer.keeps(*old(writer)),
            decreases self.value_records@.len() - i,
        {
            self.value_records[i].write_into(writer);
            i = i + 1;
        }
    }
}

impl Subset for SinglePosFormat1 {
    open spec fn kept(&self) -> bool {
        self.coverage_offset.obj() is Some
    }

    /// One record serves every covered glyph: only the coverage shrinks.
    open spec fn subset_post(old: Self, new: Self, plan: Plan, r: Result<bool, Error>) -> bool {
        &&& (new.value_format == old.value_format)
        &&& (new.value_record == old.value_record)
        &&& (OffsetMarker::<Offset16, CoverageTable>::marker_post(old.coverage_offset, new.coverage_offset, plan, r))
    }

    fn subset(&mut self, plan: &Plan) -> (r: Result<bool, Error>) {
        self.coverage_offset.subset(plan)
    }
}

impl SinglePosFormat2 {
    /// Keeps the records of the covered glyphs that survive, walking the
    /// coverage and the records together, then subsets the coverage. Fails
    /// when the coverage is missing or shorter than the records; otherwise
    /// the subtable is retained while a covered glyph is left.
    pub fn subset_records(&mut self, plan: &Plan) -> (r: Result<bool, Error>)
        requires
            plan.wf(),
        ensures
            old(self).coverage_offset.obj() is None ==> r is Err,
            r is Err ==> *final(self) == *old(self),
            old(self).coverage_offset.obj() matches Some(c) ==> {
                let glyphs = c.spec_glyphs();
                &&& r is Ok <==> old(self).value_records@.len() <= glyphs.len()
                &&& r is Ok ==> {
                    &&& final(self).value_records@ == crate::subset::covered_values(
                        glyphs,
                        old(self).value_records@,
                        *plan,
                    )
                    &&& final(self).coverage_offset.obj() matches Some(c2) && c2 is Format1 && c2.spec_glyphs()
                        == remapped_ids(glyphs, *plan)
                    &&& r == Ok::<bool, Error>(remapped_ids(glyphs, *plan).len() > 0)
                }
            },
    {
        let glyphs = match self.coverage_offset.get() {
            Some(c) => c.glyphs(),
            None => return Err(Error::new("single adjustment without coverage")),
        };
        if self.value_records.len() > glyphs.len() {
            return Err(Error::new("more records than covered glyphs"));
        }
        let mut records: Vec<ValueRecord> = Vec::new();
        std::mem::swap(&mut self.value_records, &mut records);
        let kept = match retain_covered(&glyphs, records, plan) {
            Ok(k) => k,
            Err(e) => return Err(e),
        };
        self.value_records = kept;
        match self.coverage_offset.get_mut() {
            Some(c) => Ok(c.subset_glyphs(plan)),
            None => Err(Error::new("single adjustment without coverage")),
        }
    }
}

impl Subset for SinglePosFormat2 {
    open spec fn kept(&self) -> bool {
        coverage_kept(&self.coverage_offset)
    }

    open spec fn subset_post(old: Self, new: Self, plan: Plan, r: Result<bool, Error>) -> bool {
        &&& (old.coverage_offset.obj() is None ==> r is Err)
        &&& (r is Err ==> new == old)
        &&& (old.coverage_offset.obj() matches Some(c) ==> {
                let glyphs = c.spec_glyphs();
                &&& r is Ok <==> old.value_records@.len() <= glyphs.len()
                &&& r is Ok ==> {
                    &&& new.value_records@ == crate::subset::covered_values(
                        glyphs,
                        old.value_records@,
                        plan,
                    )
                    &&& new.coverage_offset.obj() matches Some(c2) && c2 is Format1 && c2.spec_glyphs()
                        == remapped_ids(glyphs, plan)
                    &&& r == Ok::<bool, Error>(remapped_ids(glyphs, plan).len() > 0)
                }
            })
    }

    fn subset(&mut self, plan: &Plan) -> (r: Result<bool, Error>) {
        self.subset_records(plan)
    }
}

/// A single adjustment subtable, by format.
pub enum SinglePos {
    Format1(SinglePosFormat1),
    Format2(SinglePosFormat2),
}

/// A single adjustment subtable of format 1 or 2 fits.
pub open spec fn single_pos_ok(t: Seq<u8>) -> bool {
    ||| (t.len() >= 6 && be_u16(t, 0) == 1 && t.len() >= 6 + 2 * bits_below(be_u16(t, 4), 16))
    ||| (t.len() >= 8 && be_u16(t, 0) == 2 && 8 + be_u16(t, 6) * (2 * bits_below(be_u16(t, 4), 16)) <= t.len())
}

/// A pair adjustment subtable of format 1 fits.
pub open spec fn pair_pos1_ok(t: Seq<u8>) -> bool {
    t.len() >= 10 && be_u16(t, 0) == 1 && t.len() >= 10 + 2 * be_u16(t, 8)
}

impl SinglePos {
    /// Reads the format and the matching subtable; `None` for an unknown
    /// format.
    pub fn read(bytes: &[u8]) -> (r: Option<SinglePos>)
        ensures
            r is Some <==> single_pos_ok(bytes@),
            r matches Some(SinglePos::Format1(_)) ==> be_u16(bytes@, 0) == 1,
            r matches Some(SinglePos::Format2(_)) ==> be_u16(bytes@, 0) == 2,
            bytes@.len() >= 2 && be_u16(bytes@, 0) != 1 && be_u16(bytes@, 0) != 2 ==> r is None,
    {
        match read_u16(bytes, 0) {
            Some(1) => match SinglePosFormat1::read(bytes) {
                Some(t) => Some(SinglePos::Format1(t)),
                None => None,
            },
            Some(2) => match SinglePosFormat2::read(bytes) {
                Some(t) => Some(SinglePos::Format2(t)),
                None => None,
            },
            _ => None,
        }
    }
}

impl Table for SinglePos {
    fn describe(&self, writer: &mut TableWriter) {
        match self {
            SinglePos::Format1(t) => t.describe(writer),
            SinglePos::Format2(t) => t.describe(writer),
        }
    }
}

impl Subset for SinglePos {
    open spec fn kept(&self) -> bool {
        match self {
            SinglePos::Format1(t) => t.kept(),
            SinglePos::Format2(t) => t.kept(),
        }
    }

    open spec fn subset_post(old: Self, new: Self, plan: Plan, r: Result<bool, Error>) -> bool {
        match old {
            SinglePos::Format1(o) => (new matches SinglePos::Format1(n)
                && <SinglePosFormat1 as Subset>::subset_post(o, n, plan, r)),
            SinglePos::Format2(o) => (new matches SinglePos::Format2(n)
                && <SinglePosFormat2 as Subset>::subset_post(o, n, plan, r)),
        }
    }

    fn subset(&mut self, plan: &Plan) -> (r: Result<bool, Error>) {
        match self {
            SinglePos::Format1(t) => t.subset(plan),
            SinglePos::Format2(t) => t.subset(plan),
        }
    }
}

/// A second glyph of a pair and the adjustments of both glyphs.
#[derive(Clone, Copy, Debug, PartialEq, Eq, Structural)]
pub struct PairValueRecord {
    pub second_glyph: u16,
    pub value_record1: ValueRecord,
    pub value_record2: ValueRecord,
}

impl PairValueRecord {
    /// Reads a record in the two formats and returns it with the bytes
    /// after it.
    pub fn read(bytes: &[u8], format1: ValueFormat, format2: ValueFormat) -> (r: Option<
        (PairValueRecord, &[u8]),
    >)
        ensures
            r is Some <==> bytes@.len() >= 2 + 2 * bits_below(format1.0, 16) + 2 * bits_below(
                format2.0,
                16,
            ),
            r matches Some((v, rest)) ==> v.second_glyph == be_u16(bytes@, 0) && rest@.len()
                == bytes@.len() - (2 + 2 * bits_below(format1.0, 16) + 2 * bits_below(format2.0, 16)),
    {
        let second_glyph = match read_u16(bytes, 0) {
            Some(g) => g,
            None => return None,
        };
        let (value_record1, rest) = match ValueRecord::read(&bytes[2..bytes.len()], format1) {
            Some(p) => p,
            None => return None,
        };
        let (value_record2, rest) = match ValueRecord::read(rest, format2) {
            Some(p) => p,
            None => return None,
        };
        Some((PairValueRecord { second_glyph, value_record1, value_record2 }, rest))
    }

    fn write_into(&self, writer: &mut TableWriter)
        requires
            old(writer).wf(),
        ensures
            final(writer).wf(),
            final(writer).finished() >= old(writer).finished(),
            final(writer).keeps(*old(writer)),
    {
        writer.write(self.second_glyph);
        self.value_record1.write_into(writer);
        self.value_record2.write_into(writer);
    }
}

/// The records of the pairs whose second glyph survives, each renumbered.
pub open spec fn remapped_pairs(recs: Seq<PairValueRecord>, plan: Plan) -> Seq<PairValueRecord>
    decreases recs.len(),
{
    if recs.len() == 0 {
        Seq::empty()
    } else {
        let prev = remapped_pairs(recs.drop_last(), plan);
        let r = recs.last();
        match plan.gid(r.second_glyph) {
            Some(g) => prev.push(PairValueRecord { second_glyph: g, ..r }),
            None => prev,
        }
    }
}

/// The pairs that start with one glyph.
pub struct PairSet {
    pub pair_value_records: Vec<PairValueRecord>,
}

impl PairSet {
    /// Reads a count and that many records in the two formats.
    pub fn read(bytes: &[u8], format1: ValueFormat, format2: ValueFormat) -> (r: Option<PairSet>)
        ensures
            r matches Some(s) ==> s.pair_value_records@.len() == be_u16(bytes@, 0),
    {
        let count = match read_u16(bytes, 0) {
            Some(c) => c as usize,
            None => return None,
        };
        let mut rest: &[u8] = &bytes[2..bytes.len()];
        let mut recs: Vec<PairValueRecord> = Vec::new();
        let mut i: usize = 0;
        while i < count
            invariant
                i <= count,
                count == be_u16(bytes@, 0),
                recs@.len() == i,
            decreases count - i,
        {
            let (v, next) = match PairValueRecord::read(rest, format1, format2) {
                Some(p) => p,
                None => return None,
            };
            recs.push(v);
            rest = next;
            i = i + 1;
        }
        Some(PairSet { pair_value_records: recs })
    }

    /// Keeps the pairs whose second glyph survives, renumbered; the set is
    /// retained while a pair is left.
    pub fn subset_pairs(&mut self, plan: &Plan) -> (r: bool)
        requires
            plan.wf(),
        ensures
            final(self).pair_value_records@ == remapped_pairs(old(self).pair_value_records@, *plan),
            r == (final(self).pair_value_records@.len() > 0),
    {
        let mut kept: Vec<PairValueRecord> = Vec::new();
        let mut i: usize = 0;
        while i < self.pair_value_records.len()
            invariant
                plan.wf(),
                self.pair_value_records@ == old(self).pair_value_records@,
                i <= self.pair_value_records@.len(),
                kept@ == remapped_pairs(self.pair_value_records@.subrange(0, i as int), *plan),
            decreases self.pair_value_records@.len() - i,
        {
            let rec = self.pair_value_records[i];
            proof {
                let s = self.pair_value_records@.subrange(0, i + 1);
                assert(s.drop_last() =~= self.pair_value_records@.subrange(0, i as int));
                assert(s.last() == rec);
            }
            match plan.remap_gid(rec.second_glyph) {
                Some(g) => kept.push(PairValueRecord { second_glyph: g, ..rec }),
                None => {},
            }
            i = i + 1;
        }
        assert(self.pair_value_records@.subrange(0, i as int) =~= self.pair_value_records@);
        self.pair_value_records = kept;
        self.pair_value_records.len() > 0
    }
}

impl Table for PairSet {
    fn describe(&self, writer: &mut TableWriter) {
        writer.write(count_u16(self.pair_value_records.len()));
        let mut i: usize = 0;
        while i < self.pair_value_records.len()
            invariant
                writer.wf(),
                writer.finished() >= old(writer).finished(),
                writer.keeps(*old(writer)),
            decreases self.pair_value_records@.len() - i,
        {
            self.pair_value_records[i].write_into(writer);
            i = i + 1;
        }
    }
}

impl Subset for PairSet {
    open spec fn kept(&self) -> bool {
        self.pair_value_records@.len() > 0
    }

    open spec fn subset_post(old: Self, new: Self, plan: Plan, r: Result<bool, Error>) -> bool {
        &&& (new.pair_value_records@ == remapped_pairs(old.pair_value_records@, plan))
        &&& (r == Ok::<bool, Error>(new.pair_value_records@.len() > 0))
    }

    fn subset(&mut self, plan: &Plan) -> (r: Result<bool, Error>) {
        Ok(self.subset_pairs(plan))
    }
}

/// Pair adjustment, format 1: for each covered first glyph, the set of
/// pairs it starts.
pub struct PairPosFormat1 {
    pub coverage_offset: OffsetMarker<Offset16, CoverageTable>,
    pub value_format1: ValueFormat,
    pub value_format2: ValueFormat,
    pub pair_set_offsets: Vec<OffsetMarker<Offset16, PairSet>>,
}

impl PairPosFormat1 {
    /// Reads the subtable and its pair sets into owned values.
    pub fn read(bytes: &[u8]) -> (r: Option<PairPosFormat1>)
        ensures
            r is Some <==> bytes@.len() >= 10 && be_u16(bytes@, 0) == 1 && bytes@.len() >= 10 + 2 * be_u16(
                bytes@,
                8,
            ),
            r matches Some(t) ==> t.value_format1.0 == be_u16(bytes@, 4) && t.value_format2.0
                == be_u16(bytes@, 6) && t.pair_set_offsets@.len() == be_u16(bytes@, 8),
    {
        match read_u16(bytes, 0) {
            Some(1) => {},
            _ => return None,
        }
        let value_format1 = match read_u16(bytes, 4) {
            Some(f) => ValueFormat(f),
            None => return None,
        };
        let value_format2 = match read_u16(bytes, 6) {
            Some(f) => ValueFormat(f),
            None => return None,
        };
        let count = match read_u16(bytes, 8) {
            Some(c) => c as usize,
            None => return None,
        };
        if bytes.len() < 10 + 2 * count {
            return None;
        }
        let pair_set_offsets = Self::pair_sets_to_owned(bytes, count, value_format1, value_format2);
        Some(
            PairPosFormat1 {
                coverage_offset: OffsetMarker::new_maybe_null(read_coverage(bytes, 2)),
                value_format1,
                value_format2,
                pair_set_offsets,
            },
        )
    }

    /// Reads each pair set an offset of the array at 10 points to; a set
    /// that does not read is kept as missing.
    fn pair_sets_to_owned(bytes: &[u8], count: usize, format1: ValueFormat, format2: ValueFormat) -> (r: Vec<
        OffsetMarker<Offset16, PairSet>,
    >)
        requires
            count <= 0xFFFF,
            bytes@.len() >= 10 + 2 * count,
        ensures
            r@.len() == count,
    {
        let mut out: Vec<OffsetMarker<Offset16, PairSet>> = Vec::new();
        let mut i: usize = 0;
        while i < count
            invariant
                count <= 0xFFFF,
                bytes@.len() >= 10 + 2 * count,
                i <= count,
                out@.len() == i,
            decreases count - i,
        {
            let set = match read_u16(bytes, 10 + 2 * i) {
                Some(off) if off != 0 && (off as usize) <= bytes.len() => PairSet::read(
                    &bytes[off as usize..bytes.len()],
                    format1,
                    format2,
                ),
                _ => None,
            };
            out.push(OffsetMarker::new_maybe_null(set));
            i = i + 1;
        }
        out
    }

    /// Subsets the pair sets in step with the coverage: a set stays, with
    /// its glyph under the new id, when its glyph survives and the set keeps
    /// a pair; otherwise both are dropped, so sets and coverage stay aligned.
    /// Fails, changing nothing, when the coverage is missing or shorter than
    /// the sets; retained while a set is left.
    pub fn subset_pairs(&mut self, plan: &Plan) -> (r: Result<bool, Error>)
        requires
            plan.wf(),
        ensures
            old(self).coverage_offset.obj() is None ==> r is Err,
            r is Err ==> *final(self) == *old(self),
            old(self).coverage_offset.obj() matches Some(c) ==> {
                let glyphs = c.spec_glyphs();
                let sets = old(self).pair_set_offsets@;
                let kept = kept_pair_glyphs(glyphs, sets, *plan, sets.len() as int);
                &&& (r is Ok <==> sets.len() <= glyphs.len())
                &&& (r is Ok ==> {
                    &&& (final(self).coverage_offset.obj() matches Some(n) && n is Format1 && n.spec_glyphs()
                        == kept)
                    &&& final(self).pair_set_offsets@.len() == kept.len()
                    &&& forall|i: int|
                        0 <= i < final(self).pair_set_offsets@.len() ==> ((
                        #[trigger] final(self).pair_set_offsets@[i]).obj() matches Some(ps)
                            && ps.pair_value_records@.len() > 0)
                    &&& forall|k: int|
                        0 <= k < final(self).pair_set_offsets@.len() ==> {
                            let p = kept_pair_positions(glyphs, sets, *plan, sets.len() as int)[k];
                            &&& 0 <= p < sets.len()
                            &&& kept[k] == plan.gid(glyphs[p])->0
                            &&& (sets[p].obj() matches Some(o) && ((#[trigger] final(self).pair_set_offsets@[k]).obj()
                                matches Some(ps) && ps.pair_value_records@ == remapped_pairs(
                                o.pair_value_records@,
                                *plan,
                            )))
                        }
                    &&& forall|a: int, b: int|
                        0 <= a < b < kept.len() ==> kept_pair_positions(glyphs, sets, *plan, sets.len() as int)[a]
                            < kept_pair_positions(glyphs, sets, *plan, sets.len() as int)[b]
                    &&& r == Ok::<bool, Error>(kept.len() > 0)
                })
            },
    {
        let glyphs = match self.coverage_offset.get() {
            Some(c) => c.glyphs(),
            None => return Err(Error::new("pair adjustment without coverage")),
        };
        if self.pair_set_offsets.len() > glyphs.len() {
            return Err(Error::new("more pair sets than covered glyphs"));
        }
        let mut all: Vec<OffsetMarker<Offset16, PairSet>> = Vec::new();
        std::mem::swap(&mut self.pair_set_offsets, &mut all);
        let ghost sets = all@;
        let ghost n = all@.len();
        let mut rest: Vec<OffsetMarker<Offset16, PairSet>> = Vec::new();
        while all.len() > 0
            invariant
                n == sets.len(),
                rest@.len() + all@.len() == n,
                all@ == sets.subrange(0, all@.len() as int),
                forall|m: int| 0 <= m < rest@.len() ==> rest@[m] == sets[n - 1 - m],
            decreases all@.len(),
        {
            match all.pop() {
                Some(x) => {
                    rest.push(x);
                    assert(all@ =~= sets.subrange(0, all@.len() as int));
                },
                None => {},
            }
        }
        let mut kept_sets: Vec<OffsetMarker<Offset16, PairSet>> = Vec::new();
        let mut kept_glyphs: Vec<u16> = Vec::new();
        let mut i: usize = 0;
        let total = rest.len();
        while rest.len() > 0
            invariant
                plan.wf(),
                n == total,
                n == sets.len(),
                sets == old(self).pair_set_offsets@,
                old(self).coverage_offset.obj() matches Some(c) && glyphs@ == c.spec_glyphs(),
                n <= glyphs@.len(),
                i + rest@.len() == n,
                forall|m: int| 0 <= m < rest@.len() ==> rest@[m] == sets[n - 1 - m],
                kept_glyphs@ == kept_pair_glyphs(glyphs@, sets, *plan, i as int),
                kept_sets@.len() == kept_glyphs@.len(),
                kept_pair_positions(glyphs@, sets, *plan, i as int).len() == kept_sets@.len(),
                forall|k: int|
                    0 <= k < kept_sets@.len() ==> {
                        let p = kept_pair_positions(glyphs@, sets, *plan, i as int)[k];
                        &&& 0 <= p < i
                        &&& kept_glyphs@[k] == plan.gid(glyphs@[p])->0
                        &&& (sets[p].obj() matches Some(o) && ((#[trigger] kept_sets@[k]).obj() matches Some(ps)
                            && ps.pair_value_records@ == remapped_pairs(o.pair_value_records@, *plan)))
                    },
                forall|a: int, b: int|
                    0 <= a < b < kept_sets@.len() ==> kept_pair_positions(glyphs@, sets, *plan, i as int)[a]
                        < kept_pair_positions(glyphs@, sets, *plan, i as int)[b],
                forall|k: int|
                    0 <= k < kept_sets@.len() ==> ((#[trigger] kept_sets@[k]).obj() matches Some(ps)
                        && ps.pair_value_records@.len() > 0),
            decreases rest@.len(),
        {
            let mut set = rest.pop().unwrap();
            assert(set == sets[i as int]);
            let glyph = glyphs[i];
            let ghost before = kept_sets@;
            match plan.remap_gid(glyph) {
                Some(g) => {
                    let left = match set.get_mut() {
                        Some(ps) => ps.subset_pairs(plan),
                        None => false,
                    };
                    if left {
                        kept_sets.push(set);
                        kept_glyphs.push(g);
                        proof {
                            assert forall|k: int|
                                0 <= k < kept_sets@.len() implies ((#[trigger] kept_sets@[k]).obj() matches Some(ps)
                                    && ps.pair_value_records@.len() > 0) by {
                                if k < before.len() {
                                    assert(kept_sets@[k] == before[k]);
                                }
                            }
                            let pos = kept_pair_positions(glyphs@, sets, *plan, i + 1);
                            assert(pos == kept_pair_positions(glyphs@, sets, *plan, i as int).push(i as int));
                            assert forall|k: int|
                                0 <= k < kept_sets@.len() implies {
                                    let p = pos[k];
                                    &&& 0 <= p < i + 1
                                    &&& kept_glyphs@[k] == plan.gid(glyphs@[p])->0
                                    &&& (sets[p].obj() matches Some(o) && ((#[trigger] kept_sets@[k]).obj() matches Some(
                                        ps,
                                    ) && ps.pair_value_records@ == remapped_pairs(o.pair_value_records@, *plan)))
                                } by {
                                if k < before.len() {
                                    assert(kept_sets@[k] == before[k]);
                                }
                            }
                        }
                    }
                },
                None => {},
            }
            proof {
                let p0 = kept_pair_positions(glyphs@, sets, *plan, i as int);
                let p1 = kept_pair_positions(glyphs@, sets, *plan, i + 1);
                assert forall|k: int| 0 <= k < p0.len() implies p0[k] < i by {
                    assert(kept_sets@[k] == before[k]);
                }
                assert forall|a: int, b: int| 0 <= a < b < kept_sets@.len() implies p1[a] < p1[b] by {
                    if b < p0.len() {
                        assert(p1[a] == p0[a] && p1[b] == p0[b]);
                    } else {
                        assert(p1[b] == i);
                        assert(p1[a] == p0[a]);
                    }
                }
            }
            i = i + 1;
        }
        assert(i == n);
        let kept_len = kept_glyphs.len();
        self.pair_set_offsets = kept_sets;
        self.coverage_offset.set(CoverageTable::Format1 { glyphs: kept_glyphs });
        Ok(kept_len > 0)
    }
}

/// The set at `i` stays: its glyph survives and it keeps a pair.
pub open spec fn pair_kept(glyphs: Seq<u16>, sets: Seq<OffsetMarker<Offset16, PairSet>>, plan: Plan, i: int) -> bool {
    &&& plan.gid(glyphs[i]) is Some
    &&& (sets[i].obj() matches Some(ps) && remapped_pairs(ps.pair_value_records@, plan).len() > 0)
}

/// The positions of the sets that stay, among the first `n`.
pub open spec fn kept_pair_positions(
    glyphs: Seq<u16>,
    sets: Seq<OffsetMarker<Offset16, PairSet>>,
    plan: Plan,
    n: int,
) -> Seq<int>
    decreases n,
{
    if n <= 0 {
        Seq::empty()
    } else {
        let prev = kept_pair_positions(glyphs, sets, plan, n - 1);
        if pair_kept(glyphs, sets, plan, n - 1) {
            prev.push(n - 1)
        } else {
            prev
        }
    }
}

/// The new ids of the glyphs whose sets stay, among the first `n`.
pub open spec fn kept_pair_glyphs(
    glyphs: Seq<u16>,
    sets: Seq<OffsetMarker<Offset16, PairSet>>,
    plan: Plan,
    n: int,
) -> Seq<u16>
    decreases n,
{
    if n <= 0 {
        Seq::empty()
    } else {
        let prev = kept_pair_glyphs(glyphs, sets, plan, n - 1);
        if pair_kept(glyphs, sets, plan, n - 1) {
            prev.push(plan.gid(glyphs[n - 1])->0)
        } else {
            prev
        }
    }
}

impl Table for PairPosFormat1 {
    fn describe(&self, writer: &mut TableWriter) {
        writer.write(1u16);
        self.coverage_offset.write_into(writer);
        writer.write(self.value_format1.0);
        writer.write(self.value_format2.0);
        writer.write(count_u16(self.pair_set_offsets.len()));
        let mut i: usize = 0;
        while i < self.pair_set_offsets.len()
            invariant
                writer.wf(),
                writer.finished() >= old(writer).finished(),
                writer.keeps(*old(writer)),
            decreases self.pair_set_offsets@.len() - i,
        {
            self.pair_set_offsets[i].write_into(writer);
            i = i + 1;
        }
    }
}

impl Subset for PairPosFormat1 {
    open spec fn kept(&self) -> bool {
        coverage_kept(&self.coverage_offset)
    }

    open spec fn subset_post(old: Self, new: Self, plan: Plan, r: Result<bool, Error>) -> bool {
        &&& (old.coverage_offset.obj() is None ==> r is Err)
        &&& (r is Err ==> new == old)
        &&& (old.coverage_offset.obj() matches Some(c) ==> {
                let glyphs = c.spec_glyphs();
                let sets = old.pair_set_offsets@;
                let kept = kept_pair_glyphs(glyphs, sets, plan, sets.len() as int);
                &&& (r is Ok <==> sets.len() <= glyphs.len())
                &&& (r is Ok ==> {
                    &&& (new.coverage_offset.obj() matches Some(n) && n is Format1 && n.spec_glyphs()
                        == kept)
                    &&& new.pair_set_offsets@.len() == kept.len()
                    &&& forall|i: int|
                        0 <= i < new.pair_set_offsets@.len() ==> ((
                        #[trigger] new.pair_set_offsets@[i]).obj() matches Some(ps)
                            && ps.pair_value_records@.len() > 0)
                    &&& forall|k: int|
                        0 <= k < new.pair_set_offsets@.len() ==> {
                            let p = kept_pair_positions(glyphs, sets, plan, sets.len() as int)[k];
                            &&& 0 <= p < sets.len()
                            &&& kept[k] == plan.gid(glyphs[p])->0
                            &&& (sets[p].obj() matches Some(o) && ((#[trigger] new.pair_set_offsets@[k]).obj()
                                matches Some(ps) && ps.pair_value_records@ == remapped_pairs(
                                o.pair_value_records@,
                                plan,
                            )))
                        }
                    &&& forall|a: int, b: int|
                        0 <= a < b < kept.len() ==> kept_pair_positions(glyphs, sets, plan, sets.len() as int)[a]
                            < kept_pair_positions(glyphs, sets, plan, sets.len() as int)[b]
                    &&& r == Ok::<bool, Error>(kept.len() > 0)
                })
            })
    }

    fn subset(&mut self, plan: &Plan) -> (r: Result<bool, Error>) {
        self.subset_pairs(plan)
    }
}

/// An anchor point given by its design-unit coordinates.
#[derive(Clone, Copy, Debug, PartialEq, Eq, Structural)]
pub struct AnchorFormat1 {
    pub x_coordinate: i16,
    pub y_coordinate: i16,
}

/// An anchor point with a contour point index for hinting.
#[derive(Clone, Copy, Debug, PartialEq, Eq, Structural)]
pub struct AnchorFormat2 {
    pub x_coordinate: i16,
    pub y_coordinate: i16,
    pub anchor_point: u16,
}

impl AnchorFormat1 {
    pub fn read(bytes: &[u8]) -> (r: Option<AnchorFormat1>)
        ensures
            r is Some <==> bytes@.len() >= 6 && be_u16(bytes@, 0) == 1,
            r matches Some(a) ==> a.x_coordinate == be_i16(bytes@, 2) && a.y_coordinate == be_i16(
                bytes@,
                4,
            ),
    {
        if bytes.len() < 6 || read_u16(bytes, 0) != Some(1u16) {
            return None;
        }
        Some(
            AnchorFormat1 {
                x_coordinate: read_i16(bytes, 2).unwrap(),
                y_coordinate: read_i16(bytes, 4).unwrap(),
            },
        )
    }
}

impl AnchorFormat2 {
    pub fn read(bytes: &[u8]) -> (r: Option<AnchorFormat2>)
        ensures
            r is Some <==> bytes@.len() >= 8 && be_u16(bytes@, 0) == 2,
            r matches Some(a) ==> a.x_coordinate == be_i16(bytes@, 2) && a.y_coordinate == be_i16(
                bytes@,
                4,
            ) && a.anchor_point == be_u16(bytes@, 6),
    {
        if bytes.len() < 8 || read_u16(bytes, 0) != Some(2u16) {
            return None;
        }
        Some(
            AnchorFormat2 {
                x_coordinate: read_i16(bytes, 2).unwrap(),
                y_coordinate: read_i16(bytes, 4).unwrap(),
                anchor_point: read_u16(bytes, 6).unwrap(),
            },
        )
    }
}

impl Table for AnchorFormat1 {
    fn describe(&self, writer: &mut TableWriter) {
        writer.write(1u16);
        writer.write(self.x_coordinate);
        writer.write(self.y_coordinate);
    }
}

impl Table for AnchorFormat2 {
    fn describe(&self, writer: &mut TableWriter) {
        writer.write(2u16);
        writer.write(self.x_coordinate);
        writer.write(self.y_coordinate);
        writer.write(self.anchor_point);
    }
}

/// A lookup applied at one position of a matched sequence.
#[derive(Clone, Copy, Debug, PartialEq, Eq, Structural)]
pub struct SequenceLookupRecord {
    sequence_index: u16,
    lookup_list_index: u16,
}

impl SequenceLookupRecord {
    pub closed spec fn spec_sequence_index(&self) -> u16 {
        self.sequence_index
    }

    pub closed spec fn spec_lookup_list_index(&self) -> u16 {
        self.lookup_list_index
    }

    pub fn read(bytes: &[u8]) -> (r: Option<SequenceLookupRecord>)
        ensures
            r is Some <==> bytes@.len() >= 4,
            r matches Some(s) ==> s.spec_sequence_index() == be_u16(bytes@, 0)
                && s.spec_lookup_list_index() == be_u16(bytes@, 2),
    {
        if bytes.len() < 4 {
            return None;
        }
        Some(
            SequenceLookupRecord {
                sequence_index: read_u16(bytes, 0).unwrap(),
                lookup_list_index: read_u16(bytes, 2).unwrap(),
            },
        )
    }

    /// The position in the input sequence the lookup applies at.
    pub fn sequence_index(&self) -> (r: u16)
        ensures
            r == self.spec_sequence_index(),
    {
        self.sequence_index
    }

    /// The index of the lookup in the lookup list.
    pub fn lookup_list_index(&self) -> (r: u16)
        ensures
            r == self.spec_lookup_list_index(),
    {
        self.lookup_list_index
    }
}

/// Contextual positioning, format 3: one coverage per position of the
/// input sequence, and the lookups to apply at positions of a match.
pub struct SequenceContextFormat3 {
    pub coverage_offsets: Vec<OffsetMarker<Offset16, CoverageTable>>,
    pub seq_lookup_records: Vec<SequenceLookupRecord>,
}

impl SequenceContextFormat3 {
    /// Reads the subtable and its coverages into owned values; `None` unless
    /// the offsets and the records fit.
    pub fn read(bytes: &[u8]) -> (r: Option<SequenceContextFormat3>)
        ensures
            r is Some <==> bytes@.len() >= 6 && be_u16(bytes@, 0) == 3 && bytes@.len() >= 6 + 2
                * be_u16(bytes@, 2) + 4 * be_u16(bytes@, 4),
            r matches Some(t) ==> t.coverage_offsets@.len() == be_u16(bytes@, 2)
                && t.seq_lookup_records@.len() == be_u16(bytes@, 4),
    {
        if bytes.len() < 6 || read_u16(bytes, 0) != Some(3u16) {
            return None;
        }
        let glyph_count = read_u16(bytes, 2).unwrap() as usize;
        let lookup_count = read_u16(bytes, 4).unwrap() as usize;
        if bytes.len() < 6 + 2 * glyph_count + 4 * lookup_count {
            return None;
        }
        let mut coverage_offsets: Vec<OffsetMarker<Offset16, CoverageTable>> = Vec::new();
        let mut i: usize = 0;
        while i < glyph_count
            invariant
                glyph_count <= 0xFFFF,
                lookup_count <= 0xFFFF,
                bytes@.len() >= 6 + 2 * glyph_count + 4 * lookup_count,
                i <= glyph_count,
                coverage_offsets@.len() == i,
            decreases glyph_count - i,
        {
            coverage_offsets.push(OffsetMarker::new_maybe_null(read_coverage(bytes, 6 + 2 * i)));
            i = i + 1;
        }
        let base = 6 + 2 * glyph_count;
        let mut seq_lookup_records: Vec<SequenceLookupRecord> = Vec::new();
        let mut k: usize = 0;
        while k < lookup_count
            invariant
                glyph_count <= 0xFFFF,
                lookup_count <= 0xFFFF,
                base == 6 + 2 * glyph_count,
                bytes@.len() >= base + 4 * lookup_count,
                k <= lookup_count,
                seq_lookup_records@.len() == k,
            decreases lookup_count - k,
        {
            let start = base + 4 * k;
            let rec = SequenceLookupRecord::read(&bytes[start..bytes.len()]).unwrap();
            seq_lookup_records.push(rec);
            k = k + 1;
        }
        Some(SequenceContextFormat3 { coverage_offsets, seq_lookup_records })
    }
}

impl Table for SequenceContextFormat3 {
    fn describe(&self, writer: &mut TableWriter) {
        writer.write(3u16);
        writer.write(count_u16(self.coverage_offsets.len()));
        writer.write(count_u16(self.seq_lookup_records.len()));
        let mut i: usize = 0;
        while i < self.coverage_offsets.len()
            invariant
                writer.wf(),
                writer.finished() >= old(writer).finished(),
                writer.keeps(*old(writer)),
            decreases self.coverage_offsets@.len() - i,
        {
            self.coverage_offsets[i].write_into(writer);
            i = i + 1;
        }
        let mut k: usize = 0;
        while k < self.seq_lookup_records.len()
            invariant
                writer.wf(),
                writer.finished() >= old(writer).finished(),
                writer.keeps(*old(writer)),
            decreases self.seq_lookup_records@.len() - k,
        {
            writer.write(self.seq_lookup_records[k].sequence_index());
            writer.write(self.seq_lookup_records[k].lookup_list_index());
            k = k + 1;
        }
    }
}

/// A lookup table: its type, flags and subtable offsets.
pub struct Lookup<'a> {
    data: &'a [u8],
}

impl<'a> Lookup<'a> {
    pub closed spec fn bytes(&self) -> Seq<u8> {
        self.data@
    }

    /// The fixed fields and the subtable offsets fit.
    pub open spec fn fits(data: Seq<u8>) -> bool {
        data.len() >= 6 && data.len() >= 6 + 2 * be_u16(data, 4)
    }

    pub fn read(bytes: &'a [u8]) -> (r: Option<Lookup<'a>>)
        ensures
            r is Some <==> Self::fits(bytes@),
            r matches Some(l) ==> l.bytes() == bytes@,
    {
        let count = match read_u16(bytes, 4) {
            Some(c) => c as usize,
            None => return None,
        };
        if bytes.len() < 6 + 2 * count {
            return None;
        }
        Some(Lookup { data: bytes })
    }

    pub fn lookup_type(&self) -> (r: u16)
        requires
            Self::fits(self.bytes()),
        ensures
            r == be_u16(self.bytes(), 0),
    {
        read_u16(self.data, 0).unwrap()
    }

    pub fn lookup_flag(&self) -> (r: u16)
        requires
            Self::fits(self.bytes()),
        ensures
            r == be_u16(self.bytes(), 2),
    {
        read_u16(self.data, 2).unwrap()
    }

    pub fn subtable_count(&self) -> (r: u16)
        requires
            Self::fits(self.bytes()),
        ensures
            r == be_u16(self.bytes(), 4),
    {
        read_u16(self.data, 4).unwrap()
    }

    /// The bytes subtable `i` points to; `None` past the count, for a null
    /// offset or one past the end.
    pub fn subtable_bytes(&self, i: u16) -> (r: Option<&'a [u8]>)
        requires
            Self::fits(self.bytes()),
        ensures
            r is Some ==> i < be_u16(self.bytes(), 4),
            r matches Some(b) ==> ({
                let off = be_u16(self.bytes(), 6 + 2 * i);
                off != 0 && b@ == self.bytes().subrange(off as int, self.bytes().len() as int)
            }),
    {
        if i >= self.subtable_count() {
            return None;
        }
        let off = read_u16(self.data, 6 + 2 * (i as usize)).unwrap() as usize;
        if off == 0 || off > self.data.len() {
            return None;
        }
        Some(&self.data[off..self.data.len()])
    }
}

/// A positioning lookup, by lookup type.
pub enum PositionLookup<'a> {
    Single(Lookup<'a>),
    Pair(Lookup<'a>),
    Cursive(Lookup<'a>),
    MarkToBase(Lookup<'a>),
    MarkToLig(Lookup<'a>),
    MarkToMark(Lookup<'a>),
    Contextual(Lookup<'a>),
    ChainContextual(Lookup<'a>),
    Extension(Lookup<'a>),
}

impl<'a> PositionLookup<'a> {
    /// Reads the lookup and picks the variant of its type; `None` for a type
    /// outside `1 ..= 9` or a lookup that does not fit.
    pub fn read(bytes: &'a [u8]) -> (r: Option<PositionLookup<'a>>)
        ensures
            r is Some <==> Lookup::fits(bytes@) && 1 <= be_u16(bytes@, 0) <= 9,
            r matches Some(PositionLookup::Single(_)) ==> be_u16(bytes@, 0) == 1,
            r matches Some(PositionLookup::Pair(_)) ==> be_u16(bytes@, 0) == 2,
            r matches Some(PositionLookup::Cursive(_)) ==> be_u16(bytes@, 0) == 3,
            r matches Some(PositionLookup::MarkToBase(_)) ==> be_u16(bytes@, 0) == 4,
            r matches Some(PositionLookup::MarkToLig(_)) ==> be_u16(bytes@, 0) == 5,
            r matches Some(PositionLookup::MarkToMark(_)) ==> be_u16(bytes@, 0) == 6,
            r matches Some(PositionLookup::Contextual(_)) ==> be_u16(bytes@, 0) == 7,
            r matches Some(PositionLookup::ChainContextual(_)) ==> be_u16(bytes@, 0) == 8,
            r matches Some(PositionLookup::Extension(_)) ==> be_u16(bytes@, 0) == 9,
            r matches Some(l) ==> l.spec_lookup().bytes() == bytes@,
    {
        let lookup = match Lookup::read(bytes) {
            Some(l) => l,
            None => return None,
        };
        match lookup.lookup_type() {
            1 => Some(PositionLookup::Single(lookup)),
            2 => Some(PositionLookup::Pair(lookup)),
            3 => Some(PositionLookup::Cursive(lookup)),
            4 => Some(PositionLookup::MarkToBase(lookup)),
            5 => Some(PositionLookup::MarkToLig(lookup)),
            6 => Some(PositionLookup::MarkToMark(lookup)),
            7 => Some(PositionLookup::Contextual(lookup)),
            8 => Some(PositionLookup::ChainContextual(lookup)),
            9 => Some(PositionLookup::Extension(lookup)),
            _ => None,
        }
    }

    /// The lookup behind the variant.
    pub open spec fn spec_lookup(&self) -> Lookup<'a> {
        match self {
            PositionLookup::Single(l) => *l,
            PositionLookup::Pair(l) => *l,
            PositionLookup::Cursive(l) => *l,
            PositionLookup::MarkToBase(l) => *l,
            PositionLookup::MarkToLig(l) => *l,
            PositionLookup::MarkToMark(l) => *l,
            PositionLookup::Contextual(l) => *l,
            PositionLookup::ChainContextual(l) => *l,
            PositionLookup::Extension(l) => *l,
        }
    }

    /// The lookup behind the variant.
    pub fn lookup(&self) -> (r: &Lookup<'a>)
        ensures
            *r == self.spec_lookup(),
    {
        match self {
            PositionLookup::Single(l) => l,
            PositionLookup::Pair(l) => l,
            PositionLookup::Cursive(l) => l,
            PositionLookup::MarkToBase(l) => l,
            PositionLookup::MarkToLig(l) => l,
            PositionLookup::MarkToMark(l) => l,
            PositionLookup::Contextual(l) => l,
            PositionLookup::ChainContextual(l) => l,
            PositionLookup::Extension(l) => l,
        }
    }
}

/// The bytes lookup `i` of a lookup list points to.
pub open spec fn lookup_target(list: Seq<u8>, i: int) -> Seq<u8> {
    list.subrange(be_u16(list, 2 + 2 * i) as int, list.len() as int)
}

/// Lookup `i` of a lookup list exists, its offset is set and inside, and a
/// positioning lookup of a known type is there.
pub open spec fn lookup_resolves(list: Seq<u8>, i: int) -> bool {
    let off = be_u16(list, 2 + 2 * i) as int;
    &&& 0 <= i < be_u16(list, 0)
    &&& off != 0
    &&& off <= list.len()
    &&& Lookup::fits(lookup_target(list, i))
    &&& 1 <= be_u16(lookup_target(list, i), 0) <= 9
}

/// The targets of the lookups before `n` that resolve, in order.
pub open spec fn resolved_targets(list: Seq<u8>, n: int) -> Seq<Seq<u8>>
    decreases n,
{
    if n <= 0 {
        Seq::empty()
    } else {
        let prev = resolved_targets(list, n - 1);
        if lookup_resolves(list, n - 1) {
            prev.push(lookup_target(list, n - 1))
        } else {
            prev
        }
    }
}

/// The list of positioning lookups: a count and an offset to each.
pub struct PositionLookupList<'a> {
    data: &'a [u8],
}

impl<'a> PositionLookupList<'a> {
    pub closed spec fn bytes(&self) -> Seq<u8> {
        self.data@
    }

    pub open spec fn fits(data: Seq<u8>) -> bool {
        data.len() >= 2 && data.len() >= 2 + 2 * be_u16(data, 0)
    }

    pub fn read(bytes: &'a [u8]) -> (r: Option<PositionLookupList<'a>>)
        ensures
            r is Some <==> Self::fits(bytes@),
            r matches Some(l) ==> l.bytes() == bytes@,
    {
        let count = match read_u16(bytes, 0) {
            Some(c) => c as usize,
            None => return None,
        };
        if bytes.len() < 2 + 2 * count {
            return None;
        }
        Some(PositionLookupList { data: bytes })
    }

    pub fn lookup_count(&self) -> (r: u16)
        requires
            Self::fits(self.bytes()),
        ensures
            r == be_u16(self.bytes(), 0),
    {
        read_u16(self.data, 0).unwrap()
    }

    /// Lookup `i`; `None` past the count, for a null offset, or when the
    /// target is not a positioning lookup.
    pub fn get(&self, i: u16) -> (r: Option<PositionLookup<'a>>)
        requires
            Self::fits(self.bytes()),
        ensures
            r is Some <==> lookup_resolves(self.bytes(), i as int),
            r matches Some(l) ==> l.spec_lookup().bytes() == lookup_target(self.bytes(), i as int),
    {
        if i >= self.lookup_count() {
            return None;
        }
        let off = read_u16(self.data, 2 + 2 * (i as usize)).unwrap() as usize;
        if off == 0 || off > self.data.len() {
            return None;
        }
        PositionLookup::read(&self.data[off..self.data.len()])
    }

    /// Every lookup that resolves, in list order.
    pub fn iter(&self) -> (r: Vec<PositionLookup<'a>>)
        requires
            Self::fits(self.bytes()),
        ensures
            r@.len() == resolved_targets(self.bytes(), be_u16(self.bytes(), 0) as int).len(),
            forall|j: int|
                0 <= j < r@.len() ==> (#[trigger] r@[j]).spec_lookup().bytes() == resolved_targets(
                    self.bytes(),
                    be_u16(self.bytes(), 0) as int,
                )[j],
    {
        let n = self.lookup_count();
        let mut out: Vec<PositionLookup<'a>> = Vec::new();
        let mut i: u16 = 0;
        while i < n
            invariant
                Self::fits(self.bytes()),
                n == be_u16(self.bytes(), 0),
                i <= n,
                out@.len() == resolved_targets(self.bytes(), i as int).len(),
                forall|j: int|
                    0 <= j < out@.len() ==> (#[trigger] out@[j]).spec_lookup().bytes() == resolved_targets(
                        self.bytes(),
                        i as int,
                    )[j],
            decreases n - i,
        {
            let ghost before = out@;
            if let Some(l) = self.get(i) {
                out.push(l);
            }
            proof {
                assert forall|j: int| 0 <= j < out@.len() implies (#[trigger] out@[j]).spec_lookup().bytes()
                    == resolved_targets(self.bytes(), i + 1)[j] by {
                    if j < before.len() {
                        assert(out@[j] == before[j]);
                    }
                }
            }
            i = i + 1;
        }
        out
    }
}

/// Reading the fields from a suffix is reading them further on.
proof fn lemma_value_fields_shift(data: Seq<u8>, start: int, format: u16, k: u16, pos: int)
    requires
        0 <= start <= data.len(),
        0 <= pos,
        k <= VALUE_FIELDS,
        start + pos + 2 * (bits_below(format, 8) - bits_below(format, k as nat)) <= data.len(),
    ensures
        value_fields(data.subrange(start, data.len() as int), format, k, pos) == value_fields(
            data,
            format,
            k,
            start + pos,
        ),
    decreases VALUE_FIELDS - k,
{
    let sub = data.subrange(start, data.len() as int);
    if k < VALUE_FIELDS {
        lemma_bits_below_mono(format, (k + 1) as nat, 8);
        if bit_set(format, k) {
            lemma_value_fields_shift(data, start, format, (k + 1) as u16, pos + 2);
            assert forall|m: int| 0 <= m < 2 implies #[trigger] sub[pos + m] == data[start + pos + m] by {}
            crate::scalar::lemma_be_value_window(sub, pos, data, start + pos, 2);
        } else {
            lemma_value_fields_shift(data, start, format, (k + 1) as u16, pos);
        }
    }
}

} // verus!
