//! Mark attachment: anchors, mark and base arrays indexed by coverage, and
//! the mark-to-base subtable with its two coverage-indexed arrays.
use vstd::prelude::*;

use std::collections::HashSet;

use crate::compile::{Table, TableWriter};
use crate::layout::{coverage_kept, be_u16, count_u16, read_coverage, AnchorFormat1, AnchorFormat2, CoverageTable};
use crate::offsets::{NullableOffsetMarker, OffsetMarker};
use crate::scalar::{read_u16, Offset16};
use crate::subset::{covered_values, remapped_ids, retain_covered, Error, Plan, Subset};

verus! {

/// An anchor table, by format.
#[derive(Clone, Copy, Debug, PartialEq, Eq, Structural)]
pub enum AnchorTable {
    Format1(AnchorFormat1),
    Format2(AnchorFormat2),
}

impl AnchorTable {
    /// Reads the format and the matching anchor; `None` for another format.
    pub fn read(bytes: &[u8]) -> (r: Option<AnchorTable>)
        ensures
            r matches Some(AnchorTable::Format1(_)) ==> be_u16(bytes@, 0) == 1,
            r matches Some(AnchorTable::Format2(_)) ==> be_u16(bytes@, 0) == 2,
    {
        match read_u16(bytes, 0) {
            Some(1) => match AnchorFormat1::read(bytes) {
                Some(a) => Some(AnchorTable::Format1(a)),
                None => None,
            },
            Some(2) => match AnchorFormat2::read(bytes) {
                Some(a) => Some(AnchorTable::Format2(a)),
                None => None,
            },
            _ => None,
        }
    }
}

impl Table for AnchorTable {
    fn describe(&self, writer: &mut TableWriter) {
        match self {
            AnchorTable::Format1(a) => a.describe(writer),
            AnchorTable::Format2(a) => a.describe(writer),
        }
    }
}

/// The anchor at offset `pos` of `bytes`, if it is set and reads.
fn anchor_at(bytes: &[u8], pos: usize) -> (r: Option<AnchorTable>) {
    match read_u16(bytes, pos) {
        Some(off) => {
            if off == 0 || off as usize > bytes.len() {
                None
            } else {
                AnchorTable::read(&bytes[off as usize..bytes.len()])
            }
        },
        None => None,
    }
}

/// The class of a mark and where it attaches.
pub struct MarkRecord {
    pub mark_class: u16,
    pub mark_anchor_offset: OffsetMarker<Offset16, AnchorTable>,
}

/// One record per covered mark, in coverage order.
pub struct MarkArray {
    pub mark_records: Vec<MarkRecord>,
}

/// The classes of the records, in order.
pub open spec fn classes(recs: Seq<MarkRecord>) -> Seq<u16> {
    recs.map_values(|r: MarkRecord| r.mark_class)
}

impl MarkArray {
    /// Reads a count and that many records of a class and an anchor offset.
    pub fn read(bytes: &[u8]) -> (r: Option<MarkArray>)
        ensures
            r is Some <==> bytes@.len() >= 2 && bytes@.len() >= 2 + 4 * be_u16(bytes@, 0),
            r matches Some(a) ==> a.mark_records@.len() == be_u16(bytes@, 0) && forall|i: int|
                0 <= i < a.mark_records@.len() ==> (#[trigger] a.mark_records@[i]).mark_class == be_u16(
                    bytes@,
                    2 + 4 * i,
                ),
    {
        let count = match read_u16(bytes, 0) {
            Some(c) => c as usize,
            None => return None,
        };
        if bytes.len() < 2 + 4 * count {
            return None;
        }
        let mut recs: Vec<MarkRecord> = Vec::new();
        let mut i: usize = 0;
        while i < count
            invariant
                count <= 0xFFFF,
                bytes@.len() >= 2 + 4 * count,
                i <= count,
                recs@.len() == i,
                forall|m: int| 0 <= m < i ==> (#[trigger] recs@[m]).mark_class == be_u16(bytes@, 2 + 4 * m),
            decreases count - i,
        {
            let mark_class = read_u16(bytes, 2 + 4 * i).unwrap();
            let anchor = anchor_at(bytes, 4 + 4 * i);
            recs.push(MarkRecord { mark_class, mark_anchor_offset: OffsetMarker::new_maybe_null(anchor) });
            i = i + 1;
        }
        Some(MarkArray { mark_records: recs })
    }

    /// The number of distinct mark classes.
    pub fn class_count(&self) -> (r: usize)
        ensures
            r == classes(self.mark_records@).to_set().len(),
    {
        broadcast use vstd::std_specs::hash::group_hash_axioms;

        let ghost all = classes(self.mark_records@);
        let mut found: HashSet<u16> = HashSet::new();
        let mut i: usize = 0;
        while i < self.mark_records.len()
            invariant
                all == classes(self.mark_records@),
                i <= self.mark_records@.len(),
                found@ == all.subrange(0, i as int).to_set(),
            decreases self.mark_records@.len() - i,
        {
            let c = self.mark_records[i].mark_class;
            proof {
                assert(all.subrange(0, i + 1) =~= all.subrange(0, i as int) + seq![c]);
                Seq::lemma_to_set_insert_commutes(all.subrange(0, i as int), c);
            }
            found.insert(c);
            i = i + 1;
        }
        assert(all.subrange(0, i as int) =~= all);
        found.len()
    }
}

impl MarkArray {
    /// Keeps the records whose coverage glyph survives, in step with the
    /// coverage; fails when the coverage is shorter than the records.
    pub fn retain_covered_marks(&mut self, coverage: &Vec<u16>, plan: &Plan) -> (r: Result<(), Error>)
        requires
            plan.wf(),
        ensures
            r is Ok <==> old(self).mark_records@.len() <= coverage@.len(),
            r is Ok ==> final(self).mark_records@ == covered_values(coverage@, old(self).mark_records@, *plan),
    {
        let mut recs: Vec<MarkRecord> = Vec::new();
        std::mem::swap(&mut self.mark_records, &mut recs);
        match retain_covered(coverage, recs, plan) {
            Ok(k) => {
                self.mark_records = k;
                Ok(())
            },
            Err(e) => Err(e),
        }
    }
}

impl Table for MarkArray {
    fn describe(&self, writer: &mut TableWriter) {
        writer.write(count_u16(self.mark_records.len()));
        let mut i: usize = 0;
        while i < self.mark_records.len()
            invariant
                writer.wf(),
                writer.finished() >= old(writer).finished(),
                writer.keeps(*old(writer)),
            decreases self.mark_records@.len() - i,
        {
            writer.write(self.mark_records[i].mark_class);
            self.mark_records[i].mark_anchor_offset.write_into(writer);
            i = i + 1;
        }
    }
}

/// One row of anchors, one per mark class: the anchors of a base glyph,
/// of a mark that others attach to, or of one ligature component.
pub struct BaseRecord {
    pub base_anchor_offsets: Vec<NullableOffsetMarker<Offset16, AnchorTable>>,
}

/// Rows of anchors: one per covered base glyph (or attached-to mark), in
/// coverage order, or one per component of a ligature.
pub struct BaseArray {
    pub base_records: Vec<BaseRecord>,
}

/// A count and that many rows of `class_count` anchor offsets fit.
pub open spec fn rows_fit(t: Seq<u8>, class_count: u16) -> bool {
    &&& t.len() >= 2
    &&& (class_count == 0 || (t.len() - 2) / 2 / (class_count as int) >= be_u16(t, 0))
}

/// The rows of anchors an offset at `pos` points to read: the offset is
/// set, inside the bytes, and the rows there fit.
pub open spec fn rows_at_ok(bytes: Seq<u8>, pos: int, class_count: u16) -> bool {
    let off = be_u16(bytes, pos) as int;
    off != 0 && off <= bytes.len() && rows_fit(bytes.subrange(off, bytes.len() as int), class_count)
}

impl BaseArray {
    /// Reads a count and that many records of `class_count` anchor offsets.
    pub fn read(bytes: &[u8], class_count: u16) -> (r: Option<BaseArray>)
        ensures
            r is Some <==> rows_fit(bytes@, class_count),
            r matches Some(a) ==> a.base_records@.len() == be_u16(bytes@, 0) && forall|i: int|
                0 <= i < a.base_records@.len() ==> (#[trigger] a.base_records@[i]).base_anchor_offsets@.len()
                    == class_count,
    {
        let count = match read_u16(bytes, 0) {
            Some(c) => c as usize,
            None => return None,
        };
        let width = class_count as usize;
        if bytes.len() < 2 {
            return None;
        }
        let size = bytes.len();
        let half = (size - 2) / 2;
        if width > 0 && half / width < count {
            return None;
        }
        proof {
            if width > 0 {
                let cap = half / width;
                assert(cap * width <= half) by (nonlinear_arith)
                    requires
                        width > 0,
                        cap == half / width,
                ;
                assert(count * width <= cap * width) by (nonlinear_arith)
                    requires
                        count <= cap,
                ;
            }
        }
        let mut recs: Vec<BaseRecord> = Vec::new();
        let mut i: usize = 0;
        while i < count
            invariant
                count <= 0xFFFF,
                width == class_count,
                width > 0 ==> count * width <= half,
                2 + 2 * half <= bytes@.len(),
                bytes@.len() == size,
                i <= count,
                recs@.len() == i,
                forall|m: int| 0 <= m < i ==> (#[trigger] recs@[m]).base_anchor_offsets@.len() == class_count,
            decreases count - i,
        {
            let mut anchors: Vec<NullableOffsetMarker<Offset16, AnchorTable>> = Vec::new();
            let mut k: usize = 0;
            while k < width
                invariant
                    k <= width,
                    anchors@.len() == k,
                    width > 0 ==> count * width <= half,
                    2 + 2 * half <= bytes@.len(),
                    bytes@.len() == size,
                    i < count,
                decreases width - k,
            {
                assert(i * width + k < count * width) by (nonlinear_arith)
                    requires
                        i < count,
                        k < width,
                ;
                let pos = 2 + 2 * (i * width + k);
                anchors.push(NullableOffsetMarker::new(anchor_at(bytes, pos)));
                k = k + 1;
            }
            recs.push(BaseRecord { base_anchor_offsets: anchors });
            i = i + 1;
        }
        Some(BaseArray { base_records: recs })
    }
}

impl BaseArray {
    /// Keeps the rows whose coverage glyph survives, in step with the
    /// coverage; fails when the coverage is shorter than the rows.
    pub fn retain_covered_rows(&mut self, coverage: &Vec<u16>, plan: &Plan) -> (r: Result<(), Error>)
        requires
            plan.wf(),
        ensures
            r is Ok <==> old(self).base_records@.len() <= coverage@.len(),
            r is Ok ==> final(self).base_records@ == covered_values(coverage@, old(self).base_records@, *plan),
    {
        let mut recs: Vec<BaseRecord> = Vec::new();
        std::mem::swap(&mut self.base_records, &mut recs);
        match retain_covered(coverage, recs, plan) {
            Ok(k) => {
                self.base_records = k;
                Ok(())
            },
            Err(e) => Err(e),
        }
    }
}

impl Table for BaseArray {
    fn describe(&self, writer: &mut TableWriter) {
        writer.write(count_u16(self.base_records.len()));
        let mut i: usize = 0;
        while i < self.base_records.len()
            invariant
                writer.wf(),
                writer.finished() >= old(writer).finished(),
                writer.keeps(*old(writer)),
            decreases self.base_records@.len() - i,
        {
            let rec = &self.base_records[i];
            let mut k: usize = 0;
            while k < rec.base_anchor_offsets.len()
                invariant
                    writer.wf(),
                    writer.finished() >= old(writer).finished(),
                    writer.keeps(*old(writer)),
                decreases rec.base_anchor_offsets@.len() - k,
            {
                rec.base_anchor_offsets[k].write_into(writer);
                k = k + 1;
            }
            i = i + 1;
        }
    }
}

/// Mark-to-base attachment: marks and bases each with a coverage and an
/// array in coverage order.
pub struct MarkBasePosFormat1 {
    pub mark_coverage_offset: OffsetMarker<Offset16, CoverageTable>,
    pub base_coverage_offset: OffsetMarker<Offset16, CoverageTable>,
    pub mark_class_count: u16,
    pub mark_array_offset: OffsetMarker<Offset16, MarkArray>,
    pub base_array_offset: OffsetMarker<Offset16, BaseArray>,
}

impl MarkBasePosFormat1 {
    /// Reads the subtable and everything it references into owned values.
    pub fn read(bytes: &[u8]) -> (r: Option<MarkBasePosFormat1>)
        ensures
            r is Some <==> bytes@.len() >= 12 && be_u16(bytes@, 0) == 1,
            r matches Some(t) ==> t.mark_class_count == be_u16(bytes@, 6),
    {
        if bytes.len() < 12 || read_u16(bytes, 0) != Some(1u16) {
            return None;
        }
        let mark_class_count = read_u16(bytes, 6).unwrap();
        Some(
            MarkBasePosFormat1 {
                mark_coverage_offset: OffsetMarker::new_maybe_null(read_coverage(bytes, 2)),
                base_coverage_offset: OffsetMarker::new_maybe_null(read_coverage(bytes, 4)),
                mark_class_count,
                mark_array_offset: mark_array_at(bytes, 8),
                base_array_offset: Self::base_array_to_owned(bytes, mark_class_count),
            },
        )
    }

    /// The base array the offset at 10 points to, read with the class
    /// count.
    fn base_array_to_owned(bytes: &[u8], class_count: u16) -> (r: OffsetMarker<Offset16, BaseArray>)
        requires
            bytes@.len() >= 12,
        ensures
            r.obj() is Some <==> rows_at_ok(bytes@, 10, class_count),
    {
        OffsetMarker::new_maybe_null(anchor_rows_at(bytes, 10, class_count))
    }

    /// Keeps the mark records of surviving covered marks and the base
    /// records of surviving covered bases, each array walked together with
    /// its coverage, then subsets both coverages. Fails when a coverage is
    /// missing or shorter than its array; retained while both coverages
    /// keep a glyph.
    pub fn subset_marks(&mut self, plan: &Plan) -> (r: Result<bool, Error>)
        requires
            plan.wf(),
        ensures
            old(self).mark_coverage_offset.obj() is None || old(self).base_coverage_offset.obj() is None ==> r is Err
                && *final(self) == *old(self),
            old(self).mark_coverage_offset.obj() is Some && old(self).base_coverage_offset.obj() is Some ==> {
                let g1 = old(self).mark_coverage_offset.obj()->0.spec_glyphs();
                let g2 = old(self).base_coverage_offset.obj()->0.spec_glyphs();
                let fits = (old(self).mark_array_offset.obj() matches Some(m) ==> m.mark_records@.len() <= g1.len()) && (
                old(self).base_array_offset.obj() matches Some(b) ==> b.base_records@.len() <= g2.len());
                &&& (r is Ok <==> fits)
                &&& (r is Err ==> *final(self) == *old(self))
                &&& (r is Ok ==> {
                    &&& (final(self).mark_coverage_offset.obj() matches Some(n1) && n1 is Format1 && n1.spec_glyphs()
                        == remapped_ids(g1, *plan))
                    &&& (final(self).base_coverage_offset.obj() matches Some(n2) && n2 is Format1 && n2.spec_glyphs()
                        == remapped_ids(g2, *plan))
                    &&& (old(self).mark_array_offset.obj() is None ==> final(self).mark_array_offset.obj() is None)
                    &&& (old(self).base_array_offset.obj() is None ==> final(self).base_array_offset.obj() is None)
                    &&& (old(self).mark_array_offset.obj() matches Some(m) ==> (final(self).mark_array_offset.obj() matches Some(
                        m2,
                    ) && m2.mark_records@ == covered_values(g1, m.mark_records@, *plan)))
                    &&& (old(self).base_array_offset.obj() matches Some(b) ==> (final(self).base_array_offset.obj() matches Some(
                        b2,
                    ) && b2.base_records@ == covered_values(g2, b.base_records@, *plan)))
                    &&& r == Ok::<bool, Error>(remapped_ids(g1, *plan).len() > 0 && remapped_ids(g2, *plan).len()
                        > 0)
                })
            },
    {
        let glyphs1 = match self.mark_coverage_offset.get() {
            Some(c) => c.glyphs(),
            None => return Err(Error::new("mark attachment without mark coverage")),
        };
        let glyphs2 = match self.base_coverage_offset.get() {
            Some(c) => c.glyphs(),
            None => return Err(Error::new("mark attachment without base coverage")),
        };
        let fits1 = match self.mark_array_offset.get() {
            Some(m) => m.mark_records.len() <= glyphs1.len(),
            None => true,
        };
        let fits2 = match self.base_array_offset.get() {
            Some(b) => b.base_records.len() <= glyphs2.len(),
            None => true,
        };
        if !fits1 || !fits2 {
            return Err(Error::new("an array is longer than its coverage"));
        }
        if let Some(marks) = self.mark_array_offset.get_mut() {
            let _ = marks.retain_covered_marks(&glyphs1, plan);
        }
        if let Some(rows) = self.base_array_offset.get_mut() {
            let _ = rows.retain_covered_rows(&glyphs2, plan);
        }
        let left1 = match self.mark_coverage_offset.get_mut() {
            Some(c) => c.subset_glyphs(plan),
            None => false,
        };
        let left2 = match self.base_coverage_offset.get_mut() {
            Some(c) => c.subset_glyphs(plan),
            None => false,
        };
        Ok(left1 && left2)
    }
}

impl Table for MarkBasePosFormat1 {
    fn describe(&self, writer: &mut TableWriter) {
        writer.write(1u16);
        self.mark_coverage_offset.write_into(writer);
        self.base_coverage_offset.write_into(writer);
        writer.write(self.mark_class_count);
        self.mark_array_offset.write_into(writer);
        self.base_array_offset.write_into(writer);
    }
}

impl Subset for MarkBasePosFormat1 {
    open spec fn kept(&self) -> bool {
        coverage_kept(&self.mark_coverage_offset) && coverage_kept(&self.base_coverage_offset)
    }

    open spec fn subset_post(old: Self, new: Self, plan: Plan, r: Result<bool, Error>) -> bool {
        &&& (old.mark_coverage_offset.obj() is None || old.base_coverage_offset.obj() is None ==> r is Err
                && new == old)
        &&& (old.mark_coverage_offset.obj() is Some && old.base_coverage_offset.obj() is Some ==> {
                let g1 = old.mark_coverage_offset.obj()->0.spec_glyphs();
                let g2 = old.base_coverage_offset.obj()->0.spec_glyphs();
                let fits = (old.mark_array_offset.obj() matches Some(m) ==> m.mark_records@.len() <= g1.len()) && (
                old.base_array_offset.obj() matches Some(b) ==> b.base_records@.len() <= g2.len());
                &&& (r is Ok <==> fits)
                &&& (r is Err ==> new == old)
                &&& (r is Ok ==> {
                    &&& (new.mark_coverage_offset.obj() matches Some(n1) && n1 is Format1 && n1.spec_glyphs()
                        == remapped_ids(g1, plan))
                    &&& (new.base_coverage_offset.obj() matches Some(n2) && n2 is Format1 && n2.spec_glyphs()
                        == remapped_ids(g2, plan))
                    &&& (old.mark_array_offset.obj() is None ==> new.mark_array_offset.obj() is None)
                    &&& (old.base_array_offset.obj() is None ==> new.base_array_offset.obj() is None)
                    &&& (old.mark_array_offset.obj() matches Some(m) ==> (new.mark_array_offset.obj() matches Some(
                        m2,
                    ) && m2.mark_records@ == covered_values(g1, m.mark_records@, plan)))
                    &&& (old.base_array_offset.obj() matches Some(b) ==> (new.base_array_offset.obj() matches Some(
                        b2,
                    ) && b2.base_records@ == covered_values(g2, b.base_records@, plan)))
                    &&& r == Ok::<bool, Error>(remapped_ids(g1, plan).len() > 0 && remapped_ids(g2, plan).len()
                        > 0)
                })
            })
    }

    fn subset(&mut self, plan: &Plan) -> (r: Result<bool, Error>) {
        self.subset_marks(plan)
    }
}

/// The mark array an offset at `pos` of `bytes` points to, if any.
fn mark_array_at(bytes: &[u8], pos: usize) -> (r: OffsetMarker<Offset16, MarkArray>) {
    let marks = match read_u16(bytes, pos) {
        Some(off) if off != 0 && (off as usize) <= bytes.len() => MarkArray::read(
            &bytes[off as usize..bytes.len()],
        ),
        _ => None,
    };
    OffsetMarker::new_maybe_null(marks)
}

/// The rows of anchors an offset at `pos` of `bytes` points to, if any.
fn anchor_rows_at(bytes: &[u8], pos: usize, class_count: u16) -> (r: Option<BaseArray>)
    requires
        pos + 2 <= bytes@.len(),
    ensures
        r is Some <==> rows_at_ok(bytes@, pos as int, class_count),
{
    match read_u16(bytes, pos) {
        Some(off) if off != 0 && (off as usize) <= bytes.len() => BaseArray::read(
            &bytes[off as usize..bytes.len()],
            class_count,
        ),
        _ => None,
    }
}

/// Mark-to-mark attachment: the attaching marks and the marks they attach
/// to, each with a coverage and an array in coverage order; the second
/// array has the shape of a base array.
pub struct MarkMarkPosFormat1 {
    pub mark1_coverage_offset: OffsetMarker<Offset16, CoverageTable>,
    pub mark2_coverage_offset: OffsetMarker<Offset16, CoverageTable>,
    pub mark_class_count: u16,
    pub mark1_array_offset: OffsetMarker<Offset16, MarkArray>,
    pub mark2_array_offset: OffsetMarker<Offset16, BaseArray>,
}

impl MarkMarkPosFormat1 {
    /// Reads the subtable and everything it references into owned values.
    pub fn read(bytes: &[u8]) -> (r: Option<MarkMarkPosFormat1>)
        ensures
            r is Some <==> bytes@.len() >= 12 && be_u16(bytes@, 0) == 1,
            r matches Some(t) ==> t.mark_class_count == be_u16(bytes@, 6),
    {
        if bytes.len() < 12 || read_u16(bytes, 0) != Some(1u16) {
            return None;
        }
        let mark_class_count = read_u16(bytes, 6).unwrap();
        Some(
            MarkMarkPosFormat1 {
                mark1_coverage_offset: OffsetMarker::new_maybe_null(read_coverage(bytes, 2)),
                mark2_coverage_offset: OffsetMarker::new_maybe_null(read_coverage(bytes, 4)),
                mark_class_count,
                mark1_array_offset: mark_array_at(bytes, 8),
                mark2_array_offset: Self::mark2_array_to_owned(bytes, mark_class_count),
            },
        )
    }

    /// The second mark array, read with the class count.
    fn mark2_array_to_owned(bytes: &[u8], class_count: u16) -> (r: OffsetMarker<Offset16, BaseArray>)
        requires
            bytes@.len() >= 12,
        ensures
            r.obj() is Some <==> rows_at_ok(bytes@, 10, class_count),
    {
        OffsetMarker::new_maybe_null(anchor_rows_at(bytes, 10, class_count))
    }

    /// Keeps the records of the surviving covered marks on both sides, each
    /// array walked together with its coverage, then subsets both
    /// coverages. Fails when a coverage is missing or shorter than its
    /// array; retained while both coverages keep a glyph.
    pub fn subset_marks(&mut self, plan: &Plan) -> (r: Result<bool, Error>)
        requires
            plan.wf(),
        ensures
            old(self).mark1_coverage_offset.obj() is None || old(self).mark2_coverage_offset.obj() is None ==> r is Err
                && *final(self) == *old(self),
            old(self).mark1_coverage_offset.obj() is Some && old(self).mark2_coverage_offset.obj() is Some ==> {
                let g1 = old(self).mark1_coverage_offset.obj()->0.spec_glyphs();
                let g2 = old(self).mark2_coverage_offset.obj()->0.spec_glyphs();
                let fits = (old(self).mark1_array_offset.obj() matches Some(m) ==> m.mark_records@.len() <= g1.len()) && (
                old(self).mark2_array_offset.obj() matches Some(b) ==> b.base_records@.len() <= g2.len());
                &&& (r is Ok <==> fits)
                &&& (r is Err ==> *final(self) == *old(self))
                &&& (r is Ok ==> {
                    &&& (final(self).mark1_coverage_offset.obj() matches Some(n1) && n1 is Format1 && n1.spec_glyphs()
                        == remapped_ids(g1, *plan))
                    &&& (final(self).mark2_coverage_offset.obj() matches Some(n2) && n2 is Format1 && n2.spec_glyphs()
                        == remapped_ids(g2, *plan))
                    &&& (old(self).mark1_array_offset.obj() is None ==> final(self).mark1_array_offset.obj() is None)
                    &&& (old(self).mark2_array_offset.obj() is None ==> final(self).mark2_array_offset.obj() is None)
                    &&& (old(self).mark1_array_offset.obj() matches Some(m) ==> (final(self).mark1_array_offset.obj() matches Some(
                        m2,
                    ) && m2.mark_records@ == covered_values(g1, m.mark_records@, *plan)))
                    &&& (old(self).mark2_array_offset.obj() matches Some(b) ==> (final(self).mark2_array_offset.obj() matches Some(
                        b2,
                    ) && b2.base_records@ == covered_values(g2, b.base_records@, *plan)))
                    &&& r == Ok::<bool, Error>(remapped_ids(g1, *plan).len() > 0 && remapped_ids(g2, *plan).len()
                        > 0)
                })
            },
    {
        let glyphs1 = match self.mark1_coverage_offset.get() {
            Some(c) => c.glyphs(),
            None => return Err(Error::new("mark attachment without mark coverage")),
        };
        let glyphs2 = match self.mark2_coverage_offset.get() {
            Some(c) => c.glyphs(),
            None => return Err(Error::new("mark attachment without second mark coverage")),
        };
        let fits1 = match self.mark1_array_offset.get() {
            Some(m) => m.mark_records.len() <= glyphs1.len(),
            None => true,
        };
        let fits2 = match self.mark2_array_offset.get() {
            Some(b) => b.base_records.len() <= glyphs2.len(),
            None => true,
        };
        if !fits1 || !fits2 {
            return Err(Error::new("an array is longer than its coverage"));
        }
        if let Some(marks) = self.mark1_array_offset.get_mut() {
            let _ = marks.retain_covered_marks(&glyphs1, plan);
        }
        if let Some(rows) = self.mark2_array_offset.get_mut() {
            let _ = rows.retain_covered_rows(&glyphs2, plan);
        }
        let left1 = match self.mark1_coverage_offset.get_mut() {
            Some(c) => c.subset_glyphs(plan),
            None => false,
        };
        let left2 = match self.mark2_coverage_offset.get_mut() {
            Some(c) => c.subset_glyphs(plan),
            None => false,
        };
        Ok(left1 && left2)
    }
}

impl Table for MarkMarkPosFormat1 {
    fn describe(&self, writer: &mut TableWriter) {
        writer.write(1u16);
        self.mark1_coverage_offset.write_into(writer);
        self.mark2_coverage_offset.write_into(writer);
        writer.write(self.mark_class_count);
        self.mark1_array_offset.write_into(writer);
        self.mark2_array_offset.write_into(writer);
    }
}

impl Subset for MarkMarkPosFormat1 {
    open spec fn kept(&self) -> bool {
        coverage_kept(&self.mark1_coverage_offset) && coverage_kept(&self.mark2_coverage_offset)
    }

    open spec fn subset_post(old: Self, new: Self, plan: Plan, r: Result<bool, Error>) -> bool {
        &&& (old.mark1_coverage_offset.obj() is None || old.mark2_coverage_offset.obj() is None ==> r is Err
                && new == old)
        &&& (old.mark1_coverage_offset.obj() is Some && old.mark2_coverage_offset.obj() is Some ==> {
                let g1 = old.mark1_coverage_offset.obj()->0.spec_glyphs();
                let g2 = old.mark2_coverage_offset.obj()->0.spec_glyphs();
                let fits = (old.mark1_array_offset.obj() matches Some(m) ==> m.mark_records@.len() <= g1.len()) && (
                old.mark2_array_offset.obj() matches Some(b) ==> b.base_records@.len() <= g2.len());
                &&& (r is Ok <==> fits)
                &&& (r is Err ==> new == old)
                &&& (r is Ok ==> {
                    &&& (new.mark1_coverage_offset.obj() matches Some(n1) && n1 is Format1 && n1.spec_glyphs()
                        == remapped_ids(g1, plan))
                    &&& (new.mark2_coverage_offset.obj() matches Some(n2) && n2 is Format1 && n2.spec_glyphs()
                        == remapped_ids(g2, plan))
                    &&& (old.mark1_array_offset.obj() is None ==> new.mark1_array_offset.obj() is None)
                    &&& (old.mark2_array_offset.obj() is None ==> new.mark2_array_offset.obj() is None)
                    &&& (old.mark1_array_offset.obj() matches Some(m) ==> (new.mark1_array_offset.obj() matches Some(
                        m2,
                    ) && m2.mark_records@ == covered_values(g1, m.mark_records@, plan)))
                    &&& (old.mark2_array_offset.obj() matches Some(b) ==> (new.mark2_array_offset.obj() matches Some(
                        b2,
                    ) && b2.base_records@ == covered_values(g2, b.base_records@, plan)))
                    &&& r == Ok::<bool, Error>(remapped_ids(g1, plan).len() > 0 && remapped_ids(g2, plan).len()
                        > 0)
                })
            })
    }

    fn subset(&mut self, plan: &Plan) -> (r: Result<bool, Error>) {
        self.subset_marks(plan)
    }
}

/// One attachment table per covered ligature, in coverage order; each has
/// a row of anchors per ligature component, one anchor per mark class.
pub struct LigatureArray {
    pub ligature_attach_offsets: Vec<OffsetMarker<Offset16, BaseArray>>,
}

impl LigatureArray {
    /// Reads a count and that many offsets to attachment tables, each read
    /// with the class count; one that does not read is kept as missing.
    pub fn read(bytes: &[u8], class_count: u16) -> (r: Option<LigatureArray>)
        ensures
            r is Some <==> bytes@.len() >= 2 && bytes@.len() >= 2 + 2 * be_u16(bytes@, 0),
            r matches Some(a) ==> a.ligature_attach_offsets@.len() == be_u16(bytes@, 0) && forall|i: int|
                0 <= i < a.ligature_attach_offsets@.len() ==> ((#[trigger] a.ligature_attach_offsets@[i]).obj()
                    is Some <==> rows_at_ok(bytes@, 2 + 2 * i, class_count)),
    {
        let count = match read_u16(bytes, 0) {
            Some(c) => c as usize,
            None => return None,
        };
        if bytes.len() < 2 + 2 * count {
            return None;
        }
        let mut attach: Vec<OffsetMarker<Offset16, BaseArray>> = Vec::new();
        let mut i: usize = 0;
        while i < count
            invariant
                count <= 0xFFFF,
                bytes@.len() >= 2 + 2 * count,
                i <= count,
                attach@.len() == i,
                forall|m: int|
                    0 <= m < i ==> ((#[trigger] attach@[m]).obj() is Some <==> rows_at_ok(
                        bytes@,
                        2 + 2 * m,
                        class_count,
                    )),
            decreases count - i,
        {
            let ghost prev = attach@;
            attach.push(OffsetMarker::new_maybe_null(anchor_rows_at(bytes, 2 + 2 * i, class_count)));
            proof {
                assert forall|m: int|
                    0 <= m < i + 1 implies ((#[trigger] attach@[m]).obj() is Some <==> rows_at_ok(
                        bytes@,
                        2 + 2 * m,
                        class_count,
                    )) by {
                    if m < i {
                        assert(attach@[m] == prev[m]);
                    }
                }
            }
            i = i + 1;
        }
        Some(LigatureArray { ligature_attach_offsets: attach })
    }

    /// Keeps the attachment tables whose coverage glyph survives, in step
    /// with the coverage; fails when the coverage is shorter.
    pub fn retain_covered_ligatures(&mut self, coverage: &Vec<u16>, plan: &Plan) -> (r: Result<(), Error>)
        requires
            plan.wf(),
        ensures
            r is Ok <==> old(self).ligature_attach_offsets@.len() <= coverage@.len(),
            r is Ok ==> final(self).ligature_attach_offsets@ == covered_values(
                coverage@,
                old(self).ligature_attach_offsets@,
                *plan,
            ),
    {
        let mut items: Vec<OffsetMarker<Offset16, BaseArray>> = Vec::new();
        std::mem::swap(&mut self.ligature_attach_offsets, &mut items);
        match retain_covered(coverage, items, plan) {
            Ok(k) => {
                self.ligature_attach_offsets = k;
                Ok(())
            },
            Err(e) => Err(e),
        }
    }
}

impl Table for LigatureArray {
    fn describe(&self, writer: &mut TableWriter) {
        writer.write(count_u16(self.ligature_attach_offsets.len()));
        let mut i: usize = 0;
        while i < self.ligature_attach_offsets.len()
            invariant
                writer.wf(),
                writer.finished() >= old(writer).finished(),
                writer.keeps(*old(writer)),
            decreases self.ligature_attach_offsets@.len() - i,
        {
            self.ligature_attach_offsets[i].write_into(writer);
            i = i + 1;
        }
    }
}

/// The ligature array of a mark-to-ligature subtable, read from the offset
/// at 10: present exactly when the offset is set, inside the bytes, and the
/// count of the array there and its offsets fit; it then has that many
/// entries, entry `i` present exactly when its attachment table reads.
pub open spec fn ligature_array_read(bytes: Seq<u8>, m: OffsetMarker<Offset16, LigatureArray>) -> bool {
    let off = be_u16(bytes, 10) as int;
    let t = bytes.subrange(off, bytes.len() as int);
    &&& (m.obj() is Some <==> (off != 0 && off <= bytes.len() && t.len() >= 2 && t.len() >= 2 + 2 * be_u16(t, 0)))
    &&& (m.obj() matches Some(a) ==> a.ligature_attach_offsets@.len() == be_u16(t, 0) && forall|i: int|
        0 <= i < a.ligature_attach_offsets@.len() ==> ((#[trigger] a.ligature_attach_offsets@[i]).obj() is Some
            <==> rows_at_ok(t, 2 + 2 * i, be_u16(bytes, 6))))
}

/// Mark-to-ligature attachment: marks and ligatures, each with a coverage
/// and an array in coverage order.
pub struct MarkLigPosFormat1 {
    pub mark_coverage_offset: OffsetMarker<Offset16, CoverageTable>,
    pub ligature_coverage_offset: OffsetMarker<Offset16, CoverageTable>,
    pub mark_class_count: u16,
    pub mark_array_offset: OffsetMarker<Offset16, MarkArray>,
    pub ligature_array_offset: OffsetMarker<Offset16, LigatureArray>,
}

impl MarkLigPosFormat1 {
    /// Reads the subtable and everything it references into owned values.
    pub fn read(bytes: &[u8]) -> (r: Option<MarkLigPosFormat1>)
        ensures
            r is Some <==> bytes@.len() >= 12 && be_u16(bytes@, 0) == 1,
            r matches Some(t) ==> t.mark_class_count == be_u16(bytes@, 6) && ligature_array_read(
                bytes@,
                t.ligature_array_offset,
            ),
    {
        if bytes.len() < 12 || read_u16(bytes, 0) != Some(1u16) {
            return None;
        }
        let mark_class_count = read_u16(bytes, 6).unwrap();
        Some(
            MarkLigPosFormat1 {
                mark_coverage_offset: OffsetMarker::new_maybe_null(read_coverage(bytes, 2)),
                ligature_coverage_offset: OffsetMarker::new_maybe_null(read_coverage(bytes, 4)),
                mark_class_count,
                mark_array_offset: mark_array_at(bytes, 8),
                ligature_array_offset: Self::ligature_array_to_owned(bytes, mark_class_count),
            },
        )
    }

    /// The ligature array the offset at 10 points to, read with the class
    /// count.
    fn ligature_array_to_owned(bytes: &[u8], class_count: u16) -> (r: OffsetMarker<Offset16, LigatureArray>)
        requires
            bytes@.len() >= 12,
            class_count == be_u16(bytes@, 6),
        ensures
            ligature_array_read(bytes@, r),
    {
        let ligs = match read_u16(bytes, 10) {
            Some(off) if off != 0 && (off as usize) <= bytes.len() => LigatureArray::read(
                &bytes[off as usize..bytes.len()],
                class_count,
            ),
            _ => None,
        };
        OffsetMarker::new_maybe_null(ligs)
    }

    /// Keeps the mark records of surviving covered marks and the
    /// attachment tables of surviving covered ligatures, each array walked
    /// together with its coverage, then subsets both coverages. Fails when
    /// a coverage is missing or shorter than its array; retained while both
    /// coverages keep a glyph.
    pub fn subset_marks(&mut self, plan: &Plan) -> (r: Result<bool, Error>)
        requires
            plan.wf(),
        ensures
            old(self).mark_coverage_offset.obj() is None || old(self).ligature_coverage_offset.obj() is None ==> r is Err
                && *final(self) == *old(self),
            old(self).mark_coverage_offset.obj() is Some && old(self).ligature_coverage_offset.obj() is Some ==> {
                let g1 = old(self).mark_coverage_offset.obj()->0.spec_glyphs();
                let g2 = old(self).ligature_coverage_offset.obj()->0.spec_glyphs();
                let fits = (old(self).mark_array_offset.obj() matches Some(m) ==> m.mark_records@.len() <= g1.len()) && (
                old(self).ligature_array_offset.obj() matches Some(b) ==> b.ligature_attach_offsets@.len() <= g2.len());
                &&& (r is Ok <==> fits)
                &&& (r is Err ==> *final(self) == *old(self))
                &&& (r is Ok ==> {
                    &&& (final(self).mark_coverage_offset.obj() matches Some(n1) && n1 is Format1 && n1.spec_glyphs()
                        == remapped_ids(g1, *plan))
                    &&& (final(self).ligature_coverage_offset.obj() matches Some(n2) && n2 is Format1 && n2.spec_glyphs()
                        == remapped_ids(g2, *plan))
                    &&& (old(self).mark_array_offset.obj() is None ==> final(self).mark_array_offset.obj() is None)
                    &&& (old(self).ligature_array_offset.obj() is None ==> final(self).ligature_array_offset.obj() is None)
                    &&& (old(self).mark_array_offset.obj() matches Some(m) ==> (final(self).mark_array_offset.obj() matches Some(
                        m2,
                    ) && m2.mark_records@ == covered_values(g1, m.mark_records@, *plan)))
                    &&& (old(self).ligature_array_offset.obj() matches Some(b) ==> (final(self).ligature_array_offset.obj() matches Some(
                        b2,
                    ) && b2.ligature_attach_offsets@ == covered_values(g2, b.ligature_attach_offsets@, *plan)))
                    &&& r == Ok::<bool, Error>(remapped_ids(g1, *plan).len() > 0 && remapped_ids(g2, *plan).len()
                        > 0)
                })
            },
    {
        let glyphs1 = match self.mark_coverage_offset.get() {
            Some(c) => c.glyphs(),
            None => return Err(Error::new("mark attachment without mark coverage")),
        };
        let glyphs2 = match self.ligature_coverage_offset.get() {
            Some(c) => c.glyphs(),
            None => return Err(Error::new("mark attachment without ligature coverage")),
        };
        let fits1 = match self.mark_array_offset.get() {
            Some(m) => m.mark_records.len() <= glyphs1.len(),
            None => true,
        };
        let fits2 = match self.ligature_array_offset.get() {
            Some(b) => b.ligature_attach_offsets.len() <= glyphs2.len(),
            None => true,
        };
        if !fits1 || !fits2 {
            return Err(Error::new("an array is longer than its coverage"));
        }
        if let Some(marks) = self.mark_array_offset.get_mut() {
            let _ = marks.retain_covered_marks(&glyphs1, plan);
        }
        if let Some(rows) = self.ligature_array_offset.get_mut() {
            let _ = rows.retain_covered_ligatures(&glyphs2, plan);
        }
        let left1 = match self.mark_coverage_offset.get_mut() {
            Some(c) => c.subset_glyphs(plan),
            None => false,
        };
        let left2 = match self.ligature_coverage_offset.get_mut() {
            Some(c) => c.subset_glyphs(plan),
            None => false,
        };
        Ok(left1 && left2)
    }
}

impl Table for MarkLigPosFormat1 {
    fn describe(&self, writer: &mut TableWriter) {
        writer.write(1u16);
        self.mark_coverage_offset.write_into(writer);
        self.ligature_coverage_offset.write_into(writer);
        writer.write(self.mark_class_count);
        self.mark_array_offset.write_into(writer);
        self.ligature_array_offset.write_into(writer);
    }
}

impl Subset for MarkLigPosFormat1 {
    open spec fn kept(&self) -> bool {
        coverage_kept(&self.mark_coverage_offset) && coverage_kept(&self.ligature_coverage_offset)
    }

    open spec fn subset_post(old: Self, new: Self, plan: Plan, r: Result<bool, Error>) -> bool {
        &&& (old.mark_coverage_offset.obj() is None || old.ligature_coverage_offset.obj() is None ==> r is Err
                && new == old)
        &&& (old.mark_coverage_offset.obj() is Some && old.ligature_coverage_offset.obj() is Some ==> {
                let g1 = old.mark_coverage_offset.obj()->0.spec_glyphs();
                let g2 = old.ligature_coverage_offset.obj()->0.spec_glyphs();
                let fits = (old.mark_array_offset.obj() matches Some(m) ==> m.mark_records@.len() <= g1.len()) && (
                old.ligature_array_offset.obj() matches Some(b) ==> b.ligature_attach_offsets@.len() <= g2.len());
                &&& (r is Ok <==> fits)
                &&& (r is Err ==> new == old)
                &&& (r is Ok ==> {
                    &&& (new.mark_coverage_offset.obj() matches Some(n1) && n1 is Format1 && n1.spec_glyphs()
                        == remapped_ids(g1, plan))
                    &&& (new.ligature_coverage_offset.obj() matches Some(n2) && n2 is Format1 && n2.spec_glyphs()
                        == remapped_ids(g2, plan))
                    &&& (old.mark_array_offset.obj() is None ==> new.mark_array_offset.obj() is None)
                    &&& (old.ligature_array_offset.obj() is None ==> new.ligature_array_offset.obj() is None)
                    &&& (old.mark_array_offset.obj() matches Some(m) ==> (new.mark_array_offset.obj() matches Some(
                        m2,
                    ) && m2.mark_records@ == covered_values(g1, m.mark_records@, plan)))
                    &&& (old.ligature_array_offset.obj() matches Some(b) ==> (new.ligature_array_offset.obj() matches Some(
                        b2,
                    ) && b2.ligature_attach_offsets@ == covered_values(g2, b.ligature_attach_offsets@, plan)))
                    &&& r == Ok::<bool, Error>(remapped_ids(g1, plan).len() > 0 && remapped_ids(g2, plan).len()
                        > 0)
                })
            })
    }

    fn subset(&mut self, plan: &Plan) -> (r: Result<bool, Error>) {
        self.subset_marks(plan)
    }
}

/// The entry and exit anchors of one covered glyph.
pub struct EntryExitRecord {
    pub entry_anchor_offset: NullableOffsetMarker<Offset16, AnchorTable>,
    pub exit_anchor_offset: NullableOffsetMarker<Offset16, AnchorTable>,
}

/// Cursive attachment: an entry and an exit anchor per covered glyph, in
/// coverage order.
pub struct CursivePosFormat1 {
    pub coverage_offset: OffsetMarker<Offset16, CoverageTable>,
    pub entry_exit_record: Vec<EntryExitRecord>,
}

impl CursivePosFormat1 {
    /// Reads the subtable and its anchors into owned values; `None` unless
    /// every record fits.
    pub fn read(bytes: &[u8]) -> (r: Option<CursivePosFormat1>)
        ensures
            r is Some <==> bytes@.len() >= 6 && be_u16(bytes@, 0) == 1 && bytes@.len() >= 6 + 4
                * be_u16(bytes@, 4),
            r matches Some(t) ==> t.entry_exit_record@.len() == be_u16(bytes@, 4),
    {
        if bytes.len() < 6 || read_u16(bytes, 0) != Some(1u16) {
            return None;
        }
        let count = read_u16(bytes, 4).unwrap() as usize;
        if bytes.len() < 6 + 4 * count {
            return None;
        }
        let mut records: Vec<EntryExitRecord> = Vec::new();
        let mut i: usize = 0;
        while i < count
            invariant
                count <= 0xFFFF,
                bytes@.len() >= 6 + 4 * count,
                i <= count,
                records@.len() == i,
            decreases count - i,
        {
            records.push(
                EntryExitRecord {
                    entry_anchor_offset: NullableOffsetMarker::new(anchor_at(bytes, 6 + 4 * i)),
                    exit_anchor_offset: NullableOffsetMarker::new(anchor_at(bytes, 8 + 4 * i)),
                },
            );
            i = i + 1;
        }
        Some(
            CursivePosFormat1 {
                coverage_offset: OffsetMarker::new_maybe_null(read_coverage(bytes, 2)),
                entry_exit_record: records,
            },
        )
    }

    /// Keeps the records of surviving covered glyphs, walked together with
    /// the coverage, then subsets the coverage. Fails when the coverage is
    /// missing or shorter than the records; retained while a glyph is left.
    pub fn subset_records(&mut self, plan: &Plan) -> (r: Result<bool, Error>)
        requires
            plan.wf(),
        ensures
            old(self).coverage_offset.obj() is None ==> r is Err,
            r is Err ==> *final(self) == *old(self),
            old(self).coverage_offset.obj() matches Some(c) ==> {
                let glyphs = c.spec_glyphs();
                &&& (r is Ok <==> old(self).entry_exit_record@.len() <= glyphs.len())
                &&& (r is Ok ==> {
                    &&& final(self).entry_exit_record@ == covered_values(
                        glyphs,
                        old(self).entry_exit_record@,
                        *plan,
                    )
                    &&& (final(self).coverage_offset.obj() matches Some(n) && n is Format1 && n.spec_glyphs()
                        == remapped_ids(glyphs, *plan))
                    &&& r == Ok::<bool, Error>(remapped_ids(glyphs, *plan).len() > 0)
                })
            },
    {
        let glyphs = match self.coverage_offset.get() {
            Some(c) => c.glyphs(),
            None => return Err(Error::new("cursive attachment without coverage")),
        };
        if self.entry_exit_record.len() > glyphs.len() {
            return Err(Error::new("more records than covered glyphs"));
        }
        let mut recs: Vec<EntryExitRecord> = Vec::new();
        std::mem::swap(&mut self.entry_exit_record, &mut recs);
        if let Ok(k) = retain_covered(&glyphs, recs, plan) {
            self.entry_exit_record = k;
        }
        match self.coverage_offset.get_mut() {
            Some(c) => Ok(c.subset_glyphs(plan)),
            None => Ok(false),
        }
    }
}

impl Table for CursivePosFormat1 {
    fn describe(&self, writer: &mut TableWriter) {
        writer.write(1u16);
        self.coverage_offset.write_into(writer);
        writer.write(count_u16(self.entry_exit_record.len()));
        let mut i: usize = 0;
        while i < self.entry_exit_record.len()
            invariant
                writer.wf(),
                writer.finished() >= old(writer).finished(),
                writer.keeps(*old(writer)),
            decreases self.entry_exit_record@.len() - i,
        {
            self.entry_exit_record[i].entry_anchor_offset.write_into(writer);
            self.entry_exit_record[i].exit_anchor_offset.write_into(writer);
            i = i + 1;
        }
    }
}

impl Subset for CursivePosFormat1 {
    open spec fn kept(&self) -> bool {
        coverage_kept(&self.coverage_offset)
    }

    open spec fn subset_post(old: Self, new: Self, plan: Plan, r: Result<bool, Error>) -> bool {
        &&& (old.coverage_offset.obj() is None ==> r is Err)
        &&& (r is Err ==> new == old)
        &&& (old.coverage_offset.obj() matches Some(c) ==> {
                let glyphs = c.spec_glyphs();
                &&& (r is Ok <==> old.entry_exit_record@.len() <= glyphs.len())
                &&& (r is Ok ==> {
                    &&& new.entry_exit_record@ == covered_values(
                        glyphs,
                        old.entry_exit_record@,
                        plan,
                    )
                    &&& (new.coverage_offset.obj() matches Some(n) && n is Format1 && n.spec_glyphs()
                        == remapped_ids(glyphs, plan))
                    &&& r == Ok::<bool, Error>(remapped_ids(glyphs, plan).len() > 0)
                })
            })
    }

    fn subset(&mut self, plan: &Plan) -> (r: Result<bool, Error>) {
        self.subset_records(plan)
    }
}

} // verus!
