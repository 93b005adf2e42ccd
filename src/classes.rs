//! Class-indexed tables: class definitions, and pair adjustment by class,
//! where subsetting prunes the glyph lists but keeps every class.
use vstd::prelude::*;

use crate::compile::{Table, TableWriter};
use crate::layout::{
    coverage_kept, be_u16, count_u16, read_coverage, CoverageTable, PairPosFormat1, SequenceLookupRecord, ValueFormat,
    ValueRecord,
};
use crate::offsets::{NullableOffsetMarker, OffsetMarker};
use crate::scalar::{read_u16, Offset16};
use crate::subset::{remapped_ids, Error, Plan, Subset};

verus! {

/// A run of glyphs that share a class.
#[derive(Clone, Copy, Debug, PartialEq, Eq, Structural)]
pub struct ClassRangeRecord {
    pub start_glyph_id: u16,
    pub end_glyph_id: u16,
    pub class: u16,
}

/// A glyph and its class.
#[derive(Clone, Copy, Debug, PartialEq, Eq, Structural)]
pub struct ClassEntry {
    pub glyph: u16,
    pub class: u16,
}

/// The entries of a range, ascending; none when it is inverted.
pub open spec fn range_entries(r: ClassRangeRecord) -> Seq<ClassEntry> {
    if r.end_glyph_id >= r.start_glyph_id {
        Seq::new(
            (r.end_glyph_id - r.start_glyph_id + 1) as nat,
            |i: int| ClassEntry { glyph: (r.start_glyph_id + i) as u16, class: r.class },
        )
    } else {
        Seq::empty()
    }
}

/// The entries of a list of ranges, in order.
pub open spec fn ranges_entries(rs: Seq<ClassRangeRecord>) -> Seq<ClassEntry>
    decreases rs.len(),
{
    if rs.len() == 0 {
        Seq::empty()
    } else {
        ranges_entries(rs.drop_last()) + range_entries(rs.last())
    }
}

/// The entries whose glyph survives the plan, each with its new id.
pub open spec fn remapped_entries(es: Seq<ClassEntry>, plan: Plan) -> Seq<ClassEntry>
    decreases es.len(),
{
    if es.len() == 0 {
        Seq::empty()
    } else {
        let prev = remapped_entries(es.drop_last(), plan);
        match plan.gid(es.last().glyph) {
            Some(g) => prev.push(ClassEntry { glyph: g, class: es.last().class }),
            None => prev,
        }
    }
}

/// A class definition table: format 1 gives a class to each glyph from a
/// start glyph on, format 2 to ranges of glyphs.
#[derive(Debug)]
pub enum ClassDefTable {
    Format1 { start_glyph_id: u16, class_values: Vec<u16> },
    Format2 { ranges: Vec<ClassRangeRecord> },
}

/// The entries of a format 1 table: consecutive glyphs from `start`.
pub open spec fn format1_entries(start: u16, classes: Seq<u16>) -> Seq<ClassEntry> {
    Seq::new(
        classes.len(),
        |i: int| ClassEntry { glyph: ((start + i) % 0x10000) as u16, class: classes[i] },
    )
}

impl ClassDefTable {
    /// The glyphs given a class, with their classes, in table order.
    pub open spec fn entries(&self) -> Seq<ClassEntry> {
        match self {
            ClassDefTable::Format1 { start_glyph_id, class_values } => format1_entries(
                *start_glyph_id,
                class_values@,
            ),
            ClassDefTable::Format2 { ranges } => ranges_entries(ranges@),
        }
    }

    /// Reads a class definition of format 1 or 2; `None` for another format
    /// or when its array does not fit.
    pub fn read(bytes: &[u8]) -> (r: Option<ClassDefTable>)
        ensures
            r matches Some(ClassDefTable::Format1 { start_glyph_id, class_values }) ==> be_u16(bytes@, 0)
                == 1 && start_glyph_id == be_u16(bytes@, 2) && class_values@.len() == be_u16(bytes@, 4),
            r matches Some(ClassDefTable::Format2 { ranges }) ==> be_u16(bytes@, 0) == 2 && ranges@.len()
                == be_u16(bytes@, 2),
    {
        let format = match read_u16(bytes, 0) {
            Some(f) => f,
            None => return None,
        };
        if format == 1 {
            let start = match read_u16(bytes, 2) {
                Some(s) => s,
                None => return None,
            };
            let count = match read_u16(bytes, 4) {
                Some(c) => c as usize,
                None => return None,
            };
            if bytes.len() < 6 + 2 * count {
                return None;
            }
            let mut values: Vec<u16> = Vec::new();
            let mut i: usize = 0;
            while i < count
                invariant
                    count <= 0xFFFF,
                    bytes@.len() >= 6 + 2 * count,
                    i <= count,
                    values@.len() == i,
                decreases count - i,
            {
                values.push(read_u16(bytes, 6 + 2 * i).unwrap());
                i = i + 1;
            }
            Some(ClassDefTable::Format1 { start_glyph_id: start, class_values: values })
        } else if format == 2 {
            let count = match read_u16(bytes, 2) {
                Some(c) => c as usize,
                None => return None,
            };
            if bytes.len() < 4 + 6 * count {
                return None;
            }
            let mut ranges: Vec<ClassRangeRecord> = Vec::new();
            let mut i: usize = 0;
            while i < count
                invariant
                    count <= 0xFFFF,
                    bytes@.len() >= 4 + 6 * count,
                    i <= count,
                    ranges@.len() == i,
                decreases count - i,
            {
                ranges.push(
                    ClassRangeRecord {
                        start_glyph_id: read_u16(bytes, 4 + 6 * i).unwrap(),
                        end_glyph_id: read_u16(bytes, 6 + 6 * i).unwrap(),
                        class: read_u16(bytes, 8 + 6 * i).unwrap(),
                    },
                );
                i = i + 1;
            }
            Some(ClassDefTable::Format2 { ranges })
        } else {
            None
        }
    }

    /// The entries, in table order.
    pub fn class_entries(&self) -> (r: Vec<ClassEntry>)
        ensures
            r@ == self.entries(),
    {
        let mut out: Vec<ClassEntry> = Vec::new();
        match self {
            ClassDefTable::Format1 { start_glyph_id, class_values } => {
                let mut i: usize = 0;
                let mut g: u16 = *start_glyph_id;
                while i < class_values.len()
                    invariant
                        i <= class_values@.len(),
                        g == (*start_glyph_id + i) % 0x10000,
                        out@ == format1_entries(*start_glyph_id, class_values@).subrange(0, i as int),
                    decreases class_values@.len() - i,
                {
                    out.push(ClassEntry { glyph: g, class: class_values[i] });
                    g = if g == 0xFFFF {
                        0
                    } else {
                        g + 1
                    };
                    i = i + 1;
                    assert(out@ =~= format1_entries(*start_glyph_id, class_values@).subrange(0, i as int));
                }
                assert(format1_entries(*start_glyph_id, class_values@).subrange(0, i as int)
                    =~= format1_entries(*start_glyph_id, class_values@));
            },
            ClassDefTable::Format2 { ranges } => {
                let mut i: usize = 0;
                while i < ranges.len()
                    invariant
                        i <= ranges@.len(),
                        out@ == ranges_entries(ranges@.subrange(0, i as int)),
                    decreases ranges@.len() - i,
                {
                    let r = ranges[i];
                    let ghost before = out@;
                    if r.end_glyph_id >= r.start_glyph_id {
                        let mut g: u32 = r.start_glyph_id as u32;
                        while g <= r.end_glyph_id as u32
                            invariant
                                r.start_glyph_id <= g <= r.end_glyph_id + 1,
                                r.end_glyph_id >= r.start_glyph_id,
                                out@ == before + range_entries(r).subrange(
                                    0,
                                    (g - r.start_glyph_id) as int,
                                ),
                            decreases r.end_glyph_id + 1 - g,
                        {
                            out.push(ClassEntry { glyph: g as u16, class: r.class });
                            assert(out@ =~= before + range_entries(r).subrange(
                                0,
                                (g - r.start_glyph_id + 1) as int,
                            ));
                            g = g + 1;
                        }
                        assert(range_entries(r).subrange(0, (r.end_glyph_id - r.start_glyph_id + 1) as int)
                            =~= range_entries(r));
                    }
                    proof {
                        let s = ranges@.subrange(0, i + 1);
                        assert(s.drop_last() =~= ranges@.subrange(0, i as int));
                        assert(s.last() == r);
                        if r.end_glyph_id < r.start_glyph_id {
                            assert(out@ =~= before + range_entries(r));
                        }
                    }
                    i = i + 1;
                }
                assert(ranges@.subrange(0, i as int) =~= ranges@);
            },
        }
        out
    }

    /// Keeps the entries whose glyph survives, under their new ids, as one
    /// single-glyph range each; the classes themselves are not renumbered.
    /// Retained while an entry is left.
    pub fn subset_entries(&mut self, plan: &Plan) -> (r: bool)
        requires
            plan.wf(),
        ensures
            final(self).entries() == remapped_entries(old(self).entries(), *plan),
            r == (final(self).entries().len() > 0),
    {
        let entries = self.class_entries();
        let mut ranges: Vec<ClassRangeRecord> = Vec::new();
        let ghost mut kept: Seq<ClassEntry> = Seq::empty();
        let mut i: usize = 0;
        while i < entries.len()
            invariant
                plan.wf(),
                i <= entries@.len(),
                kept == remapped_entries(entries@.subrange(0, i as int), *plan),
                ranges_entries(ranges@) == kept,
                ranges@.len() == kept.len(),
            decreases entries@.len() - i,
        {
            let e = entries[i];
            proof {
                let s = entries@.subrange(0, i + 1);
                assert(s.drop_last() =~= entries@.subrange(0, i as int));
                assert(s.last() == e);
            }
            match plan.remap_gid(e.glyph) {
                Some(g) => {
                    let rec = ClassRangeRecord { start_glyph_id: g, end_glyph_id: g, class: e.class };
                    let ghost old_ranges = ranges@;
                    ranges.push(rec);
                    proof {
                        assert(ranges@.drop_last() =~= old_ranges);
                        assert(range_entries(rec) =~= seq![ClassEntry { glyph: g, class: e.class }]);
                        kept = kept.push(ClassEntry { glyph: g, class: e.class });
                        assert(ranges_entries(ranges@) =~= kept);
                    }
                },
                None => {},
            }
            i = i + 1;
        }
        assert(entries@.subrange(0, i as int) =~= entries@);
        let retain = ranges.len() > 0;
        *self = ClassDefTable::Format2 { ranges };
        retain
    }
}

impl Table for ClassDefTable {
    fn describe(&self, writer: &mut TableWriter) {
        match self {
            ClassDefTable::Format1 { start_glyph_id, class_values } => {
                writer.write(1u16);
                writer.write(*start_glyph_id);
                writer.write(count_u16(class_values.len()));
                let mut i: usize = 0;
                while i < class_values.len()
                    invariant
                        writer.wf(),
                        writer.finished() >= old(writer).finished(),
                        writer.keeps(*old(writer)),
                    decreases class_values@.len() - i,
                {
                    writer.write(class_values[i]);
                    i = i + 1;
                }
            },
            ClassDefTable::Format2 { ranges } => {
                writer.write(2u16);
                writer.write(count_u16(ranges.len()));
                let mut i: usize = 0;
                while i < ranges.len()
                    invariant
                        writer.wf(),
                        writer.finished() >= old(writer).finished(),
                        writer.keeps(*old(writer)),
                    decreases ranges@.len() - i,
                {
                    writer.write(ranges[i].start_glyph_id);
                    writer.write(ranges[i].end_glyph_id);
                    writer.write(ranges[i].class);
                    i = i + 1;
                }
            },
        }
    }
}

impl Subset for ClassDefTable {
    open spec fn kept(&self) -> bool {
        self.entries().len() > 0
    }

    open spec fn subset_post(old: Self, new: Self, plan: Plan, r: Result<bool, Error>) -> bool {
        &&& (new.entries() == remapped_entries(old.entries(), plan))
        &&& (r == Ok::<bool, Error>(new.entries().len() > 0))
    }

    fn subset(&mut self, plan: &Plan) -> (r: Result<bool, Error>) {
        Ok(self.subset_entries(plan))
    }
}

/// The adjustments for one second-glyph class.
#[derive(Clone, Copy, Debug, PartialEq, Eq, Structural)]
pub struct Class2Record {
    pub value_record1: ValueRecord,
    pub value_record2: ValueRecord,
}

/// The adjustments of one first-glyph class, one per second-glyph class.
pub struct Class1Record {
    pub class2_records: Vec<Class2Record>,
}

/// Pair adjustment, format 2: adjustments indexed by the classes of the
/// two glyphs.
pub struct PairPosFormat2 {
    pub coverage_offset: OffsetMarker<Offset16, CoverageTable>,
    pub value_format1: ValueFormat,
    pub value_format2: ValueFormat,
    pub class_def1_offset: OffsetMarker<Offset16, ClassDefTable>,
    pub class_def2_offset: OffsetMarker<Offset16, ClassDefTable>,
    pub class1_count: u16,
    pub class2_count: u16,
    pub class1_records: Vec<Class1Record>,
}

/// The class definition an offset at `pos` of `bytes` points to, if any.
pub(crate) fn class_def_at(bytes: &[u8], pos: usize) -> (r: OffsetMarker<Offset16, ClassDefTable>) {
    let table = match read_u16(bytes, pos) {
        Some(off) if off != 0 && (off as usize) <= bytes.len() => ClassDefTable::read(
            &bytes[off as usize..bytes.len()],
        ),
        _ => None,
    };
    OffsetMarker::new_maybe_null(table)
}

impl PairPosFormat2 {
    /// Reads the subtable and everything it references into owned values;
    /// `None` unless every class record fits.
    pub fn read(bytes: &[u8]) -> (r: Option<PairPosFormat2>)
        ensures
            r is Some ==> bytes@.len() >= 16 && be_u16(bytes@, 0) == 2,
            r matches Some(t) ==> {
                &&& t.value_format1.0 == be_u16(bytes@, 4)
                &&& t.value_format2.0 == be_u16(bytes@, 6)
                &&& t.class1_count == be_u16(bytes@, 12)
                &&& t.class2_count == be_u16(bytes@, 14)
                &&& t.class1_records@.len() == t.class1_count
                &&& forall|i: int|
                    0 <= i < t.class1_records@.len() ==> (#[trigger] t.class1_records@[i]).class2_records@.len()
                        == t.class2_count
            },
    {
        if bytes.len() < 16 || read_u16(bytes, 0) != Some(2u16) {
            return None;
        }
        let value_format1 = ValueFormat(read_u16(bytes, 4).unwrap());
        let value_format2 = ValueFormat(read_u16(bytes, 6).unwrap());
        let class1_count = read_u16(bytes, 12).unwrap();
        let class2_count = read_u16(bytes, 14).unwrap();
        let mut rest: &[u8] = &bytes[16..bytes.len()];
        let mut class1_records: Vec<Class1Record> = Vec::new();
        let mut i: u16 = 0;
        while i < class1_count
            invariant
                i <= class1_count,
                class1_records@.len() == i,
                forall|m: int|
                    0 <= m < i ==> (#[trigger] class1_records@[m]).class2_records@.len() == class2_count,
            decreases class1_count - i,
        {
            let mut class2_records: Vec<Class2Record> = Vec::new();
            let mut k: u16 = 0;
            while k < class2_count
                invariant
                    k <= class2_count,
                    class2_records@.len() == k,
                decreases class2_count - k,
            {
                let (value_record1, next) = match ValueRecord::read(rest, value_format1) {
                    Some(p) => p,
                    None => return None,
                };
                let (value_record2, next) = match ValueRecord::read(next, value_format2) {
                    Some(p) => p,
                    None => return None,
                };
                class2_records.push(Class2Record { value_record1, value_record2 });
                rest = next;
                k = k + 1;
            }
            class1_records.push(Class1Record { class2_records });
            i = i + 1;
        }
        Some(
            PairPosFormat2 {
                coverage_offset: OffsetMarker::new_maybe_null(read_coverage(bytes, 2)),
                value_format1,
                value_format2,
                class_def1_offset: class_def_at(bytes, 8),
                class_def2_offset: class_def_at(bytes, 10),
                class1_count,
                class2_count,
                class1_records,
            },
        )
    }

    /// Subsets the coverage; when a glyph is left, prunes the glyph lists of
    /// both class definitions and keeps every class record, since dropping
    /// a class would renumber the classes after it. Fails when the coverage
    /// is missing.
    pub fn subset_classes(&mut self, plan: &Plan) -> (r: Result<bool, Error>)
        requires
            plan.wf(),
        ensures
            old(self).coverage_offset.obj() is None ==> r is Err,
            old(self).coverage_offset.obj() matches Some(c) ==> r == Ok::<bool, Error>(
                remapped_ids(c.spec_glyphs(), *plan).len() > 0,
            ),
            final(self).class1_records@ == old(self).class1_records@,
            final(self).value_format1 == old(self).value_format1,
            final(self).value_format2 == old(self).value_format2,
            r is Err ==> *final(self) == *old(self),
            old(self).coverage_offset.obj() matches Some(c) ==> (final(self).coverage_offset.obj() matches Some(
                n,
            ) && n is Format1 && n.spec_glyphs() == remapped_ids(c.spec_glyphs(), *plan)),
            final(self).class1_count == old(self).class1_count,
            final(self).class2_count == old(self).class2_count,
            r == Ok::<bool, Error>(true) ==> {
                &&& (old(self).class_def1_offset.obj() matches Some(d) ==> final(self).class_def1_offset.obj()
                    matches Some(d2) && d2.entries() == remapped_entries(d.entries(), *plan))
                &&& (old(self).class_def2_offset.obj() matches Some(d) ==> final(self).class_def2_offset.obj()
                    matches Some(d2) && d2.entries() == remapped_entries(d.entries(), *plan))
            },
    {
        if self.coverage_offset.get().is_none() {
            return Err(Error::new("pair adjustment without coverage"));
        }
        let left = match self.coverage_offset.get_mut() {
            Some(c) => c.subset_glyphs(plan),
            None => false,
        };
        if !left {
            return Ok(false);
        }
        if let Some(d) = self.class_def1_offset.get_mut() {
            let _ = d.subset_entries(plan);
        }
        if let Some(d) = self.class_def2_offset.get_mut() {
            let _ = d.subset_entries(plan);
        }
        Ok(true)
    }
}

impl Table for PairPosFormat2 {
    fn describe(&self, writer: &mut TableWriter) {
        writer.write(2u16);
        self.coverage_offset.write_into(writer);
        writer.write(self.value_format1.0);
        writer.write(self.value_format2.0);
        self.class_def1_offset.write_into(writer);
        self.class_def2_offset.write_into(writer);
        writer.write(self.class1_count);
        writer.write(self.class2_count);
        let mut i: usize = 0;
        while i < self.class1_records.len()
            invariant
                writer.wf(),
                writer.finished() >= old(writer).finished(),
                writer.keeps(*old(writer)),
            decreases self.class1_records@.len() - i,
        {
            let rec = &self.class1_records[i];
            let mut k: usize = 0;
            while k < rec.class2_records.len()
                invariant
                    writer.wf(),
                    writer.finished() >= old(writer).finished(),
                    writer.keeps(*old(writer)),
                decreases rec.class2_records@.len() - k,
            {
                rec.class2_records[k].value_record1.write_into(writer);
                rec.class2_records[k].value_record2.write_into(writer);
                k = k + 1;
            }
            i = i + 1;
        }
    }
}

impl Subset for PairPosFormat2 {
    open spec fn kept(&self) -> bool {
        coverage_kept(&self.coverage_offset)
    }

    open spec fn subset_post(old: Self, new: Self, plan: Plan, r: Result<bool, Error>) -> bool {
        &&& (old.coverage_offset.obj() is None ==> r is Err)
        &&& (old.coverage_offset.obj() matches Some(c) ==> r == Ok::<bool, Error>(
                remapped_ids(c.spec_glyphs(), plan).len() > 0,
            ))
        &&& (new.class1_records@ == old.class1_records@)
        &&& (new.value_format1 == old.value_format1)
        &&& (new.value_format2 == old.value_format2)
        &&& (r is Err ==> new == old)
        &&& (old.coverage_offset.obj() matches Some(c) ==> (new.coverage_offset.obj() matches Some(
                n,
            ) && n is Format1 && n.spec_glyphs() == remapped_ids(c.spec_glyphs(), plan)))
        &&& (new.class1_count == old.class1_count)
        &&& (new.class2_count == old.class2_count)
        &&& (r == Ok::<bool, Error>(true) ==> {
                &&& (old.class_def1_offset.obj() matches Some(d) ==> new.class_def1_offset.obj()
                    matches Some(d2) && d2.entries() == remapped_entries(d.entries(), plan))
                &&& (old.class_def2_offset.obj() matches Some(d) ==> new.class_def2_offset.obj()
                    matches Some(d2) && d2.entries() == remapped_entries(d.entries(), plan))
            })
    }

    fn subset(&mut self, plan: &Plan) -> (r: Result<bool, Error>) {
        self.subset_classes(plan)
    }
}

/// A pair adjustment subtable, by format.
pub enum PairPos {
    Format1(PairPosFormat1),
    Format2(PairPosFormat2),
}

impl PairPos {
    /// Reads the format and the matching subtable; `None` for an unknown
    /// format.
    pub fn read(bytes: &[u8]) -> (r: Option<PairPos>)
        ensures
            bytes@.len() >= 2 && be_u16(bytes@, 0) == 1 ==> (r is Some <==> crate::layout::pair_pos1_ok(bytes@)),
            r matches Some(PairPos::Format1(_)) ==> be_u16(bytes@, 0) == 1,
            r matches Some(PairPos::Format2(_)) ==> be_u16(bytes@, 0) == 2,
            bytes@.len() >= 2 && be_u16(bytes@, 0) != 1 && be_u16(bytes@, 0) != 2 ==> r is None,
    {
        match read_u16(bytes, 0) {
            Some(1) => match PairPosFormat1::read(bytes) {
                Some(t) => Some(PairPos::Format1(t)),
                None => None,
            },
            Some(2) => match PairPosFormat2::read(bytes) {
                Some(t) => Some(PairPos::Format2(t)),
                None => None,
            },
            _ => None,
        }
    }
}

impl Table for PairPos {
    fn describe(&self, writer: &mut TableWriter) {
        match self {
            PairPos::Format1(t) => t.describe(writer),
            PairPos::Format2(t) => t.describe(writer),
        }
    }
}

impl Subset for PairPos {
    open spec fn kept(&self) -> bool {
        match self {
            PairPos::Format1(t) => t.kept(),
            PairPos::Format2(t) => t.kept(),
        }
    }

    open spec fn subset_post(old: Self, new: Self, plan: Plan, r: Result<bool, Error>) -> bool {
        match old {
            PairPos::Format1(o) => (new matches PairPos::Format1(n)
                && <PairPosFormat1 as Subset>::subset_post(o, n, plan, r)),
            PairPos::Format2(o) => (new matches PairPos::Format2(n)
                && <PairPosFormat2 as Subset>::subset_post(o, n, plan, r)),
        }
    }

    fn subset(&mut self, plan: &Plan) -> (r: Result<bool, Error>) {
        match self {
            PairPos::Format1(t) => t.subset(plan),
            PairPos::Format2(t) => t.subset(plan),
        }
    }
}

/// A rule of contextual positioning: the rest of an input sequence (of
/// glyphs or of classes, after the first, which the rule set stands for)
/// and the lookups to apply at positions of a match.
pub struct SequenceRule {
    pub input_sequence: Vec<u16>,
    pub seq_lookup_records: Vec<SequenceLookupRecord>,
}

impl SequenceRule {
    /// Reads a rule; `None` when the input count is zero or the arrays do
    /// not fit.
    pub fn read(bytes: &[u8]) -> (r: Option<SequenceRule>)
        ensures
            r is Some <==> bytes@.len() >= 4 && be_u16(bytes@, 0) >= 1 && bytes@.len() >= 4 + 2 * (
            be_u16(bytes@, 0) - 1) + 4 * be_u16(bytes@, 2),
            r matches Some(rule) ==> rule.input_sequence@.len() == be_u16(bytes@, 0) - 1
                && rule.seq_lookup_records@.len() == be_u16(bytes@, 2),
    {
        let glyph_count = match read_u16(bytes, 0) {
            Some(c) => c as usize,
            None => return None,
        };
        let lookup_count = match read_u16(bytes, 2) {
            Some(c) => c as usize,
            None => return None,
        };
        if glyph_count == 0 || bytes.len() < 4 + 2 * (glyph_count - 1) + 4 * lookup_count {
            return None;
        }
        let mut input_sequence: Vec<u16> = Vec::new();
        let mut i: usize = 0;
        while i < glyph_count - 1
            invariant
                1 <= glyph_count <= 0xFFFF,
                lookup_count <= 0xFFFF,
                bytes@.len() >= 4 + 2 * (glyph_count - 1) + 4 * lookup_count,
                i <= glyph_count - 1,
                input_sequence@.len() == i,
            decreases glyph_count - 1 - i,
        {
            input_sequence.push(read_u16(bytes, 4 + 2 * i).unwrap());
            i = i + 1;
        }
        let base = 4 + 2 * (glyph_count - 1);
        let mut seq_lookup_records: Vec<SequenceLookupRecord> = Vec::new();
        let mut k: usize = 0;
        while k < lookup_count
            invariant
                lookup_count <= 0xFFFF,
                base <= 0x20000,
                bytes@.len() >= base + 4 * lookup_count,
                k <= lookup_count,
                seq_lookup_records@.len() == k,
            decreases lookup_count - k,
        {
            let start = base + 4 * k;
            seq_lookup_records.push(SequenceLookupRecord::read(&bytes[start..bytes.len()]).unwrap());
            k = k + 1;
        }
        Some(SequenceRule { input_sequence, seq_lookup_records })
    }
}

impl Table for SequenceRule {
    fn describe(&self, writer: &mut TableWriter) {
        let count = count_u16(self.input_sequence.len());
        writer.write(if count < 0xFFFF {
            count + 1
        } else {
            count
        });
        writer.write(count_u16(self.seq_lookup_records.len()));
        let mut i: usize = 0;
        while i < self.input_sequence.len()
            invariant
                writer.wf(),
                writer.finished() >= old(writer).finished(),
                writer.keeps(*old(writer)),
            decreases self.input_sequence@.len() - i,
        {
            writer.write(self.input_sequence[i]);
            i = i + 1;
        }
        let mut k: usize = 0;
        while k < self.seq_lookup_records.len()
            invariant
                writer.wf(),
                writer.finished() >= old(writer).finished(),
                writer.keeps(*old(writer)),
            decreases self.seq_lookup_records@.len() - k,
        {
            writer.write(self.seq_lookup_records[k].sequence_index());
            writer.write(self.seq_lookup_records[k].lookup_list_index());
            k = k + 1;
        }
    }
}

/// The rules that start with one glyph (or one class).
pub struct SequenceRuleSet {
    pub seq_rule_offsets: Vec<OffsetMarker<Offset16, SequenceRule>>,
}

impl SequenceRuleSet {
    /// Reads a count and that many offsets to rules; a rule that does not
    /// read is kept as missing.
    pub fn read(bytes: &[u8]) -> (r: Option<SequenceRuleSet>)
        ensures
            r is Some <==> bytes@.len() >= 2 && bytes@.len() >= 2 + 2 * be_u16(bytes@, 0),
            r matches Some(set) ==> set.seq_rule_offsets@.len() == be_u16(bytes@, 0),
    {
        let count = match read_u16(bytes, 0) {
            Some(c) => c as usize,
            None => return None,
        };
        if bytes.len() < 2 + 2 * count {
            return None;
        }
        let mut rules: Vec<OffsetMarker<Offset16, SequenceRule>> = Vec::new();
        let mut i: usize = 0;
        while i < count
            invariant
                count <= 0xFFFF,
                bytes@.len() >= 2 + 2 * count,
                i <= count,
                rules@.len() == i,
            decreases count - i,
        {
            let rule = match read_u16(bytes, 2 + 2 * i) {
                Some(off) if off != 0 && (off as usize) <= bytes.len() => SequenceRule::read(
                    &bytes[off as usize..bytes.len()],
                ),
                _ => None,
            };
            rules.push(OffsetMarker::new_maybe_null(rule));
            i = i + 1;
        }
        Some(SequenceRuleSet { seq_rule_offsets: rules })
    }
}

impl Table for SequenceRuleSet {
    fn describe(&self, writer: &mut TableWriter) {
        writer.write(count_u16(self.seq_rule_offsets.len()));
        let mut i: usize = 0;
        while i < self.seq_rule_offsets.len()
            invariant
                writer.wf(),
                writer.finished() >= old(writer).finished(),
                writer.keeps(*old(writer)),
            decreases self.seq_rule_offsets@.len() - i,
        {
            self.seq_rule_offsets[i].write_into(writer);
            i = i + 1;
        }
    }
}

/// Reads `count` offsets to rule sets from `start` on; a null offset or a
/// set that does not read is kept as absent.
fn rule_sets_at(bytes: &[u8], start: usize, count: usize) -> (r: Vec<
    NullableOffsetMarker<Offset16, SequenceRuleSet>,
>)
    requires
        count <= 0xFFFF,
        start <= 16,
        bytes@.len() >= start + 2 * count,
    ensures
        r@.len() == count,
{
    let mut sets: Vec<NullableOffsetMarker<Offset16, SequenceRuleSet>> = Vec::new();
    let mut i: usize = 0;
    while i < count
        invariant
            count <= 0xFFFF,
            start <= 16,
            bytes@.len() >= start + 2 * count,
            i <= count,
            sets@.len() == i,
        decreases count - i,
    {
        let set = match read_u16(bytes, start + 2 * i) {
            Some(off) if off != 0 && (off as usize) <= bytes.len() => SequenceRuleSet::read(
                &bytes[off as usize..bytes.len()],
            ),
            _ => None,
        };
        sets.push(NullableOffsetMarker::new(set));
        i = i + 1;
    }
    sets
}

/// Contextual positioning, format 1: rule sets indexed by coverage, rules
/// over glyph sequences.
pub struct SequenceContextFormat1 {
    pub coverage_offset: OffsetMarker<Offset16, CoverageTable>,
    pub seq_rule_set_offsets: Vec<NullableOffsetMarker<Offset16, SequenceRuleSet>>,
}

impl SequenceContextFormat1 {
    /// Reads the subtable and everything it references into owned values.
    pub fn read(bytes: &[u8]) -> (r: Option<SequenceContextFormat1>)
        ensures
            r is Some <==> bytes@.len() >= 6 && be_u16(bytes@, 0) == 1 && bytes@.len() >= 6 + 2
                * be_u16(bytes@, 4),
            r matches Some(t) ==> t.seq_rule_set_offsets@.len() == be_u16(bytes@, 4),
    {
        if bytes.len() < 6 || read_u16(bytes, 0) != Some(1u16) {
            return None;
        }
        let count = read_u16(bytes, 4).unwrap() as usize;
        if bytes.len() < 6 + 2 * count {
            return None;
        }
        Some(
            SequenceContextFormat1 {
                coverage_offset: OffsetMarker::new_maybe_null(read_coverage(bytes, 2)),
                seq_rule_set_offsets: rule_sets_at(bytes, 6, count),
            },
        )
    }
}

impl Table for SequenceContextFormat1 {
    fn describe(&self, writer: &mut TableWriter) {
        writer.write(1u16);
        self.coverage_offset.write_into(writer);
        writer.write(count_u16(self.seq_rule_set_offsets.len()));
        let mut i: usize = 0;
        while i < self.seq_rule_set_offsets.len()
            invariant
                writer.wf(),
                writer.finished() >= old(writer).finished(),
                writer.keeps(*old(writer)),
            decreases self.seq_rule_set_offsets@.len() - i,
        {
            self.seq_rule_set_offsets[i].write_into(writer);
            i = i + 1;
        }
    }
}

/// Contextual positioning, format 2: rule sets indexed by the class of the
/// first glyph, rules over class sequences.
pub struct SequenceContextFormat2 {
    pub coverage_offset: OffsetMarker<Offset16, CoverageTable>,
    pub class_def_offset: OffsetMarker<Offset16, ClassDefTable>,
    pub class_seq_rule_set_offsets: Vec<NullableOffsetMarker<Offset16, SequenceRuleSet>>,
}

impl SequenceContextFormat2 {
    /// Reads the subtable and everything it references into owned values.
    pub fn read(bytes: &[u8]) -> (r: Option<SequenceContextFormat2>)
        ensures
            r is Some <==> bytes@.len() >= 8 && be_u16(bytes@, 0) == 2 && bytes@.len() >= 8 + 2
                * be_u16(bytes@, 6),
            r matches Some(t) ==> t.class_seq_rule_set_offsets@.len() == be_u16(bytes@, 6),
    {
        if bytes.len() < 8 || read_u16(bytes, 0) != Some(2u16) {
            return None;
        }
        let count = read_u16(bytes, 6).unwrap() as usize;
        if bytes.len() < 8 + 2 * count {
            return None;
        }
        Some(
            SequenceContextFormat2 {
                coverage_offset: OffsetMarker::new_maybe_null(read_coverage(bytes, 2)),
                class_def_offset: class_def_at(bytes, 4),
                class_seq_rule_set_offsets: rule_sets_at(bytes, 8, count),
            },
        )
    }
}

impl Table for SequenceContextFormat2 {
    fn describe(&self, writer: &mut TableWriter) {
        writer.write(2u16);
        self.coverage_offset.write_into(writer);
        self.class_def_offset.write_into(writer);
        writer.write(count_u16(self.class_seq_rule_set_offsets.len()));
        let mut i: usize = 0;
        while i < self.class_seq_rule_set_offsets.len()
            invariant
                writer.wf(),
                writer.finished() >= old(writer).finished(),
                writer.keeps(*old(writer)),
            decreases self.class_seq_rule_set_offsets@.len() - i,
        {
            self.class_seq_rule_set_offsets[i].write_into(writer);
            i = i + 1;
        }
    }
}

} // verus!
