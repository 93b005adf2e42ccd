//! Contextual positioning by lookup type: plain sequence contexts and
//! chained contexts, which add backtrack and lookahead sequences.
use vstd::prelude::*;

use crate::classes::{
    class_def_at, ClassDefTable, SequenceContextFormat1, SequenceContextFormat2,
};
use crate::compile::{Table, TableWriter};
use crate::layout::{
    be_u16, count_u16, read_coverage, CoverageTable, SequenceContextFormat3, SequenceLookupRecord,
};
use crate::offsets::{NullableOffsetMarker, OffsetMarker};
use crate::scalar::{read_u16, Offset16};
use crate::subset::{Error, Plan, Subset};

verus! {

/// Contextual positioning, by format.
pub enum SequenceContext {
    Format1(SequenceContextFormat1),
    Format2(SequenceContextFormat2),
    Format3(SequenceContextFormat3),
}

/// A contextual subtable of format 1, 2 or 3 fits.
pub open spec fn context_ok(t: Seq<u8>) -> bool {
    ||| (t.len() >= 6 && be_u16(t, 0) == 1 && t.len() >= 6 + 2 * be_u16(t, 4))
    ||| (t.len() >= 8 && be_u16(t, 0) == 2 && t.len() >= 8 + 2 * be_u16(t, 6))
    ||| (t.len() >= 6 && be_u16(t, 0) == 3 && t.len() >= 6 + 2 * be_u16(t, 2) + 4 * be_u16(t, 4))
}

/// A chained contextual subtable of format 1 or 2 fits.
pub open spec fn chained_context12_ok(t: Seq<u8>) -> bool {
    ||| (t.len() >= 6 && be_u16(t, 0) == 1 && t.len() >= 6 + 2 * be_u16(t, 4))
    ||| (t.len() >= 12 && be_u16(t, 0) == 2 && t.len() >= 12 + 2 * be_u16(t, 10))
}

impl SequenceContext {
    /// Reads the format and the matching subtable; `None` for an unknown
    /// format or a subtable that does not fit.
    pub fn read(bytes: &[u8]) -> (r: Option<SequenceContext>)
        ensures
            r is Some <==> context_ok(bytes@),
            r matches Some(SequenceContext::Format1(_)) ==> be_u16(bytes@, 0) == 1,
            r matches Some(SequenceContext::Format2(_)) ==> be_u16(bytes@, 0) == 2,
            r matches Some(SequenceContext::Format3(_)) ==> be_u16(bytes@, 0) == 3,
            bytes@.len() >= 2 && !(1 <= be_u16(bytes@, 0) <= 3) ==> r is None,
    {
        match read_u16(bytes, 0) {
            Some(1) => match SequenceContextFormat1::read(bytes) {
                Some(t) => Some(SequenceContext::Format1(t)),
                None => None,
            },
            Some(2) => match SequenceContextFormat2::read(bytes) {
                Some(t) => Some(SequenceContext::Format2(t)),
                None => None,
            },
            Some(3) => match SequenceContextFormat3::read(bytes) {
                Some(t) => Some(SequenceContext::Format3(t)),
                None => None,
            },
            _ => None,
        }
    }
}

impl Table for SequenceContext {
    fn describe(&self, writer: &mut TableWriter) {
        match self {
            SequenceContext::Format1(t) => t.describe(writer),
            SequenceContext::Format2(t) => t.describe(writer),
            SequenceContext::Format3(t) => t.describe(writer),
        }
    }
}

impl Subset for SequenceContext {
    open spec fn kept(&self) -> bool {
        true
    }

    open spec fn subset_post(old: Self, new: Self, plan: Plan, r: Result<bool, Error>) -> bool {
        new == old && r == Ok::<bool, Error>(true)
    }

    /// Contexts are kept whole: their rules name glyphs and lookups by
    /// index, and are not pruned.
    fn subset(&mut self, plan: &Plan) -> (r: Result<bool, Error>) {
        Ok(true)
    }
}

/// Reads `n` 16-bit values from `pos` on; `None` when they do not fit.
fn read_u16s(bytes: &[u8], pos: usize, n: usize) -> (r: Option<Vec<u16>>)
    requires
        n <= 0xFFFF,
    ensures
        r is Some <==> pos + 2 * n <= bytes@.len(),
        r matches Some(v) ==> v@.len() == n && forall|i: int| 0 <= i < n ==> v@[i] == be_u16(bytes@, pos + 2 * i),
{
    if pos > bytes.len() || bytes.len() - pos < 2 * n {
        return None;
    }
    let size = bytes.len();
    let mut v: Vec<u16> = Vec::new();
    let mut i: usize = 0;
    while i < n
        invariant
            n <= 0xFFFF,
            size == bytes@.len(),
            pos + 2 * n <= bytes@.len(),
            i <= n,
            v@.len() == i,
            forall|m: int| 0 <= m < i ==> v@[m] == be_u16(bytes@, pos + 2 * m),
        decreases n - i,
    {
        v.push(read_u16(bytes, pos + 2 * i).unwrap());
        i = i + 1;
    }
    Some(v)
}

/// Reads `n` coverage offsets from `pos` on; the offsets must fit, and a
/// coverage that does not read is kept as missing.
fn coverages_at(bytes: &[u8], pos: usize, n: usize) -> (r: Vec<OffsetMarker<Offset16, CoverageTable>>)
    requires
        n <= 0xFFFF,
        pos + 2 * n <= bytes@.len(),
    ensures
        r@.len() == n,
{
    let size = bytes.len();
    let mut v: Vec<OffsetMarker<Offset16, CoverageTable>> = Vec::new();
    let mut i: usize = 0;
    while i < n
        invariant
            n <= 0xFFFF,
            size == bytes@.len(),
            pos + 2 * n <= bytes@.len(),
            i <= n,
            v@.len() == i,
        decreases n - i,
    {
        v.push(OffsetMarker::new_maybe_null(read_coverage(bytes, pos + 2 * i)));
        i = i + 1;
    }
    v
}

/// Reads `n` sequence lookup records from `pos` on, which must fit.
fn lookup_records_at(bytes: &[u8], pos: usize, n: usize) -> (r: Vec<SequenceLookupRecord>)
    requires
        n <= 0xFFFF,
        pos + 4 * n <= bytes@.len(),
    ensures
        r@.len() == n,
{
    let size = bytes.len();
    let mut v: Vec<SequenceLookupRecord> = Vec::new();
    let mut i: usize = 0;
    while i < n
        invariant
            n <= 0xFFFF,
            size == bytes@.len(),
            pos + 4 * n <= bytes@.len(),
            i <= n,
            v@.len() == i,
        decreases n - i,
    {
        let start = pos + 4 * i;
        v.push(SequenceLookupRecord::read(&bytes[start..bytes.len()]).unwrap());
        i = i + 1;
    }
    v
}

fn write_u16s(writer: &mut TableWriter, values: &Vec<u16>)
    requires
        old(writer).wf(),
    ensures
        final(writer).wf(),
        final(writer).finished() == old(writer).finished(),
        final(writer).keeps(*old(writer)),
{
    writer.write(count_u16(values.len()));
    let mut i: usize = 0;
    while i < values.len()
        invariant
            writer.wf(),
            writer.finished() == old(writer).finished(),
            writer.keeps(*old(writer)),
        decreases values@.len() - i,
    {
        writer.write(values[i]);
        i = i + 1;
    }
}

fn write_coverages(writer: &mut TableWriter, covs: &Vec<OffsetMarker<Offset16, CoverageTable>>)
    requires
        old(writer).wf(),
    ensures
        final(writer).wf(),
        final(writer).finished() >= old(writer).finished(),
        final(writer).keeps(*old(writer)),
{
    writer.write(count_u16(covs.len()));
    let mut i: usize = 0;
    while i < covs.len()
        invariant
            writer.wf(),
            writer.finished() >= old(writer).finished(),
            writer.keeps(*old(writer)),
        decreases covs@.len() - i,
    {
        covs[i].write_into(writer);
        i = i + 1;
    }
}

fn write_lookup_records(writer: &mut TableWriter, recs: &Vec<SequenceLookupRecord>)
    requires
        old(writer).wf(),
    ensures
        final(writer).wf(),
        final(writer).finished() == old(writer).finished(),
        final(writer).keeps(*old(writer)),
{
    let mut k: usize = 0;
    while k < recs.len()
        invariant
            writer.wf(),
            writer.finished() == old(writer).finished(),
            writer.keeps(*old(writer)),
        decreases recs@.len() - k,
    {
        writer.write(recs[k].sequence_index());
        writer.write(recs[k].lookup_list_index());
        k = k + 1;
    }
}

/// A chained rule: the glyphs (or classes) before the input, the rest of
/// the input after its first, the glyphs after it, and the lookups to apply.
pub struct ChainedSequenceRule {
    pub backtrack_sequence: Vec<u16>,
    pub input_sequence: Vec<u16>,
    pub lookahead_sequence: Vec<u16>,
    pub seq_lookup_records: Vec<SequenceLookupRecord>,
}

impl ChainedSequenceRule {
    /// Reads the four counted arrays one after another; `None` when the
    /// input count is zero or an array does not fit.
    pub fn read(bytes: &[u8]) -> (r: Option<ChainedSequenceRule>)
        ensures
            r matches Some(rule) ==> rule.backtrack_sequence@.len() == be_u16(bytes@, 0),
    {
        let nb = match read_u16(bytes, 0) {
            Some(n) => n as usize,
            None => return None,
        };
        let backtrack_sequence = match read_u16s(bytes, 2, nb) {
            Some(v) => v,
            None => return None,
        };
        let pos = 2 + 2 * nb;
        let ni = match read_u16(bytes, pos) {
            Some(n) => n as usize,
            None => return None,
        };
        if ni == 0 {
            return None;
        }
        let input_sequence = match read_u16s(bytes, pos + 2, ni - 1) {
            Some(v) => v,
            None => return None,
        };
        let pos = pos + 2 + 2 * (ni - 1);
        let nl = match read_u16(bytes, pos) {
            Some(n) => n as usize,
            None => return None,
        };
        let lookahead_sequence = match read_u16s(bytes, pos + 2, nl) {
            Some(v) => v,
            None => return None,
        };
        let pos = pos + 2 + 2 * nl;
        let nr = match read_u16(bytes, pos) {
            Some(n) => n as usize,
            None => return None,
        };
        if pos + 2 > bytes.len() || bytes.len() - (pos + 2) < 4 * nr {
            return None;
        }
        let seq_lookup_records = lookup_records_at(bytes, pos + 2, nr);
        Some(ChainedSequenceRule { backtrack_sequence, input_sequence, lookahead_sequence, seq_lookup_records })
    }
}

impl Table for ChainedSequenceRule {
    fn describe(&self, writer: &mut TableWriter) {
        write_u16s(writer, &self.backtrack_sequence);
        let count = count_u16(self.input_sequence.len());
        writer.write(if count < 0xFFFF {
            count + 1
        } else {
            count
        });
        let mut i: usize = 0;
        while i < self.input_sequence.len()
            invariant
                writer.wf(),
                writer.finished() >= old(writer).finished(),
                writer.keeps(*old(writer)),
            decreases self.input_sequence@.len() - i,
        {
            writer.write(self.input_sequence[i]);
            i = i + 1;
        }
        write_u16s(writer, &self.lookahead_sequence);
        writer.write(count_u16(self.seq_lookup_records.len()));
        write_lookup_records(writer, &self.seq_lookup_records);
    }
}

/// The chained rules that start with one glyph (or one class).
pub struct ChainedSequenceRuleSet {
    pub chained_seq_rule_offsets: Vec<OffsetMarker<Offset16, ChainedSequenceRule>>,
}

impl ChainedSequenceRuleSet {
    /// Reads a count and that many offsets to rules; a rule that does not
    /// read is kept as missing.
    pub fn read(bytes: &[u8]) -> (r: Option<ChainedSequenceRuleSet>)
        ensures
            r is Some <==> bytes@.len() >= 2 && bytes@.len() >= 2 + 2 * be_u16(bytes@, 0),
            r matches Some(set) ==> set.chained_seq_rule_offsets@.len() == be_u16(bytes@, 0),
    {
        let count = match read_u16(bytes, 0) {
            Some(c) => c as usize,
            None => return None,
        };
        if bytes.len() < 2 + 2 * count {
            return None;
        }
        let mut rules: Vec<OffsetMarker<Offset16, ChainedSequenceRule>> = Vec::new();
        let mut i: usize = 0;
        while i < count
            invariant
                count <= 0xFFFF,
                bytes@.len() >= 2 + 2 * count,
                i <= count,
                rules@.len() == i,
            decreases count - i,
        {
            let rule = match read_u16(bytes, 2 + 2 * i) {
                Some(off) if off != 0 && (off as usize) <= bytes.len() => ChainedSequenceRule::read(
                    &bytes[off as usize..bytes.len()],
                ),
                _ => None,
            };
            rules.push(OffsetMarker::new_maybe_null(rule));
            i = i + 1;
        }
        Some(ChainedSequenceRuleSet { chained_seq_rule_offsets: rules })
    }
}

impl Table for ChainedSequenceRuleSet {
    fn describe(&self, writer: &mut TableWriter) {
        writer.write(count_u16(self.chained_seq_rule_offsets.len()));
        let mut i: usize = 0;
        while i < self.chained_seq_rule_offsets.len()
            invariant
                writer.wf(),
                writer.finished() >= old(writer).finished(),
                writer.keeps(*old(writer)),
            decreases self.chained_seq_rule_offsets@.len() - i,
        {
            self.chained_seq_rule_offsets[i].write_into(writer);
            i = i + 1;
        }
    }
}

/// Reads `count` offsets to chained rule sets from `start` on; a null
/// offset or a set that does not read is kept as absent.
fn chained_rule_sets_at(bytes: &[u8], start: usize, count: usize) -> (r: Vec<
    NullableOffsetMarker<Offset16, ChainedSequenceRuleSet>,
>)
    requires
        count <= 0xFFFF,
        start <= 16,
        bytes@.len() >= start + 2 * count,
    ensures
        r@.len() == count,
{
    let mut sets: Vec<NullableOffsetMarker<Offset16, ChainedSequenceRuleSet>> = Vec::new();
    let mut i: usize = 0;
    while i < count
        invariant
            count <= 0xFFFF,
            start <= 16,
            bytes@.len() >= start + 2 * count,
            i <= count,
            sets@.len() == i,
        decreases count - i,
    {
        let set = match read_u16(bytes, start + 2 * i) {
            Some(off) if off != 0 && (off as usize) <= bytes.len() => ChainedSequenceRuleSet::read(
                &bytes[off as usize..bytes.len()],
            ),
            _ => None,
        };
        sets.push(NullableOffsetMarker::new(set));
        i = i + 1;
    }
    sets
}

fn write_rule_sets(writer: &mut TableWriter, sets: &Vec<NullableOffsetMarker<Offset16, ChainedSequenceRuleSet>>)
    requires
        old(writer).wf(),
    ensures
        final(writer).wf(),
        final(writer).finished() >= old(writer).finished(),
        final(writer).keeps(*old(writer)),
{
    writer.write(count_u16(sets.len()));
    let mut i: usize = 0;
    while i < sets.len()
        invariant
            writer.wf(),
            writer.finished() >= old(writer).finished(),
            writer.keeps(*old(writer)),
        decreases sets@.len() - i,
    {
        sets[i].write_into(writer);
        i = i + 1;
    }
}

/// Chained contextual positioning, format 1: rule sets indexed by coverage,
/// rules over glyph sequences.
pub struct ChainedSequenceContextFormat1 {
    pub coverage_offset: OffsetMarker<Offset16, CoverageTable>,
    pub chained_seq_rule_set_offsets: Vec<NullableOffsetMarker<Offset16, ChainedSequenceRuleSet>>,
}

/// Chained contextual positioning, format 2: rule sets indexed by the input
/// class of the first glyph, rules over class sequences.
pub struct ChainedSequenceContextFormat2 {
    pub coverage_offset: OffsetMarker<Offset16, CoverageTable>,
    pub backtrack_class_def_offset: OffsetMarker<Offset16, ClassDefTable>,
    pub input_class_def_offset: OffsetMarker<Offset16, ClassDefTable>,
    pub lookahead_class_def_offset: OffsetMarker<Offset16, ClassDefTable>,
    pub chained_class_seq_rule_set_offsets: Vec<NullableOffsetMarker<Offset16, ChainedSequenceRuleSet>>,
}

/// Chained contextual positioning, format 3: a coverage per position of the
/// backtrack, input and lookahead sequences.
pub struct ChainedSequenceContextFormat3 {
    pub backtrack_coverage_offsets: Vec<OffsetMarker<Offset16, CoverageTable>>,
    pub input_coverage_offsets: Vec<OffsetMarker<Offset16, CoverageTable>>,
    pub lookahead_coverage_offsets: Vec<OffsetMarker<Offset16, CoverageTable>>,
    pub seq_lookup_records: Vec<SequenceLookupRecord>,
}

impl ChainedSequenceContextFormat1 {
    pub fn read(bytes: &[u8]) -> (r: Option<ChainedSequenceContextFormat1>)
        ensures
            r is Some <==> bytes@.len() >= 6 && be_u16(bytes@, 0) == 1 && bytes@.len() >= 6 + 2
                * be_u16(bytes@, 4),
            r matches Some(t) ==> t.chained_seq_rule_set_offsets@.len() == be_u16(bytes@, 4),
    {
        if bytes.len() < 6 || read_u16(bytes, 0) != Some(1u16) {
            return None;
        }
        let count = read_u16(bytes, 4).unwrap() as usize;
        if bytes.len() < 6 + 2 * count {
            return None;
        }
        Some(
            ChainedSequenceContextFormat1 {
                coverage_offset: OffsetMarker::new_maybe_null(read_coverage(bytes, 2)),
                chained_seq_rule_set_offsets: chained_rule_sets_at(bytes, 6, count),
            },
        )
    }
}

impl ChainedSequenceContextFormat2 {
    pub fn read(bytes: &[u8]) -> (r: Option<ChainedSequenceContextFormat2>)
        ensures
            r is Some <==> bytes@.len() >= 12 && be_u16(bytes@, 0) == 2 && bytes@.len() >= 12 + 2
                * be_u16(bytes@, 10),
            r matches Some(t) ==> t.chained_class_seq_rule_set_offsets@.len() == be_u16(bytes@, 10),
    {
        if bytes.len() < 12 || read_u16(bytes, 0) != Some(2u16) {
            return None;
        }
        let count = read_u16(bytes, 10).unwrap() as usize;
        if bytes.len() < 12 + 2 * count {
            return None;
        }
        Some(
            ChainedSequenceContextFormat2 {
                coverage_offset: OffsetMarker::new_maybe_null(read_coverage(bytes, 2)),
                backtrack_class_def_offset: class_def_at(bytes, 4),
                input_class_def_offset: class_def_at(bytes, 6),
                lookahead_class_def_offset: class_def_at(bytes, 8),
                chained_class_seq_rule_set_offsets: chained_rule_sets_at(bytes, 12, count),
            },
        )
    }
}

impl ChainedSequenceContextFormat3 {
    /// Reads the three counted coverage arrays and the lookup records one
    /// after another; `None` when an array does not fit.
    pub fn read(bytes: &[u8]) -> (r: Option<ChainedSequenceContextFormat3>)
        ensures
            r is Some ==> be_u16(bytes@, 0) == 3,
            r matches Some(t) ==> t.backtrack_coverage_offsets@.len() == be_u16(bytes@, 2),
    {
        if read_u16(bytes, 0) != Some(3u16) {
            return None;
        }
        let nb = match read_u16(bytes, 2) {
            Some(n) => n as usize,
            None => return None,
        };
        if bytes.len() < 4 + 2 * nb {
            return None;
        }
        let backtrack = coverages_at(bytes, 4, nb);
        let pos = 4 + 2 * nb;
        let ni = match read_u16(bytes, pos) {
            Some(n) => n as usize,
            None => return None,
        };
        if bytes.len() - (pos + 2) < 2 * ni {
            return None;
        }
        let input = coverages_at(bytes, pos + 2, ni);
        let pos = pos + 2 + 2 * ni;
        let nl = match read_u16(bytes, pos) {
            Some(n) => n as usize,
            None => return None,
        };
        if bytes.len() - (pos + 2) < 2 * nl {
            return None;
        }
        let lookahead = coverages_at(bytes, pos + 2, nl);
        let pos = pos + 2 + 2 * nl;
        let nr = match read_u16(bytes, pos) {
            Some(n) => n as usize,
            None => return None,
        };
        if bytes.len() - (pos + 2) < 4 * nr {
            return None;
        }
        let seq_lookup_records = lookup_records_at(bytes, pos + 2, nr);
        Some(
            ChainedSequenceContextFormat3 {
                backtrack_coverage_offsets: backtrack,
                input_coverage_offsets: input,
                lookahead_coverage_offsets: lookahead,
                seq_lookup_records,
            },
        )
    }
}

impl Table for ChainedSequenceContextFormat1 {
    fn describe(&self, writer: &mut TableWriter) {
        writer.write(1u16);
        self.coverage_offset.write_into(writer);
        write_rule_sets(writer, &self.chained_seq_rule_set_offsets);
    }
}

impl Table for ChainedSequenceContextFormat2 {
    fn describe(&self, writer: &mut TableWriter) {
        writer.write(2u16);
        self.coverage_offset.write_into(writer);
        self.backtrack_class_def_offset.write_into(writer);
        self.input_class_def_offset.write_into(writer);
        self.lookahead_class_def_offset.write_into(writer);
        write_rule_sets(writer, &self.chained_class_seq_rule_set_offsets);
    }
}

impl Table for ChainedSequenceContextFormat3 {
    fn describe(&self, writer: &mut TableWriter) {
        writer.write(3u16);
        write_coverages(writer, &self.backtrack_coverage_offsets);
        write_coverages(writer, &self.input_coverage_offsets);
        write_coverages(writer, &self.lookahead_coverage_offsets);
        writer.write(count_u16(self.seq_lookup_records.len()));
        write_lookup_records(writer, &self.seq_lookup_records);
    }
}

/// Chained contextual positioning, by format.
pub enum ChainedSequenceContext {
    Format1(ChainedSequenceContextFormat1),
    Format2(ChainedSequenceContextFormat2),
    Format3(ChainedSequenceContextFormat3),
}

impl ChainedSequenceContext {
    /// Reads the format and the matching subtable; `None` for an unknown
    /// format or a subtable that does not fit.
    pub fn read(bytes: &[u8]) -> (r: Option<ChainedSequenceContext>)
        ensures
            bytes@.len() >= 2 && (be_u16(bytes@, 0) == 1 || be_u16(bytes@, 0) == 2) ==> (r is Some
                <==> chained_context12_ok(bytes@)),
            r matches Some(ChainedSequenceContext::Format1(_)) ==> be_u16(bytes@, 0) == 1,
            r matches Some(ChainedSequenceContext::Format2(_)) ==> be_u16(bytes@, 0) == 2,
            r matches Some(ChainedSequenceContext::Format3(_)) ==> be_u16(bytes@, 0) == 3,
            bytes@.len() >= 2 && !(1 <= be_u16(bytes@, 0) <= 3) ==> r is None,
    {
        match read_u16(bytes, 0) {
            Some(1) => match ChainedSequenceContextFormat1::read(bytes) {
                Some(t) => Some(ChainedSequenceContext::Format1(t)),
                None => None,
            },
            Some(2) => match ChainedSequenceContextFormat2::read(bytes) {
                Some(t) => Some(ChainedSequenceContext::Format2(t)),
                None => None,
            },
            Some(3) => match ChainedSequenceContextFormat3::read(bytes) {
                Some(t) => Some(ChainedSequenceContext::Format3(t)),
                None => None,
            },
            _ => None,
        }
    }
}

impl Table for ChainedSequenceContext {
    fn describe(&self, writer: &mut TableWriter) {
        match self {
            ChainedSequenceContext::Format1(t) => t.describe(writer),
            ChainedSequenceContext::Format2(t) => t.describe(writer),
            ChainedSequenceContext::Format3(t) => t.describe(writer),
        }
    }
}

impl Subset for ChainedSequenceContext {
    open spec fn kept(&self) -> bool {
        true
    }

    open spec fn subset_post(old: Self, new: Self, plan: Plan, r: Result<bool, Error>) -> bool {
        new == old && r == Ok::<bool, Error>(true)
    }

    /// Chained contexts are kept whole, like plain ones.
    fn subset(&mut self, plan: &Plan) -> (r: Result<bool, Error>) {
        Ok(true)
    }
}

} // verus!
