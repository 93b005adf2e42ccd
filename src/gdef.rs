//! The glyph definition table: a header whose version decides its fields,
//! and the subtables its offsets lead to.
use vstd::prelude::*;

use crate::compile::{Table, TableWriter};
use crate::graph::{DumpError, ObjectId};
use crate::layout::{be_u16, count_u16};
use crate::subset::strictly_sorted;
use crate::offset::{target_bytes, FontRead, OffsetHost};
use crate::graph::{fits, graph_ok, order_ok, placed, TableData};
use crate::scalar::{be_value, read_u16, read_u32, Offset16, Offset32, OffsetLen};

verus! {

/// `bytes` hold a 16-bit count at `count_pos` and, from `start` on, that
/// many elements of `elem` bytes.
pub open spec fn counted_fits(bytes: Seq<u8>, count_pos: int, start: int, elem: int) -> bool {
    &&& bytes.len() >= count_pos + 2
    &&& bytes.len() >= start
    &&& bytes.len() >= start + elem * be_u16(bytes, count_pos)
}

/// Checks [`counted_fits`].
fn counted_fits_exec(bytes: &[u8], count_pos: usize, start: usize, elem: usize) -> (r: bool)
    requires
        count_pos <= 64,
        count_pos <= start <= 64,
        elem <= 8,
    ensures
        r == counted_fits(bytes@, count_pos as int, start as int, elem as int),
{
    match read_u16(bytes, count_pos) {
        Some(n) => {
            assert(elem * (n as usize) <= 8 * 0xFFFF) by (nonlinear_arith)
                requires
                    elem <= 8,
                    n <= 0xFFFF,
            ;
            bytes.len() >= start && bytes.len() - start >= elem * (n as usize)
        },
        None => false,
    }
}

/// A class definition table, format 1 (a start glyph and one class per
/// glyph) or format 2 (ranges of glyphs with a class each).
pub enum ClassDef<'a> {
    Format1(&'a [u8]),
    Format2(&'a [u8]),
}

impl<'a> FontRead<'a> for ClassDef<'a> {
    open spec fn view_bytes(&self) -> Seq<u8> {
        match self {
            ClassDef::Format1(b) => b@,
            ClassDef::Format2(b) => b@,
        }
    }

    open spec fn accepts(bytes: Seq<u8>) -> bool {
        &&& bytes.len() >= 2
        &&& (be_u16(bytes, 0) == 1 ==> counted_fits(bytes, 4, 6, 2))
        &&& (be_u16(bytes, 0) == 2 ==> counted_fits(bytes, 2, 4, 6))
        &&& (be_u16(bytes, 0) == 1 || be_u16(bytes, 0) == 2)
    }

    fn read(bytes: &'a [u8]) -> (r: Option<Self>) {
        match read_u16(bytes, 0) {
            Some(1) => if counted_fits_exec(bytes, 4, 6, 2) {
                Some(ClassDef::Format1(bytes))
            } else {
                None
            },
            Some(2) => if counted_fits_exec(bytes, 2, 4, 6) {
                Some(ClassDef::Format2(bytes))
            } else {
                None
            },
            _ => None,
        }
    }
}

/// The attachment point list: a coverage offset and one offset per glyph.
pub struct AttachList<'a> {
    pub data: &'a [u8],
}

impl<'a> FontRead<'a> for AttachList<'a> {
    open spec fn view_bytes(&self) -> Seq<u8> {
        self.data@
    }

    open spec fn accepts(bytes: Seq<u8>) -> bool {
        counted_fits(bytes, 2, 4, 2)
    }

    fn read(bytes: &'a [u8]) -> (r: Option<Self>) {
        if counted_fits_exec(bytes, 2, 4, 2) {
            Some(AttachList { data: bytes })
        } else {
            None
        }
    }
}

/// The ligature caret list: a coverage offset and one offset per ligature.
pub struct LigCaretList<'a> {
    pub data: &'a [u8],
}

impl<'a> FontRead<'a> for LigCaretList<'a> {
    open spec fn view_bytes(&self) -> Seq<u8> {
        self.data@
    }

    open spec fn accepts(bytes: Seq<u8>) -> bool {
        counted_fits(bytes, 2, 4, 2)
    }

    fn read(bytes: &'a [u8]) -> (r: Option<Self>) {
        if counted_fits_exec(bytes, 2, 4, 2) {
            Some(LigCaretList { data: bytes })
        } else {
            None
        }
    }
}

/// The mark glyph sets: a format, and a 32-bit offset to each set's
/// coverage.
pub struct MarkGlyphSets<'a> {
    pub data: &'a [u8],
}

impl<'a> FontRead<'a> for MarkGlyphSets<'a> {
    open spec fn view_bytes(&self) -> Seq<u8> {
        self.data@
    }

    open spec fn accepts(bytes: Seq<u8>) -> bool {
        counted_fits(bytes, 2, 4, 4)
    }

    fn read(bytes: &'a [u8]) -> (r: Option<Self>) {
        if counted_fits_exec(bytes, 2, 4, 4) {
            Some(MarkGlyphSets { data: bytes })
        } else {
            None
        }
    }
}

/// The header of a glyph definition table, by version: 1.0 has four
/// subtable offsets, 1.2 adds the mark glyph sets, 1.3 the variation store.
pub enum Gdef<'a> {
    Gdef1_0(&'a [u8]),
    Gdef1_2(&'a [u8]),
    Gdef1_3(&'a [u8]),
}

/// The length of each version's header.
pub open spec fn gdef_header_len(minor: u16) -> int {
    if minor == 0 {
        12
    } else if minor == 2 {
        14
    } else {
        18
    }
}

impl<'a> FontRead<'a> for Gdef<'a> {
    open spec fn view_bytes(&self) -> Seq<u8> {
        self.host_bytes()
    }

    /// A known version whose header fits.
    open spec fn accepts(bytes: Seq<u8>) -> bool {
        &&& bytes.len() >= 4
        &&& be_u16(bytes, 0) == 1
        &&& (be_u16(bytes, 2) == 0 || be_u16(bytes, 2) == 2 || be_u16(bytes, 2) == 3)
        &&& bytes.len() >= gdef_header_len(be_u16(bytes, 2))
    }

    fn read(bytes: &'a [u8]) -> (r: Option<Self>) {
        Self::view_of(bytes)
    }
}

impl<'a> OffsetHost<'a> for Gdef<'a> {
    open spec fn host_bytes(&self) -> Seq<u8> {
        match self {
            Gdef::Gdef1_0(b) => b@,
            Gdef::Gdef1_2(b) => b@,
            Gdef::Gdef1_3(b) => b@,
        }
    }

    fn bytes(&self) -> (r: &'a [u8]) {
        match self {
            Gdef::Gdef1_0(b) => b,
            Gdef::Gdef1_2(b) => b,
            Gdef::Gdef1_3(b) => b,
        }
    }
}

impl<'a> Gdef<'a> {
    /// The header of this variant fits its bytes.
    pub open spec fn wf(&self) -> bool {
        match self {
            Gdef::Gdef1_0(b) => b@.len() >= 12,
            Gdef::Gdef1_2(b) => b@.len() >= 14,
            Gdef::Gdef1_3(b) => b@.len() >= 18,
        }
    }

    /// The variant `read` gives for bytes it accepts.
    pub fn view_of(bytes: &'a [u8]) -> (r: Option<Gdef<'a>>)
        ensures
            r is Some <==> Self::accepts(bytes@),
            r matches Some(g) ==> g.wf() && g.host_bytes() == bytes@,
            r matches Some(Gdef::Gdef1_0(_)) ==> be_u16(bytes@, 2) == 0,
            r matches Some(Gdef::Gdef1_2(_)) ==> be_u16(bytes@, 2) == 2,
            r matches Some(Gdef::Gdef1_3(_)) ==> be_u16(bytes@, 2) == 3,
    {
        let major = match read_u16(bytes, 0) {
            Some(v) => v,
            None => return None,
        };
        let minor = match read_u16(bytes, 2) {
            Some(v) => v,
            None => return None,
        };
        if major != 1 {
            return None;
        }
        if minor == 0 && bytes.len() >= 12 {
            Some(Gdef::Gdef1_0(bytes))
        } else if minor == 2 && bytes.len() >= 14 {
            Some(Gdef::Gdef1_2(bytes))
        } else if minor == 3 && bytes.len() >= 18 {
            Some(Gdef::Gdef1_3(bytes))
        } else {
            None
        }
    }

    fn offset16_at(&self, pos: usize) -> (r: Offset16)
        requires
            self.wf(),
            pos + 2 <= 12,
        ensures
            r.0 == be_value(self.host_bytes(), pos as int, 2),
    {
        Offset16(read_u16(self.bytes(), pos).unwrap())
    }

    pub fn glyph_class_def_offset(&self) -> (r: Offset16)
        requires
            self.wf(),
        ensures
            r.0 == be_value(self.host_bytes(), 4, 2),
    {
        self.offset16_at(4)
    }

    pub fn attach_list_offset(&self) -> (r: Offset16)
        requires
            self.wf(),
        ensures
            r.0 == be_value(self.host_bytes(), 6, 2),
    {
        self.offset16_at(6)
    }

    pub fn lig_caret_list_offset(&self) -> (r: Offset16)
        requires
            self.wf(),
        ensures
            r.0 == be_value(self.host_bytes(), 8, 2),
    {
        self.offset16_at(8)
    }

    pub fn mark_attach_class_def_offset(&self) -> (r: Offset16)
        requires
            self.wf(),
        ensures
            r.0 == be_value(self.host_bytes(), 10, 2),
    {
        self.offset16_at(10)
    }

    /// Present from version 1.2 on.
    pub fn mark_glyph_sets_def_offset(&self) -> (r: Option<Offset16>)
        requires
            self.wf(),
        ensures
            self is Gdef1_0 <==> r is None,
            r matches Some(o) ==> o.0 == be_value(self.host_bytes(), 12, 2),
    {
        match self {
            Gdef::Gdef1_0(_) => None,
            Gdef::Gdef1_2(b) => Some(Offset16(read_u16(b, 12).unwrap())),
            Gdef::Gdef1_3(b) => Some(Offset16(read_u16(b, 12).unwrap())),
        }
    }

    /// Present in version 1.3.
    pub fn item_var_store_offset(&self) -> (r: Option<Offset32>)
        requires
            self.wf(),
        ensures
            self is Gdef1_3 <==> r is Some,
            r matches Some(o) ==> o.0 == be_value(self.host_bytes(), 14, 4),
    {
        match self {
            Gdef::Gdef1_3(b) => Some(Offset32(read_u32(b, 14).unwrap())),
            _ => None,
        }
    }

    /// The glyph class definitions, if the offset is set and they read.
    pub fn glyph_class_def(&self) -> (r: Option<ClassDef<'a>>)
        requires
            self.wf(),
        ensures
            be_value(self.host_bytes(), 4, 2) == 0 ==> r is None,
            target_bytes(self.host_bytes(), be_value(self.host_bytes(), 4, 2)) is None ==> r is None,
            r matches Some(v) ==> target_bytes(self.host_bytes(), be_value(self.host_bytes(), 4, 2)) == Some(
                v.view_bytes(),
            ),
            target_bytes(self.host_bytes(), be_value(self.host_bytes(), 4, 2)) matches Some(b) ==> (r is Some
                <==> ClassDef::accepts(b)),
    {
        self.resolve_offset(self.glyph_class_def_offset())
    }

    /// The attachment point list, if the offset is set and it reads.
    pub fn attach_list(&self) -> (r: Option<AttachList<'a>>)
        requires
            self.wf(),
        ensures
            be_value(self.host_bytes(), 6, 2) == 0 ==> r is None,
            target_bytes(self.host_bytes(), be_value(self.host_bytes(), 6, 2)) is None ==> r is None,
            r matches Some(v) ==> target_bytes(self.host_bytes(), be_value(self.host_bytes(), 6, 2)) == Some(
                v.view_bytes(),
            ),
            target_bytes(self.host_bytes(), be_value(self.host_bytes(), 6, 2)) matches Some(b) ==> (r is Some
                <==> AttachList::accepts(b)),
    {
        self.resolve_offset(self.attach_list_offset())
    }

    /// The ligature caret list, if the offset is set and it reads.
    pub fn lig_caret_list(&self) -> (r: Option<LigCaretList<'a>>)
        requires
            self.wf(),
        ensures
            be_value(self.host_bytes(), 8, 2) == 0 ==> r is None,
            target_bytes(self.host_bytes(), be_value(self.host_bytes(), 8, 2)) is None ==> r is None,
            r matches Some(v) ==> target_bytes(self.host_bytes(), be_value(self.host_bytes(), 8, 2)) == Some(
                v.view_bytes(),
            ),
            target_bytes(self.host_bytes(), be_value(self.host_bytes(), 8, 2)) matches Some(b) ==> (r is Some
                <==> LigCaretList::accepts(b)),
    {
        self.resolve_offset(self.lig_caret_list_offset())
    }

    /// The mark attachment classes, if the offset is set and they read.
    pub fn mark_attach_class_def(&self) -> (r: Option<ClassDef<'a>>)
        requires
            self.wf(),
        ensures
            be_value(self.host_bytes(), 10, 2) == 0 ==> r is None,
            target_bytes(self.host_bytes(), be_value(self.host_bytes(), 10, 2)) is None ==> r is None,
            r matches Some(v) ==> target_bytes(self.host_bytes(), be_value(self.host_bytes(), 10, 2)) == Some(
                v.view_bytes(),
            ),
            target_bytes(self.host_bytes(), be_value(self.host_bytes(), 10, 2)) matches Some(b) ==> (r is Some
                <==> ClassDef::accepts(b)),
    {
        self.resolve_offset(self.mark_attach_class_def_offset())
    }

    /// The mark glyph sets, in versions that have them, if the offset is
    /// set and they read.
    pub fn mark_glyph_sets_def(&self) -> (r: Option<MarkGlyphSets<'a>>)
        requires
            self.wf(),
        ensures
            self is Gdef1_0 ==> r is None,
            !(self is Gdef1_0) ==> {
                let t = target_bytes(self.host_bytes(), be_value(self.host_bytes(), 12, 2));
                &&& (t is None ==> r is None)
                &&& (t matches Some(b) ==> (r is Some <==> MarkGlyphSets::accepts(b)))
                &&& (r matches Some(v) ==> t == Some(v.view_bytes()))
            },
    {
        match self.mark_glyph_sets_def_offset() {
            Some(off) => self.resolve_offset(off),
            None => None,
        }
    }
}

/// Builds a glyph definition table from subtables given one at a time:
/// each is serialized as it is set, and the header that points to them is
/// written last.
pub struct GdefBuilder {
    writer: TableWriter,
    glyph_class_def: Option<ObjectId>,
    attach_list: Option<ObjectId>,
    lig_caret_list: Option<ObjectId>,
    mark_attach_class_def: Option<ObjectId>,
    mark_glyph_sets_def: Option<ObjectId>,
}

/// A subtable id that the writer has finished, or none.
pub open spec fn set_ok(id: Option<ObjectId>, finished: nat) -> bool {
    id matches Some(i) ==> i.0 < finished
}

impl GdefBuilder {
    pub closed spec fn wf(&self) -> bool {
        &&& self.writer.wf()
        &&& self.writer.depth() == 1
        &&& set_ok(self.glyph_class_def, self.writer.finished())
        &&& set_ok(self.attach_list, self.writer.finished())
        &&& set_ok(self.lig_caret_list, self.writer.finished())
        &&& set_ok(self.mark_attach_class_def, self.writer.finished())
        &&& set_ok(self.mark_glyph_sets_def, self.writer.finished())
    }

    pub fn new() -> (r: GdefBuilder)
        ensures
            r.wf(),
    {
        GdefBuilder {
            writer: TableWriter::new(),
            glyph_class_def: None,
            attach_list: None,
            lig_caret_list: None,
            mark_attach_class_def: None,
            mark_glyph_sets_def: None,
        }
    }

    /// Serializes `obj`. A description that leaves tables open makes the
    /// writer unusable: everything set so far is discarded and `None` is
    /// returned.
    fn add<T: Table>(&mut self, obj: &T) -> (r: Option<ObjectId>)
        requires
            old(self).wf(),
        ensures
            final(self).wf(),
            set_ok(r, final(self).writer.finished()),
    {
        let r = self.writer.add_table(obj);
        if self.writer.depth_is_root() {
            r
        } else {
            self.writer = TableWriter::new();
            self.glyph_class_def = None;
            self.attach_list = None;
            self.lig_caret_list = None;
            self.mark_attach_class_def = None;
            self.mark_glyph_sets_def = None;
            None
        }
    }

    pub fn set_glyph_class_def<T: Table>(&mut self, obj: &T)
        requires
            old(self).wf(),
        ensures
            final(self).wf(),
    {
        let id = self.add(obj);
        self.glyph_class_def = id;
    }

    pub fn set_attach_list<T: Table>(&mut self, obj: &T)
        requires
            old(self).wf(),
        ensures
            final(self).wf(),
    {
        let id = self.add(obj);
        self.attach_list = id;
    }

    pub fn set_lig_caret_list<T: Table>(&mut self, obj: &T)
        requires
            old(self).wf(),
        ensures
            final(self).wf(),
    {
        let id = self.add(obj);
        self.lig_caret_list = id;
    }

    pub fn set_mark_attach_class_def<T: Table>(&mut self, obj: &T)
        requires
            old(self).wf(),
        ensures
            final(self).wf(),
    {
        let id = self.add(obj);
        self.mark_attach_class_def = id;
    }

    pub fn set_mark_glyph_sets_def<T: Table>(&mut self, obj: &T)
        requires
            old(self).wf(),
        ensures
            final(self).wf(),
    {
        let id = self.add(obj);
        self.mark_glyph_sets_def = id;
    }

    fn write_offset(writer: &mut TableWriter, id: Option<ObjectId>)
        requires
            old(writer).wf(),
            set_ok(id, old(writer).finished()),
        ensures
            final(writer).wf(),
            final(writer).finished() == old(writer).finished(),
            final(writer).keeps(*old(writer)),
            final(writer).depth() == old(writer).depth(),
    {
        match id {
            Some(i) => writer.write_offset_marker(OffsetLen::Offset16, i),
            None => writer.write_null_offset(OffsetLen::Offset16),
        }
    }

    /// Writes the header (version 1.2 when mark glyph sets are set, 1.0
    /// otherwise) and lays out the whole table.
    pub fn build(self) -> (r: Result<Vec<u8>, DumpError>)
        requires
            self.wf(),
        ensures
            exists|g: Seq<TableData>, order: Seq<usize>, index: Seq<usize>|
                {
                    &&& graph_ok(g)
                    &&& order_ok(g, order, index)
                    &&& (r is Ok <==> fits(g, order, index))
                    &&& (r matches Ok(out) ==> placed(out@, g, order, index))
                },
    {
        let mut writer = self.writer;
        let minor: u16 = if self.mark_glyph_sets_def.is_some() {
            2
        } else {
            0
        };
        writer.write(1u16);
        writer.write(minor);
        Self::write_offset(&mut writer, self.glyph_class_def);
        Self::write_offset(&mut writer, self.attach_list);
        Self::write_offset(&mut writer, self.lig_caret_list);
        Self::write_offset(&mut writer, self.mark_attach_class_def);
        if minor == 2 {
            Self::write_offset(&mut writer, self.mark_glyph_sets_def);
        }
        writer.dump()
    }
}

/// A caret position inside a ligature.
#[derive(Clone, Copy, Debug, PartialEq, Eq, Structural)]
pub enum CaretValue {
    /// A coordinate in design units.
    Format1 { coordinate: i16 },
    /// A contour point of the glyph.
    Format2 { caret_value_point_index: u16 },
}

impl Table for CaretValue {
    fn describe(&self, writer: &mut TableWriter) {
        match self {
            CaretValue::Format1 { coordinate } => {
                writer.write(1u16);
                writer.write(*coordinate);
            },
            CaretValue::Format2 { caret_value_point_index } => {
                writer.write(2u16);
                writer.write(*caret_value_point_index);
            },
        }
    }
}

/// The carets of one ligature glyph.
pub struct LigGlyph {
    pub glyph: u16,
    pub carets: Vec<CaretValue>,
}

impl Table for LigGlyph {
    fn describe(&self, writer: &mut TableWriter) {
        writer.write(count_u16(self.carets.len()));
        let mut i: usize = 0;
        while i < self.carets.len()
            invariant
                writer.wf(),
                writer.finished() >= old(writer).finished(),
                writer.keeps(*old(writer)),
            decreases self.carets@.len() - i,
        {
            writer.write_offset0::<Offset16, CaretValue>(&self.carets[i]);
            i = i + 1;
        }
    }
}

/// The ligature carets of each ligature glyph, ordered by glyph id, ready
/// to be written as a ligature caret list.
pub struct LigCaretListBuilder {
    glyphs: Vec<LigGlyph>,
}

/// The glyph ids of the entries, in order.
pub open spec fn lig_keys(gs: Seq<LigGlyph>) -> Seq<u16> {
    gs.map_values(|g: LigGlyph| g.glyph)
}

impl LigCaretListBuilder {
    pub closed spec fn entries(&self) -> Seq<LigGlyph> {
        self.glyphs@
    }

    /// The glyph ids, ascending, without repeats.
    pub open spec fn wf(&self) -> bool {
        strictly_sorted(lig_keys(self.entries()))
    }

    pub fn new() -> (r: LigCaretListBuilder)
        ensures
            r.wf(),
            r.entries().len() == 0,
    {
        LigCaretListBuilder { glyphs: Vec::new() }
    }

    /// Sets the carets of `glyph`, replacing any it had.
    pub fn add_lig_glyph(&mut self, glyph: u16, carets: Vec<CaretValue>)
        requires
            old(self).wf(),
        ensures
            final(self).wf(),
            forall|g: u16| lig_keys(final(self).entries()).contains(g) <==> (g == glyph || lig_keys(
                old(self).entries(),
            ).contains(g)),
            exists|i: int|
                0 <= i < final(self).entries().len() && (#[trigger] final(self).entries()[i]).glyph == glyph
                    && final(self).entries()[i].carets@ == carets@,
    {
        let ghost old_keys = lig_keys(self.glyphs@);
        let ghost new_carets = carets@;
        let mut i: usize = 0;
        while i < self.glyphs.len() && self.glyphs[i].glyph < glyph
            invariant
                self.glyphs@ == old(self).glyphs@,
                old_keys == lig_keys(self.glyphs@),
                strictly_sorted(old_keys),
                i <= self.glyphs@.len(),
                forall|m: int| 0 <= m < i ==> self.glyphs@[m].glyph < glyph,
            decreases self.glyphs@.len() - i,
        {
            i = i + 1;
        }
        if i < self.glyphs.len() && self.glyphs[i].glyph == glyph {
            let ghost before = self.glyphs@;
            let entry = LigGlyph { glyph, carets };
            let ghost e = entry;
            assert(e.carets@ == new_carets);
            self.glyphs.set(i, entry);
            assert(self.glyphs@[i as int] == e);
            proof {
                let ks = lig_keys(self.glyphs@);
                assert(ks =~= old_keys);
                assert forall|g: u16| ks.contains(g) <==> (g == glyph || old_keys.contains(g)) by {
                    if g == glyph {
                        assert(ks[i as int] == g);
                    }
                }
                assert(self.glyphs@[i as int].glyph == glyph);
                assert(self.glyphs@[i as int].carets@ == new_carets);
                assert(self.entries() == self.glyphs@);
                assert(self.entries()[i as int].glyph == glyph && self.entries()[i as int].carets@ == new_carets);
                assert(exists|k: int|
                    0 <= k < self.entries().len() && (#[trigger] self.entries()[k]).glyph == glyph
                        && self.entries()[k].carets@ == new_carets);
            }
        } else {
            let ghost before = self.glyphs@;
            let entry = LigGlyph { glyph, carets };
            let ghost e = entry;
            assert(e.carets@ == new_carets);
            self.glyphs.insert(i, entry);
            assert(self.glyphs@[i as int] == e);
            proof {
                let ks = lig_keys(self.glyphs@);
                assert(ks =~= old_keys.insert(i as int, glyph));
                assert forall|a: int, b: int| 0 <= a < b < ks.len() implies ks[a] < ks[b] by {
                    if b < i {
                    } else if a < i && b == i {
                        assert(before[a].glyph < glyph);
                    } else if a < i && b > i {
                        assert(old_keys[a] < old_keys[b - 1]);
                    } else if a == i {
                        if b - 1 < before.len() {
                            assert(before[i as int].glyph >= glyph);
                            if b - 1 > i {
                                assert(old_keys[i as int] < old_keys[b - 1]);
                            }
                        }
                    } else {
                        assert(old_keys[a - 1] < old_keys[b - 1]);
                    }
                }
                assert forall|g: u16| ks.contains(g) <==> (g == glyph || old_keys.contains(g)) by {
                    if g == glyph {
                        assert(ks[i as int] == g);
                    }
                    if old_keys.contains(g) {
                        let m = choose|m: int| 0 <= m < old_keys.len() && old_keys[m] == g;
                        if m < i {
                            assert(ks[m] == g);
                        } else {
                            assert(ks[m + 1] == g);
                        }
                    }
                    if ks.contains(g) && g != glyph {
                        let m = choose|m: int| 0 <= m < ks.len() && ks[m] == g;
                        if m < i {
                            assert(old_keys[m] == g);
                        } else {
                            assert(m != i);
                            assert(old_keys[m - 1] == g);
                        }
                    }
                }
                assert(self.glyphs@[i as int].glyph == glyph);
                assert(self.glyphs@[i as int].carets@ == new_carets);
                assert(self.entries() == self.glyphs@);
                assert(self.entries()[i as int].glyph == glyph && self.entries()[i as int].carets@ == new_carets);
                assert(exists|k: int|
                    0 <= k < self.entries().len() && (#[trigger] self.entries()[k]).glyph == glyph
                        && self.entries()[k].carets@ == new_carets);
            }
        }
    }
}

impl Table for LigCaretListBuilder {
    /// A coverage of the ligature glyphs, then an offset to the carets of
    /// each, in coverage order.
    fn describe(&self, writer: &mut TableWriter) {
        let mut glyphs: Vec<u16> = Vec::new();
        let mut i: usize = 0;
        while i < self.glyphs.len()
            decreases self.glyphs@.len() - i,
        {
            glyphs.push(self.glyphs[i].glyph);
            i = i + 1;
        }
        let coverage = crate::layout::CoverageTable::Format1 { glyphs };
        writer.write_offset0::<Offset16, crate::layout::CoverageTable>(&coverage);
        writer.write(count_u16(self.glyphs.len()));
        let mut k: usize = 0;
        while k < self.glyphs.len()
            invariant
                writer.wf(),
                writer.finished() >= old(writer).finished(),
                writer.keeps(*old(writer)),
            decreases self.glyphs@.len() - k,
        {
            writer.write_offset0::<Offset16, LigGlyph>(&self.glyphs[k]);
            k = k + 1;
        }
    }
}

} // verus!
