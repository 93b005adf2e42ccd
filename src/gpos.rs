//! Owned positioning lookups: the lookup list, each lookup with its
//! subtables, and extension subtables that wrap another lookup type.
use vstd::prelude::*;

use crate::compile::{Table, TableWriter};
use crate::chain::{chained_context12_ok, context_ok, ChainedSequenceContext, SequenceContext};
use crate::classes::PairPos;
use crate::layout::{be_u16, count_u16, lookup_resolves, pair_pos1_ok, single_pos_ok, Lookup, SinglePos};
use crate::mark::{CursivePosFormat1, MarkBasePosFormat1, MarkLigPosFormat1, MarkMarkPosFormat1};
use crate::offsets::OffsetMarker;
use crate::scalar::{be_value, read_u16, read_u32, Offset16, Offset32};
use crate::subset::{kept_items, subset_each, Error, Plan, Subset};
use crate::offset::FontRead;

verus! {

/// A subtable type that can be read from bytes into an owned value.
pub trait ReadOwned: Sized {
    fn read_owned(bytes: &[u8]) -> Option<Self>;
}

impl ReadOwned for SinglePos {
    fn read_owned(bytes: &[u8]) -> Option<Self> {
        SinglePos::read(bytes)
    }
}

impl ReadOwned for PairPos {
    fn read_owned(bytes: &[u8]) -> Option<Self> {
        PairPos::read(bytes)
    }
}

impl ReadOwned for CursivePosFormat1 {
    fn read_owned(bytes: &[u8]) -> Option<Self> {
        CursivePosFormat1::read(bytes)
    }
}

impl ReadOwned for MarkBasePosFormat1 {
    fn read_owned(bytes: &[u8]) -> Option<Self> {
        MarkBasePosFormat1::read(bytes)
    }
}

impl ReadOwned for MarkLigPosFormat1 {
    fn read_owned(bytes: &[u8]) -> Option<Self> {
        MarkLigPosFormat1::read(bytes)
    }
}

impl ReadOwned for MarkMarkPosFormat1 {
    fn read_owned(bytes: &[u8]) -> Option<Self> {
        MarkMarkPosFormat1::read(bytes)
    }
}

impl ReadOwned for SequenceContext {
    fn read_owned(bytes: &[u8]) -> Option<Self> {
        SequenceContext::read(bytes)
    }
}

impl ReadOwned for ChainedSequenceContext {
    fn read_owned(bytes: &[u8]) -> Option<Self> {
        ChainedSequenceContext::read(bytes)
    }
}

impl ReadOwned for Extension {
    fn read_owned(bytes: &[u8]) -> Option<Self> {
        Extension::read(bytes)
    }
}

/// A lookup: its type and flags, and its subtables, all of one type.
pub struct LookupTable<T> {
    pub lookup_type: u16,
    pub lookup_flag: u16,
    pub subtables: Vec<OffsetMarker<Offset16, T>>,
}

impl<T: ReadOwned> LookupTable<T> {
    /// Reads every subtable of a lookup; a subtable that does not read is
    /// kept as missing.
    pub fn read(lookup: &Lookup) -> (r: LookupTable<T>)
        requires
            Lookup::fits(lookup.bytes()),
        ensures
            r.lookup_type == be_u16(lookup.bytes(), 0),
            r.lookup_flag == be_u16(lookup.bytes(), 2),
            r.subtables@.len() == be_u16(lookup.bytes(), 4),
    {
        let n = lookup.subtable_count();
        let mut subtables: Vec<OffsetMarker<Offset16, T>> = Vec::new();
        let mut i: u16 = 0;
        while i < n
            invariant
                Lookup::fits(lookup.bytes()),
                n == be_u16(lookup.bytes(), 4),
                i <= n,
                subtables@.len() == i,
            decreases n - i,
        {
            let sub = match lookup.subtable_bytes(i) {
                Some(b) => T::read_owned(b),
                None => None,
            };
            subtables.push(OffsetMarker::new_maybe_null(sub));
            i = i + 1;
        }
        LookupTable { lookup_type: lookup.lookup_type(), lookup_flag: lookup.lookup_flag(), subtables }
    }
}

impl<T: Table> Table for LookupTable<T> {
    fn describe(&self, writer: &mut TableWriter) {
        writer.write(self.lookup_type);
        writer.write(self.lookup_flag);
        writer.write(count_u16(self.subtables.len()));
        let mut i: usize = 0;
        while i < self.subtables.len()
            invariant
                writer.wf(),
                writer.finished() >= old(writer).finished(),
                writer.keeps(*old(writer)),
            decreases self.subtables@.len() - i,
        {
            self.subtables[i].write_into(writer);
            i = i + 1;
        }
    }
}

impl<T: Subset> LookupTable<T> {
    /// Subsets every subtable and drops those the plan empties; the lookup
    /// is retained while a subtable is left. The first error is returned.
    pub fn subset_subtables(&mut self, plan: &Plan) -> (r: Result<bool, Error>)
        requires
            plan.wf(),
        ensures
            final(self).subtables@.len() <= old(self).subtables@.len(),
            r is Ok ==> exists|after: Seq<OffsetMarker<Offset16, T>>|
                {
                    &&& after.len() == old(self).subtables@.len()
                    &&& forall|i: int|
                        0 <= i < after.len() ==> OffsetMarker::<Offset16, T>::marker_post(
                            old(self).subtables@[i],
                            #[trigger] after[i],
                            *plan,
                            Ok::<bool, Error>(after[i].kept()),
                        )
                    &&& final(self).subtables@ == #[trigger] kept_items(after)
                },
            r matches Ok(keep) ==> keep == (final(self).subtables@.len() > 0),
            final(self).lookup_type == old(self).lookup_type,
            final(self).lookup_flag == old(self).lookup_flag,
    {
        let mut all: Vec<OffsetMarker<Offset16, T>> = Vec::new();
        std::mem::swap(&mut self.subtables, &mut all);
        let (kept, err) = subset_each(all, plan);
        self.subtables = kept;
        match err {
            Some(e) => Err(e),
            None => Ok(self.subtables.len() > 0),
        }
    }
}

impl<T: Subset> Subset for LookupTable<T> {
    open spec fn kept(&self) -> bool {
        self.subtables@.len() > 0
    }

    open spec fn subset_post(old: Self, new: Self, plan: Plan, r: Result<bool, Error>) -> bool {
        &&& new.subtables@.len() <= old.subtables@.len()
        &&& (r is Ok ==> exists|after: Seq<OffsetMarker<Offset16, T>>|
            {
                &&& after.len() == old.subtables@.len()
                &&& forall|i: int|
                    0 <= i < after.len() ==> OffsetMarker::<Offset16, T>::marker_post(
                        old.subtables@[i],
                        #[trigger] after[i],
                        plan,
                        Ok::<bool, Error>(after[i].kept()),
                    )
                &&& new.subtables@ == #[trigger] kept_items(after)
            })
        &&& (r matches Ok(keep) ==> keep == (new.subtables@.len() > 0))
        &&& new.lookup_type == old.lookup_type
        &&& new.lookup_flag == old.lookup_flag
    }

    fn subset(&mut self, plan: &Plan) -> (r: Result<bool, Error>) {
        self.subset_subtables(plan)
    }
}

/// The subtable an extension wraps, by the lookup type it gives.
pub enum ExtensionSubtable {
    Single(SinglePos),
    Pair(PairPos),
    Cursive(CursivePosFormat1),
    MarkToBase(MarkBasePosFormat1),
    MarkToLig(MarkLigPosFormat1),
    MarkToMark(MarkMarkPosFormat1),
    Contextual(SequenceContext),
    ChainContextual(ChainedSequenceContext),
}

impl Table for ExtensionSubtable {
    fn describe(&self, writer: &mut TableWriter) {
        match self {
            ExtensionSubtable::Single(t) => t.describe(writer),
            ExtensionSubtable::Pair(t) => t.describe(writer),
            ExtensionSubtable::Cursive(t) => t.describe(writer),
            ExtensionSubtable::MarkToBase(t) => t.describe(writer),
            ExtensionSubtable::MarkToLig(t) => t.describe(writer),
            ExtensionSubtable::MarkToMark(t) => t.describe(writer),
            ExtensionSubtable::Contextual(t) => t.describe(writer),
            ExtensionSubtable::ChainContextual(t) => t.describe(writer),
        }
    }
}

impl Subset for ExtensionSubtable {
    open spec fn kept(&self) -> bool {
        match self {
            ExtensionSubtable::Single(t) => t.kept(),
            ExtensionSubtable::Pair(t) => t.kept(),
            ExtensionSubtable::Cursive(t) => t.kept(),
            ExtensionSubtable::MarkToBase(t) => t.kept(),
            ExtensionSubtable::MarkToLig(t) => t.kept(),
            ExtensionSubtable::MarkToMark(t) => t.kept(),
            ExtensionSubtable::Contextual(t) => t.kept(),
            ExtensionSubtable::ChainContextual(t) => t.kept(),
        }
    }

    open spec fn subset_post(old: Self, new: Self, plan: Plan, r: Result<bool, Error>) -> bool {
        match old {
            ExtensionSubtable::Single(o) => (new matches ExtensionSubtable::Single(n) && <SinglePos as Subset>::subset_post(o, n, plan, r)),
            ExtensionSubtable::Pair(o) => (new matches ExtensionSubtable::Pair(n) && <PairPos as Subset>::subset_post(o, n, plan, r)),
            ExtensionSubtable::Cursive(o) => (new matches ExtensionSubtable::Cursive(n) && <CursivePosFormat1 as Subset>::subset_post(o, n, plan, r)),
            ExtensionSubtable::MarkToBase(o) => (new matches ExtensionSubtable::MarkToBase(n) && <MarkBasePosFormat1 as Subset>::subset_post(o, n, plan, r)),
            ExtensionSubtable::MarkToLig(o) => (new matches ExtensionSubtable::MarkToLig(n) && <MarkLigPosFormat1 as Subset>::subset_post(o, n, plan, r)),
            ExtensionSubtable::MarkToMark(o) => (new matches ExtensionSubtable::MarkToMark(n) && <MarkMarkPosFormat1 as Subset>::subset_post(o, n, plan, r)),
            ExtensionSubtable::Contextual(o) => (new matches ExtensionSubtable::Contextual(n) && <SequenceContext as Subset>::subset_post(o, n, plan, r)),
            ExtensionSubtable::ChainContextual(o) => (new matches ExtensionSubtable::ChainContextual(n) && <ChainedSequenceContext as Subset>::subset_post(o, n, plan, r)),
        }
    }

    fn subset(&mut self, plan: &Plan) -> (r: Result<bool, Error>) {
        match self {
            ExtensionSubtable::Single(t) => t.subset(plan),
            ExtensionSubtable::Pair(t) => t.subset(plan),
            ExtensionSubtable::Cursive(t) => t.subset(plan),
            ExtensionSubtable::MarkToBase(t) => t.subset(plan),
            ExtensionSubtable::MarkToLig(t) => t.subset(plan),
            ExtensionSubtable::MarkToMark(t) => t.subset(plan),
            ExtensionSubtable::Contextual(t) => t.subset(plan),
            ExtensionSubtable::ChainContextual(t) => t.subset(plan),
        }
    }
}

/// An extension subtable: the type of the lookup it stands for and a
/// 32-bit offset to a subtable of that type.
pub struct Extension {
    pub extension_lookup_type: u16,
    pub extension_offset: OffsetMarker<Offset32, ExtensionSubtable>,
}

/// The fixed part of an extension fits, its format is 1, it names a
/// lookup type this model holds, and its offset is set and inside.
pub open spec fn extension_header_ok(bytes: Seq<u8>) -> bool {
    &&& bytes.len() >= 8
    &&& be_u16(bytes, 0) == 1
    &&& 1 <= be_u16(bytes, 2) <= 8
    &&& be_value(bytes, 4, 4) != 0
    &&& be_value(bytes, 4, 4) <= bytes.len()
}

impl Extension {
    /// Reads the wrapped subtable by the lookup type the extension gives;
    /// `None` for a type not handled here or a subtable that does not read.
    pub fn read(bytes: &[u8]) -> (r: Option<Extension>)
        ensures
            r is Some ==> extension_header_ok(bytes@),
            r matches Some(e) ==> e.extension_lookup_type == be_u16(bytes@, 2) && 1
                <= e.extension_lookup_type <= 8 && e.extension_offset.obj() is Some,
            extension_header_ok(bytes@) && 4 <= be_u16(bytes@, 2) <= 6 ==> (r is Some <==> ({
                let sub = bytes@.subrange(be_value(bytes@, 4, 4) as int, bytes@.len() as int);
                sub.len() >= 12 && be_u16(sub, 0) == 1
            })),
            extension_header_ok(bytes@) && be_u16(bytes@, 2) == 1 ==> (r is Some <==> single_pos_ok(
                bytes@.subrange(be_value(bytes@, 4, 4) as int, bytes@.len() as int),
            )),
            extension_header_ok(bytes@) && be_u16(bytes@, 2) == 7 ==> (r is Some <==> context_ok(
                bytes@.subrange(be_value(bytes@, 4, 4) as int, bytes@.len() as int),
            )),
            extension_header_ok(bytes@) && be_u16(bytes@, 2) == 2 ==> ({
                let sub = bytes@.subrange(be_value(bytes@, 4, 4) as int, bytes@.len() as int);
                &&& (sub.len() >= 2 && be_u16(sub, 0) == 1 ==> (r is Some <==> pair_pos1_ok(sub)))
                &&& (sub.len() >= 2 && be_u16(sub, 0) != 1 && be_u16(sub, 0) != 2 ==> r is None)
            }),
            extension_header_ok(bytes@) && be_u16(bytes@, 2) == 8 ==> ({
                let sub = bytes@.subrange(be_value(bytes@, 4, 4) as int, bytes@.len() as int);
                &&& (sub.len() >= 2 && (be_u16(sub, 0) == 1 || be_u16(sub, 0) == 2) ==> (r is Some
                    <==> chained_context12_ok(sub)))
                &&& (sub.len() >= 2 && !(1 <= be_u16(sub, 0) <= 3) ==> r is None)
            }),
            extension_header_ok(bytes@) && be_u16(bytes@, 2) == 3 ==> (r is Some <==> ({
                let sub = bytes@.subrange(be_value(bytes@, 4, 4) as int, bytes@.len() as int);
                sub.len() >= 6 && be_u16(sub, 0) == 1 && sub.len() >= 6 + 4 * be_u16(sub, 4)
            })),
    {
        if bytes.len() < 8 || read_u16(bytes, 0) != Some(1u16) {
            return None;
        }
        let kind = read_u16(bytes, 2).unwrap();
        let off = read_u32(bytes, 4).unwrap() as usize;
        if off == 0 || off > bytes.len() {
            return None;
        }
        let data = &bytes[off..bytes.len()];
        let inner = match kind {
            1 => match SinglePos::read(data) {
                Some(t) => ExtensionSubtable::Single(t),
                None => return None,
            },
            2 => match PairPos::read(data) {
                Some(t) => ExtensionSubtable::Pair(t),
                None => return None,
            },
            3 => match CursivePosFormat1::read(data) {
                Some(t) => ExtensionSubtable::Cursive(t),
                None => return None,
            },
            4 => match MarkBasePosFormat1::read(data) {
                Some(t) => ExtensionSubtable::MarkToBase(t),
                None => return None,
            },
            5 => match MarkLigPosFormat1::read(data) {
                Some(t) => ExtensionSubtable::MarkToLig(t),
                None => return None,
            },
            6 => match MarkMarkPosFormat1::read(data) {
                Some(t) => ExtensionSubtable::MarkToMark(t),
                None => return None,
            },
            7 => match SequenceContext::read(data) {
                Some(t) => ExtensionSubtable::Contextual(t),
                None => return None,
            },
            8 => match ChainedSequenceContext::read(data) {
                Some(t) => ExtensionSubtable::ChainContextual(t),
                None => return None,
            },
            _ => return None,
        };
        Some(Extension { extension_lookup_type: kind, extension_offset: OffsetMarker::new(inner) })
    }
}

impl Table for Extension {
    fn describe(&self, writer: &mut TableWriter) {
        writer.write(1u16);
        writer.write(self.extension_lookup_type);
        self.extension_offset.write_into(writer);
    }
}

impl Subset for Extension {
    open spec fn kept(&self) -> bool {
        self.extension_offset.obj() is Some
    }

    open spec fn subset_post(old: Self, new: Self, plan: Plan, r: Result<bool, Error>) -> bool {
        &&& new.extension_lookup_type == old.extension_lookup_type
        &&& OffsetMarker::<Offset32, ExtensionSubtable>::marker_post(
            old.extension_offset,
            new.extension_offset,
            plan,
            r,
        )
    }

    fn subset(&mut self, plan: &Plan) -> (r: Result<bool, Error>) {
        self.extension_offset.subset(plan)
    }
}

/// An owned positioning lookup, by type; only the types with owned
/// subtables here.
pub enum PositionLookup {
    Single(LookupTable<SinglePos>),
    Pair(LookupTable<PairPos>),
    Cursive(LookupTable<CursivePosFormat1>),
    MarkToBase(LookupTable<MarkBasePosFormat1>),
    MarkToLig(LookupTable<MarkLigPosFormat1>),
    MarkToMark(LookupTable<MarkMarkPosFormat1>),
    Contextual(LookupTable<SequenceContext>),
    ChainContextual(LookupTable<ChainedSequenceContext>),
    Extension(LookupTable<Extension>),
}

impl PositionLookup {
    /// Reads a lookup of a handled type; `None` for another type or a lookup
    /// that does not fit.
    pub fn read(bytes: &[u8]) -> (r: Option<PositionLookup>)
        ensures
            r is Some <==> Lookup::fits(bytes@) && 1 <= be_u16(bytes@, 0) <= 9,
            r matches Some(PositionLookup::Single(_)) ==> be_u16(bytes@, 0) == 1,
            r matches Some(PositionLookup::Pair(_)) ==> be_u16(bytes@, 0) == 2,
            r matches Some(PositionLookup::Cursive(_)) ==> be_u16(bytes@, 0) == 3,
            r matches Some(PositionLookup::MarkToBase(_)) ==> be_u16(bytes@, 0) == 4,
            r matches Some(PositionLookup::MarkToLig(_)) ==> be_u16(bytes@, 0) == 5,
            r matches Some(PositionLookup::MarkToMark(_)) ==> be_u16(bytes@, 0) == 6,
            r matches Some(PositionLookup::Contextual(_)) ==> be_u16(bytes@, 0) == 7,
            r matches Some(PositionLookup::ChainContextual(_)) ==> be_u16(bytes@, 0) == 8,
            r matches Some(PositionLookup::Extension(_)) ==> be_u16(bytes@, 0) == 9,
    {
        let lookup = match Lookup::read(bytes) {
            Some(l) => l,
            None => return None,
        };
        match lookup.lookup_type() {
            1 => Some(PositionLookup::Single(LookupTable::read(&lookup))),
            2 => Some(PositionLookup::Pair(LookupTable::read(&lookup))),
            3 => Some(PositionLookup::Cursive(LookupTable::read(&lookup))),
            4 => Some(PositionLookup::MarkToBase(LookupTable::read(&lookup))),
            5 => Some(PositionLookup::MarkToLig(LookupTable::read(&lookup))),
            6 => Some(PositionLookup::MarkToMark(LookupTable::read(&lookup))),
            7 => Some(PositionLookup::Contextual(LookupTable::read(&lookup))),
            8 => Some(PositionLookup::ChainContextual(LookupTable::read(&lookup))),
            9 => Some(PositionLookup::Extension(LookupTable::read(&lookup))),
            _ => None,
        }
    }
}

impl Table for PositionLookup {
    fn describe(&self, writer: &mut TableWriter) {
        match self {
            PositionLookup::Single(l) => l.describe(writer),
            PositionLookup::Pair(l) => l.describe(writer),
            PositionLookup::Cursive(l) => l.describe(writer),
            PositionLookup::MarkToBase(l) => l.describe(writer),
            PositionLookup::MarkToLig(l) => l.describe(writer),
            PositionLookup::MarkToMark(l) => l.describe(writer),
            PositionLookup::Contextual(l) => l.describe(writer),
            PositionLookup::ChainContextual(l) => l.describe(writer),
            PositionLookup::Extension(l) => l.describe(writer),
        }
    }
}

impl Subset for PositionLookup {
    open spec fn kept(&self) -> bool {
        match self {
            PositionLookup::Single(l) => l.kept(),
            PositionLookup::Pair(l) => l.kept(),
            PositionLookup::Cursive(l) => l.kept(),
            PositionLookup::MarkToBase(l) => l.kept(),
            PositionLookup::MarkToLig(l) => l.kept(),
            PositionLookup::MarkToMark(l) => l.kept(),
            PositionLookup::Contextual(l) => l.kept(),
            PositionLookup::ChainContextual(l) => l.kept(),
            PositionLookup::Extension(l) => l.kept(),
        }
    }

    open spec fn subset_post(old: Self, new: Self, plan: Plan, r: Result<bool, Error>) -> bool {
        match old {
            PositionLookup::Single(o) => (new matches PositionLookup::Single(n) && <LookupTable<SinglePos> as Subset>::subset_post(o, n, plan, r)),
            PositionLookup::Pair(o) => (new matches PositionLookup::Pair(n) && <LookupTable<PairPos> as Subset>::subset_post(o, n, plan, r)),
            PositionLookup::Cursive(o) => (new matches PositionLookup::Cursive(n) && <LookupTable<CursivePosFormat1> as Subset>::subset_post(o, n, plan, r)),
            PositionLookup::MarkToBase(o) => (new matches PositionLookup::MarkToBase(n) && <LookupTable<MarkBasePosFormat1> as Subset>::subset_post(o, n, plan, r)),
            PositionLookup::MarkToLig(o) => (new matches PositionLookup::MarkToLig(n) && <LookupTable<MarkLigPosFormat1> as Subset>::subset_post(o, n, plan, r)),
            PositionLookup::MarkToMark(o) => (new matches PositionLookup::MarkToMark(n) && <LookupTable<MarkMarkPosFormat1> as Subset>::subset_post(o, n, plan, r)),
            PositionLookup::Contextual(o) => (new matches PositionLookup::Contextual(n) && <LookupTable<SequenceContext> as Subset>::subset_post(o, n, plan, r)),
            PositionLookup::ChainContextual(o) => (new matches PositionLookup::ChainContextual(n) && <LookupTable<ChainedSequenceContext> as Subset>::subset_post(o, n, plan, r)),
            PositionLookup::Extension(o) => (new matches PositionLookup::Extension(n) && <LookupTable<Extension> as Subset>::subset_post(o, n, plan, r)),
        }
    }

    fn subset(&mut self, plan: &Plan) -> (r: Result<bool, Error>) {
        match self {
            PositionLookup::Single(l) => l.subset(plan),
            PositionLookup::Pair(l) => l.subset(plan),
            PositionLookup::Cursive(l) => l.subset(plan),
            PositionLookup::MarkToBase(l) => l.subset(plan),
            PositionLookup::MarkToLig(l) => l.subset(plan),
            PositionLookup::MarkToMark(l) => l.subset(plan),
            PositionLookup::Contextual(l) => l.subset(plan),
            PositionLookup::ChainContextual(l) => l.subset(plan),
            PositionLookup::Extension(l) => l.subset(plan),
        }
    }
}

/// The owned lookup list.
pub struct PositionLookupList {
    pub lookup_offsets: Vec<OffsetMarker<Offset16, PositionLookup>>,
}

impl PositionLookupList {
    /// Reads every lookup of the list; `None` when the list does not fit or
    /// a lookup does not read as a handled type.
    pub fn read(bytes: &[u8]) -> (r: Option<PositionLookupList>)
        ensures
            r is Some <==> crate::layout::PositionLookupList::fits(bytes@) && forall|i: int|
                0 <= i < be_u16(bytes@, 0) ==> #[trigger] lookup_resolves(bytes@, i),
            r matches Some(l) ==> l.lookup_offsets@.len() == be_u16(bytes@, 0) && forall|i: int|
                0 <= i < l.lookup_offsets@.len() ==> (#[trigger] l.lookup_offsets@[i]).obj() is Some,
    {
        let count = match read_u16(bytes, 0) {
            Some(c) => c as usize,
            None => return None,
        };
        if bytes.len() < 2 + 2 * count {
            return None;
        }
        let mut lookups: Vec<OffsetMarker<Offset16, PositionLookup>> = Vec::new();
        let mut i: usize = 0;
        while i < count
            invariant
                count <= 0xFFFF,
                count == be_u16(bytes@, 0),
                bytes@.len() >= 2 + 2 * count,
                i <= count,
                lookups@.len() == i,
                forall|m: int| 0 <= m < i ==> #[trigger] lookup_resolves(bytes@, m),
                forall|m: int| 0 <= m < i ==> (#[trigger] lookups@[m]).obj() is Some,
            decreases count - i,
        {
            let off = read_u16(bytes, 2 + 2 * i).unwrap() as usize;
            if off == 0 || off > bytes.len() {
                assert(!lookup_resolves(bytes@, i as int));
                return None;
            }
            let lookup = match PositionLookup::read(&bytes[off..bytes.len()]) {
                Some(l) => l,
                None => {
                    assert(!lookup_resolves(bytes@, i as int));
                    return None;
                },
            };
            let ghost prev = lookups@;
            lookups.push(OffsetMarker::new(lookup));
            proof {
                assert(lookup_resolves(bytes@, i as int));
                assert forall|m: int| 0 <= m < i + 1 implies (#[trigger] lookups@[m]).obj() is Some by {
                    if m < i {
                        assert(lookups@[m] == prev[m]);
                    }
                }
            }
            i = i + 1;
        }
        Some(PositionLookupList { lookup_offsets: lookups })
    }

    /// Subsets every lookup and drops those the plan empties. The list
    /// itself is always retained; the first error is returned.
    pub fn subset_lookups(&mut self, plan: &Plan) -> (r: Result<bool, Error>)
        requires
            plan.wf(),
        ensures
            final(self).lookup_offsets@.len() <= old(self).lookup_offsets@.len(),
            r is Ok ==> r == Ok::<bool, Error>(true) && exists|after: Seq<OffsetMarker<Offset16, PositionLookup>>|
                {
                    &&& after.len() == old(self).lookup_offsets@.len()
                    &&& forall|i: int|
                        0 <= i < after.len() ==> OffsetMarker::<Offset16, PositionLookup>::marker_post(
                            old(self).lookup_offsets@[i],
                            #[trigger] after[i],
                            *plan,
                            Ok::<bool, Error>(after[i].kept()),
                        )
                    &&& final(self).lookup_offsets@ == #[trigger] kept_items(after)
                },
    {
        let mut all: Vec<OffsetMarker<Offset16, PositionLookup>> = Vec::new();
        std::mem::swap(&mut self.lookup_offsets, &mut all);
        let (kept, err) = subset_each(all, plan);
        self.lookup_offsets = kept;
        match err {
            Some(e) => Err(e),
            None => Ok(true),
        }
    }
}

impl Table for PositionLookupList {
    fn describe(&self, writer: &mut TableWriter) {
        writer.write(count_u16(self.lookup_offsets.len()));
        let mut i: usize = 0;
        while i < self.lookup_offsets.len()
            invariant
                writer.wf(),
                writer.finished() >= old(writer).finished(),
                writer.keeps(*old(writer)),
            decreases self.lookup_offsets@.len() - i,
        {
            self.lookup_offsets[i].write_into(writer);
            i = i + 1;
        }
    }
}

impl Subset for PositionLookupList {
    open spec fn kept(&self) -> bool {
        true
    }

    open spec fn subset_post(old: Self, new: Self, plan: Plan, r: Result<bool, Error>) -> bool {
        &&& new.lookup_offsets@.len() <= old.lookup_offsets@.len()
        &&& (r is Ok ==> r == Ok::<bool, Error>(true) && exists|after: Seq<OffsetMarker<Offset16, PositionLookup>>|
            {
                &&& after.len() == old.lookup_offsets@.len()
                &&& forall|i: int|
                    0 <= i < after.len() ==> OffsetMarker::<Offset16, PositionLookup>::marker_post(
                        old.lookup_offsets@[i],
                        #[trigger] after[i],
                        plan,
                        Ok::<bool, Error>(after[i].kept()),
                    )
                &&& new.lookup_offsets@ == #[trigger] kept_items(after)
            })
    }

    fn subset(&mut self, plan: &Plan) -> (r: Result<bool, Error>) {
        self.subset_lookups(plan)
    }
}

/// The header of a glyph positioning table, by version: 1.0 has the
/// script, feature and lookup list offsets, 1.1 adds feature variations.
pub enum Gpos<'a> {
    Gpos1_0(&'a [u8]),
    Gpos1_1(&'a [u8]),
}

impl<'a> FontRead<'a> for Gpos<'a> {
    open spec fn view_bytes(&self) -> Seq<u8> {
        match self {
            Gpos::Gpos1_0(b) => b@,
            Gpos::Gpos1_1(b) => b@,
        }
    }

    /// A known version whose header fits.
    open spec fn accepts(bytes: Seq<u8>) -> bool {
        &&& bytes.len() >= 10
        &&& be_u16(bytes, 0) == 1
        &&& (be_u16(bytes, 2) == 0 || (be_u16(bytes, 2) == 1 && bytes.len() >= 14))
    }

    fn read(bytes: &'a [u8]) -> (r: Option<Self>) {
        if bytes.len() < 10 {
            assert(!Self::accepts(bytes@));
            return None;
        }
        let major = read_u16(bytes, 0).unwrap();
        if major != 1 {
            return None;
        }
        let r = match read_u16(bytes, 2) {
            Some(0) => Some(Gpos::Gpos1_0(bytes)),
            Some(1) => if bytes.len() >= 14 {
                Some(Gpos::Gpos1_1(bytes))
            } else {
                None
            },
            _ => None,
        };
        assert(r matches Some(g) ==> g.view_bytes() == bytes@);
        r
    }
}

impl<'a> Gpos<'a> {
    pub open spec fn host_bytes(&self) -> Seq<u8> {
        match self {
            Gpos::Gpos1_0(b) => b@,
            Gpos::Gpos1_1(b) => b@,
        }
    }

    fn data(&self) -> (r: &'a [u8])
        ensures
            r@ == self.host_bytes(),
    {
        match self {
            Gpos::Gpos1_0(b) => b,
            Gpos::Gpos1_1(b) => b,
        }
    }

    /// The offset of the lookup list.
    pub fn lookup_list_offset(&self) -> (r: Offset16)
        requires
            self.host_bytes().len() >= 10,
        ensures
            r.0 == be_u16(self.host_bytes(), 8),
    {
        Offset16(read_u16(self.data(), 8).unwrap())
    }

    /// The bytes of the lookup list, when its offset is set and inside.
    pub fn lookup_list_bytes(&self) -> (r: Option<&'a [u8]>)
        requires
            self.host_bytes().len() >= 10,
        ensures
            be_u16(self.host_bytes(), 8) == 0 ==> r is None,
            r matches Some(b) ==> b@ == self.host_bytes().subrange(
                be_u16(self.host_bytes(), 8) as int,
                self.host_bytes().len() as int,
            ),
    {
        let data = self.data();
        let off = self.lookup_list_offset().0 as usize;
        if off == 0 || off > data.len() {
            return None;
        }
        Some(&data[off..data.len()])
    }
}

} // verus!
