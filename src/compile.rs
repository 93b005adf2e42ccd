//! Writing tables: a writer that serializes nested tables depth first into
//! an interning store, and the entry points that lay the result out.
use vstd::prelude::*;

use crate::graph::{
    dump, field_end, fits, graph_ok, order_ok, order_reached, placed, records_ok, DumpError, Graph, ObjectId, OffsetRecord,
    TableData,
};
use crate::offset::lemma_null_offset_absent;
use crate::scalar::{be_bytes, push_be, Offset, OffsetLen, Uint24};

verus! {

/// Two nodes with the same bytes and the same offset records.
pub open spec fn same_node(a: TableData, b: TableData) -> bool {
    a.bytes@ == b.bytes@ && a.offsets@ == b.offsets@
}

/// No two nodes are the same.
pub open spec fn nodes_distinct(nodes: Seq<TableData>) -> bool {
    forall|a: int, b: int|
        0 <= a < b < nodes.len() ==> !same_node(#[trigger] nodes[a], #[trigger] nodes[b])
}

/// Whether a node equal to `d` is stored.
pub open spec fn is_stored(nodes: Seq<TableData>, d: TableData) -> bool {
    exists|i: int| 0 <= i < nodes.len() && same_node(#[trigger] nodes[i], d)
}

/// The nodes after interning `d`: unchanged when an equal node is stored,
/// otherwise with `d` added at the end.
pub open spec fn interned(nodes: Seq<TableData>, d: TableData) -> Seq<TableData> {
    if is_stored(nodes, d) {
        nodes
    } else {
        nodes.push(d)
    }
}

/// The id `d` gets when interned: that of the equal stored node, otherwise
/// the next id.
pub open spec fn interned_id(nodes: Seq<TableData>, d: TableData) -> int {
    if is_stored(nodes, d) {
        choose|i: int| 0 <= i < nodes.len() && same_node(#[trigger] nodes[i], d)
    } else {
        nodes.len() as int
    }
}

/// Interning only ever adds a node at the end.
pub proof fn lemma_interned_prefix(nodes: Seq<TableData>, d: TableData)
    ensures
        interned(nodes, d).len() >= nodes.len(),
        forall|i: int| 0 <= i < nodes.len() ==> #[trigger] interned(nodes, d)[i] == nodes[i],
{
}

/// A frame can be interned into a store of `n` nodes.
pub open spec fn frame_ok(d: TableData, n: nat) -> bool {
    &&& records_ok(d.bytes@, d.offsets@)
    &&& forall|j: int| 0 <= j < d.offsets@.len() ==> (#[trigger] d.offsets@[j]).object.0 < n
}

/// A value with a fixed big-endian encoding.
pub trait FontWrite {
    spec fn encoded(&self) -> Seq<u8>;

    fn write_into(&self, out: &mut Vec<u8>)
        ensures
            final(out)@ == old(out)@ + self.encoded(),
    ;
}

impl FontWrite for u8 {
    open spec fn encoded(&self) -> Seq<u8> {
        seq![*self]
    }

    fn write_into(&self, out: &mut Vec<u8>) {
        out.push(*self);
        assert(out@ =~= old(out)@ + seq![*self]);
    }
}

impl FontWrite for u16 {
    open spec fn encoded(&self) -> Seq<u8> {
        be_bytes(*self as nat, 2)
    }

    fn write_into(&self, out: &mut Vec<u8>) {
        push_be(out, *self as u32, 2);
    }
}

impl FontWrite for i16 {
    open spec fn encoded(&self) -> Seq<u8> {
        be_bytes(*self as u16 as nat, 2)
    }

    fn write_into(&self, out: &mut Vec<u8>) {
        push_be(out, *self as u16 as u32, 2);
    }
}

impl FontWrite for u32 {
    open spec fn encoded(&self) -> Seq<u8> {
        be_bytes(*self as nat, 4)
    }

    fn write_into(&self, out: &mut Vec<u8>) {
        push_be(out, *self, 4);
    }
}

impl FontWrite for Uint24 {
    open spec fn encoded(&self) -> Seq<u8> {
        be_bytes(self.value(), 3)
    }

    fn write_into(&self, out: &mut Vec<u8>) {
        push_be(out, self.to_u32(), 3);
    }
}

impl TableData {
    pub fn new() -> (r: TableData)
        ensures
            r.bytes@ == Seq::<u8>::empty(),
            r.offsets@ == Seq::<OffsetRecord>::empty(),
    {
        TableData { bytes: Vec::new(), offsets: Vec::new() }
    }

    /// Records an offset to `object` at the current end of the bytes and
    /// writes a zero placeholder of the offset's width there.
    pub fn add_offset(&mut self, len: OffsetLen, object: ObjectId)
        requires
            records_ok(old(self).bytes@, old(self).offsets@),
        ensures
            records_ok(final(self).bytes@, final(self).offsets@),
            final(self).offsets@ == old(self).offsets@.push(
                OffsetRecord { pos: old(self).bytes@.len() as usize, len, object },
            ),
            final(self).bytes@ == old(self).bytes@ + be_bytes(0, len.spec_byte_len()),
    {
        let pos = self.bytes.len();
        self.offsets.push(OffsetRecord { pos, len, object });
        let width = len.byte_len();
        push_be(&mut self.bytes, 0, width);
        proof {
            crate::scalar::lemma_be_bytes_len(0, len.spec_byte_len());
            let o = self.offsets@;
            assert forall|j: int, m: int| 0 <= j < m < o.len() implies field_end(#[trigger] o[j])
                <= (#[trigger] o[m]).pos by {
                if m == o.len() - 1 {
                    assert(field_end(o[j]) <= old(self).bytes@.len());
                }
            }
        }
    }

    /// Appends raw bytes.
    pub fn write(&mut self, bytes: &[u8])
        requires
            records_ok(old(self).bytes@, old(self).offsets@),
        ensures
            records_ok(final(self).bytes@, final(self).offsets@),
            final(self).bytes@ == old(self).bytes@ + bytes@,
            final(self).offsets@ == old(self).offsets@,
    {
        let mut i: usize = 0;
        while i < bytes.len()
            invariant
                i <= bytes@.len(),
                self.offsets@ == old(self).offsets@,
                self.bytes@ == old(self).bytes@ + bytes@.subrange(0, i as int),
            decreases bytes@.len() - i,
        {
            self.bytes.push(bytes[i]);
            i = i + 1;
            assert(self.bytes@ =~= old(self).bytes@ + bytes@.subrange(0, i as int));
        }
        assert(bytes@.subrange(0, i as int) =~= bytes@);
    }

    /// Whether two nodes have the same bytes and the same offset records.
    pub fn same_as(&self, other: &TableData) -> (r: bool)
        ensures
            r == same_node(*self, *other),
    {
        if self.bytes.len() != other.bytes.len() || self.offsets.len() != other.offsets.len() {
            return false;
        }
        let mut i: usize = 0;
        while i < self.bytes.len()
            invariant
                self.bytes@.len() == other.bytes@.len(),
                i <= self.bytes@.len(),
                forall|m: int| 0 <= m < i ==> self.bytes@[m] == other.bytes@[m],
            decreases self.bytes@.len() - i,
        {
            if self.bytes[i] != other.bytes[i] {
                return false;
            }
            i = i + 1;
        }
        assert(self.bytes@ =~= other.bytes@);
        let mut j: usize = 0;
        while j < self.offsets.len()
            invariant
                self.offsets@.len() == other.offsets@.len(),
                self.bytes@ == other.bytes@,
                j <= self.offsets@.len(),
                forall|m: int| 0 <= m < j ==> self.offsets@[m] == other.offsets@[m],
            decreases self.offsets@.len() - j,
        {
            if self.offsets[j] != other.offsets[j] {
                return false;
            }
            j = j + 1;
        }
        assert(self.offsets@ =~= other.offsets@);
        true
    }
}

/// Finished nodes, each stored once: a node identical to one already
/// stored gets that node's id.
#[derive(Debug)]
pub struct ObjectStore {
    pub nodes: Vec<TableData>,
}

impl ObjectStore {
    /// Nodes are well formed, point only to earlier nodes, and are pairwise
    /// distinct.
    pub open spec fn wf(&self) -> bool {
        &&& graph_ok(self.nodes@)
        &&& forall|a: int, b: int|
            0 <= a < b < self.nodes@.len() ==> !same_node(
                #[trigger] self.nodes@[a],
                #[trigger] self.nodes@[b],
            )
    }

    pub fn new() -> (r: ObjectStore)
        ensures
            r.wf(),
            r.nodes@.len() == 0,
    {
        ObjectStore { nodes: Vec::new() }
    }

    /// Interns a node: returns the id of an identical node if there is one,
    /// otherwise stores it under the next id.
    pub fn add(&mut self, data: TableData) -> (id: ObjectId)
        requires
            old(self).wf(),
            frame_ok(data, old(self).nodes@.len()),
        ensures
            final(self).wf(),
            id.0 < final(self).nodes@.len(),
            same_node(final(self).nodes@[id.0 as int], data),
            (exists|i: int| 0 <= i < old(self).nodes@.len() && same_node(#[trigger] old(self).nodes@[i], data))
                ==> final(self).nodes@ == old(self).nodes@,
            !(exists|i: int| 0 <= i < old(self).nodes@.len() && same_node(#[trigger] old(self).nodes@[i], data))
                ==> final(self).nodes@ == old(self).nodes@.push(data) && id.0 == old(self).nodes@.len(),
            final(self).nodes@ == interned(old(self).nodes@, data),
            id.0 == interned_id(old(self).nodes@, data),
            nodes_distinct(final(self).nodes@),
    {
        let mut i: usize = 0;
        while i < self.nodes.len()
            invariant
                old(self).wf(),
                self.nodes@ == old(self).nodes@,
                i <= self.nodes@.len(),
                forall|m: int| 0 <= m < i ==> !same_node(#[trigger] self.nodes@[m], data),
            decreases self.nodes@.len() - i,
        {
            if self.nodes[i].same_as(&data) {
                proof {
                    assert(is_stored(self.nodes@, data));
                    let j = choose|j: int| 0 <= j < self.nodes@.len() && same_node(#[trigger] self.nodes@[j], data);
                    if j != i {
                        assert(same_node(self.nodes@[j], self.nodes@[i as int]));
                        if j < i {
                            assert(!same_node(self.nodes@[j], self.nodes@[i as int]));
                        } else {
                            assert(!same_node(self.nodes@[i as int], self.nodes@[j]));
                        }
                    }
                }
                return ObjectId(i);
            }
            i = i + 1;
        }
        let id = self.nodes.len();
        self.nodes.push(data);
        proof {
            let n = self.nodes@;
            assert forall|k: int| 0 <= k < n.len() implies {
                &&& records_ok((#[trigger] n[k]).bytes@, n[k].offsets@)
                &&& forall|j: int| 0 <= j < n[k].offsets@.len() ==> (#[trigger] n[k].offsets@[j]).object.0 < k
            } by {
                if k < id {
                    assert(n[k] == old(self).nodes@[k]);
                }
            }
            assert forall|a: int, b: int| 0 <= a < b < n.len() implies !same_node(
                #[trigger] n[a],
                #[trigger] n[b],
            ) by {
                if b == id {
                    assert(n[a] == old(self).nodes@[a]);
                } else {
                    assert(n[a] == old(self).nodes@[a] && n[b] == old(self).nodes@[b]);
                }
            }
        }
        ObjectId(id)
    }

    /// Hands the nodes over as a graph.
    pub fn into_graph(self) -> (g: Graph)
        requires
            self.wf(),
        ensures
            g.wf(),
            g.nodes@ == self.nodes@,
    {
        Graph { nodes: self.nodes }
    }
}

/// A table that can describe itself to a [`TableWriter`]: its fields in
/// declaration order, with each offset written through the writer so that
/// the subtable behind it is serialized first.
pub trait Table {
    fn describe(&self, writer: &mut TableWriter)
        requires
            old(writer).wf(),
        ensures
            final(writer).wf(),
            final(writer).finished() >= old(writer).finished(),
            final(writer).keeps(*old(writer)),
    ;
}

/// Serializes nested tables depth first: one frame per table being written,
/// finished tables interned in a store.
#[derive(Debug)]
pub struct TableWriter {
    /// Finished tables; identical tables share an id.
    tables: ObjectStore,
    /// Tables being written, innermost last.
    stack: Vec<TableData>,
    /// How many offsets that should have had a subtable were written null.
    missing: usize,
}

impl TableWriter {
    pub closed spec fn wf(&self) -> bool {
        &&& self.tables.wf()
        &&& self.stack@.len() >= 1
        &&& forall|i: int|
            0 <= i < self.stack@.len() ==> frame_ok(#[trigger] self.stack@[i], self.tables.nodes@.len())
    }

    /// The number of tables being written.
    pub closed spec fn depth(&self) -> nat {
        self.stack@.len()
    }

    /// The bytes written so far for the innermost table.
    pub closed spec fn current(&self) -> Seq<u8> {
        self.stack@.last().bytes@
    }

    /// The number of finished tables.
    pub closed spec fn finished(&self) -> nat {
        self.tables.nodes@.len()
    }

    /// The finished tables, by id.
    pub closed spec fn store(&self) -> Seq<TableData> {
        self.tables.nodes@
    }

    /// The tables being written, innermost last.
    pub closed spec fn frames(&self) -> Seq<TableData> {
        self.stack@
    }

    /// The innermost table being written.
    pub open spec fn top(&self) -> TableData {
        self.frames().last()
    }

    /// `self` is `before` with at most its innermost table written to and
    /// tables finished: the same depth, the tables below the innermost one
    /// unchanged, and every finished table still there under its id.
    pub open spec fn keeps(&self, before: TableWriter) -> bool {
        &&& self.depth() == before.depth()
        &&& forall|i: int| 0 <= i < before.depth() - 1 ==> #[trigger] self.frames()[i] == before.frames()[i]
        &&& self.store().len() >= before.store().len()
        &&& forall|i: int| 0 <= i < before.store().len() ==> #[trigger] self.store()[i] == before.store()[i]
        &&& self.finished() >= before.finished()
    }

    proof fn lemma_keeps(after: &TableWriter, before: &TableWriter)
        requires
            before.wf(),
            after.depth() == before.depth(),
            after.frames().drop_last() == before.frames().drop_last(),
            after.store() == before.store(),
        ensures
            after.keeps(*before),
    {
        assert forall|i: int| 0 <= i < before.depth() - 1 implies #[trigger] after.frames()[i] == before.frames()[i] by {
            assert(after.frames().drop_last()[i] == after.frames()[i]);
            assert(before.frames().drop_last()[i] == before.frames()[i]);
        }
    }

    /// Stored tables are pairwise distinct.
    pub proof fn lemma_store_distinct(&self)
        requires
            self.wf(),
        ensures
            nodes_distinct(self.store()),
            graph_ok(self.store()),
            self.frames().len() == self.depth(),
            self.depth() >= 1,
            self.top().bytes@ == self.current(),
            self.store().len() == self.finished(),
    {
    }

    /// Whether only the root table is open.
    pub fn depth_is_root(&self) -> (r: bool)
        ensures
            r == (self.depth() == 1),
    {
        self.stack.len() == 1
    }

    /// A writer with one empty frame, for the root table.
    pub fn new() -> (r: TableWriter)
        ensures
            r.wf(),
            r.depth() == 1,
            r.current() == Seq::<u8>::empty(),
            r.finished() == 0,
    {
        let mut stack: Vec<TableData> = Vec::new();
        stack.push(TableData::new());
        TableWriter { tables: ObjectStore::new(), stack, missing: 0 }
    }

    /// Takes the innermost frame out, leaving the others.
    fn take_top(&mut self) -> (top: TableData)
        requires
            old(self).wf(),
        ensures
            top == old(self).stack@.last(),
            final(self).stack@ == old(self).stack@.drop_last(),
            final(self).tables == old(self).tables,
            final(self).missing == old(self).missing,
    {
        let top = self.stack.pop();
        match top {
            Some(t) => t,
            None => TableData::new(),
        }
    }

    /// Appends the encoding of `item` to the innermost table.
    pub fn write<T: FontWrite>(&mut self, item: T)
        requires
            old(self).wf(),
        ensures
            final(self).wf(),
            final(self).depth() == old(self).depth(),
            final(self).finished() == old(self).finished(),
            final(self).current() == old(self).current() + item.encoded(),
            final(self).store() == old(self).store(),
            final(self).frames().drop_last() == old(self).frames().drop_last(),
            final(self).top().offsets@ == old(self).top().offsets@,
            final(self).keeps(*old(self)),
    {
        let mut top = self.take_top();
        let mut bytes: Vec<u8> = Vec::new();
        item.write_into(&mut bytes);
        top.write(bytes.as_slice());
        self.stack.push(top);
        proof {
            assert(self.stack@.last().bytes@ =~= old(self).current() + item.encoded());
            assert forall|i: int| 0 <= i < self.stack@.len() implies frame_ok(
                #[trigger] self.stack@[i],
                self.tables.nodes@.len(),
            ) by {
                if i < self.stack@.len() - 1 {
                    assert(self.stack@[i] == old(self).stack@[i]);
                }
            }
        }
        proof {
            assert(self.frames().drop_last() =~= old(self).frames().drop_last());
            Self::lemma_keeps(self, old(self));
        }
    }

    /// Writes a null offset: zeros of the field's width, and no record.
    pub fn write_null_offset(&mut self, len: OffsetLen)
        requires
            old(self).wf(),
        ensures
            final(self).wf(),
            final(self).depth() == old(self).depth(),
            final(self).finished() == old(self).finished(),
            final(self).current() == old(self).current() + be_bytes(0, len.spec_byte_len()),
            final(self).missing_count() == old(self).missing_count(),
            final(self).store() == old(self).store(),
            final(self).frames().drop_last() == old(self).frames().drop_last(),
            final(self).top().offsets@ == old(self).top().offsets@,
            final(self).keeps(*old(self)),
    {
        let mut top = self.take_top();
        let zeros = len.null_bytes();
        proof {
            crate::scalar::lemma_be_bytes_len(0, len.spec_byte_len());
            lemma_null_offset_absent(len.spec_byte_len(), zeros@);
            assert(zeros@ =~= be_bytes(0, len.spec_byte_len()));
        }
        top.write(zeros.as_slice());
        self.stack.push(top);
        proof {
            assert forall|i: int| 0 <= i < self.stack@.len() implies frame_ok(
                #[trigger] self.stack@[i],
                self.tables.nodes@.len(),
            ) by {
                if i < self.stack@.len() - 1 {
                    assert(self.stack@[i] == old(self).stack@[i]);
                }
            }
        }
        proof {
            assert(self.frames().drop_last() =~= old(self).frames().drop_last());
            Self::lemma_keeps(self, old(self));
        }
    }

    /// Writes a null offset where a subtable was expected but is missing,
    /// and counts it: such an offset is usually a mistake of the caller.
    pub fn write_missing_offset(&mut self, len: OffsetLen)
        requires
            old(self).wf(),
        ensures
            final(self).wf(),
            final(self).depth() == old(self).depth(),
            final(self).finished() == old(self).finished(),
            final(self).current() == old(self).current() + be_bytes(0, len.spec_byte_len()),
            final(self).missing_count() as int == (if old(self).missing_count() < usize::MAX {
                (old(self).missing_count() + 1) as int
            } else {
                old(self).missing_count() as int
            }),
            final(self).store() == old(self).store(),
            final(self).frames().drop_last() == old(self).frames().drop_last(),
            final(self).top().offsets@ == old(self).top().offsets@,
            final(self).keeps(*old(self)),
    {
        self.write_null_offset(len);
        if self.missing < usize::MAX {
            self.missing = self.missing + 1;
        }
        proof {
            assert(self.frames().drop_last() =~= old(self).frames().drop_last());
            Self::lemma_keeps(self, old(self));
        }
    }

    pub closed spec fn missing_count(&self) -> nat {
        self.missing as nat
    }

    /// How many expected subtables were missing and written as null
    /// offsets (saturating).
    pub fn missing_offsets(&self) -> (r: usize)
        ensures
            r == self.missing_count(),
    {
        self.missing
    }

    /// Writes an offset field pointing to a table that is already finished.
    pub fn write_offset_marker(&mut self, len: OffsetLen, object: ObjectId)
        requires
            old(self).wf(),
            object.0 < old(self).finished(),
        ensures
            final(self).wf(),
            final(self).depth() == old(self).depth(),
            final(self).finished() == old(self).finished(),
            final(self).current() == old(self).current() + be_bytes(0, len.spec_byte_len()),
            final(self).store() == old(self).store(),
            final(self).frames().drop_last() == old(self).frames().drop_last(),
            final(self).top().offsets@ == old(self).top().offsets@.push(
                OffsetRecord { pos: old(self).current().len() as usize, len, object },
            ),
            final(self).keeps(*old(self)),
    {
        let mut top = self.take_top();
        top.add_offset(len, object);
        self.stack.push(top);
        proof {
            assert forall|i: int| 0 <= i < self.stack@.len() implies frame_ok(
                #[trigger] self.stack@[i],
                self.tables.nodes@.len(),
            ) by {
                if i < self.stack@.len() - 1 {
                    assert(self.stack@[i] == old(self).stack@[i]);
                }
            }
        }
        proof {
            assert(self.frames().drop_last() =~= old(self).frames().drop_last());
            Self::lemma_keeps(self, old(self));
        }
    }

    /// Starts a new innermost table.
    pub fn begin_table(&mut self)
        requires
            old(self).wf(),
        ensures
            final(self).wf(),
            final(self).depth() == old(self).depth() + 1,
            final(self).finished() == old(self).finished(),
            final(self).current() == Seq::<u8>::empty(),
            final(self).store() == old(self).store(),
            final(self).frames().drop_last() == old(self).frames(),
    {
        self.stack.push(TableData::new());
        proof {
            assert forall|i: int| 0 <= i < self.stack@.len() implies frame_ok(
                #[trigger] self.stack@[i],
                self.tables.nodes@.len(),
            ) by {
                if i < self.stack@.len() - 1 {
                    assert(self.stack@[i] == old(self).stack@[i]);
                }
            }
        }
    }

    /// Finishes the innermost table, interns it, and writes an offset to it
    /// into the table that contains it. With only the root table open there
    /// is nothing to finish: the writer is left as it is and `None` returned.
    pub fn end_table(&mut self, len: OffsetLen) -> (r: Option<ObjectId>)
        requires
            old(self).wf(),
        ensures
            final(self).wf(),
            r is Some <==> old(self).depth() >= 2,
            r is Some ==> final(self).depth() == old(self).depth() - 1,
            r is None ==> final(self).depth() == old(self).depth() && final(self).current() == old(
                self,
            ).current(),
            r matches Some(id) ==> id.0 < final(self).finished(),
            final(self).finished() >= old(self).finished(),
            r is None ==> *final(self) == *old(self),
            r matches Some(id) ==> {
                &&& final(self).store() == interned(old(self).store(), old(self).top())
                &&& id.0 == interned_id(old(self).store(), old(self).top())
                &&& forall|i: int|
                    0 <= i < old(self).depth() - 2 ==> #[trigger] final(self).frames()[i] == old(self).frames()[i]
            },
    {
        if self.stack.len() < 2 {
            return None;
        }
        let done = self.take_top();
        let ghost store0 = self.tables.nodes@;
        let id = self.tables.add(done);
        let mut parent = self.take_top();
        proof {
            assert(old(self).stack@[old(self).stack@.len() - 2] == parent);
            assert forall|j: int| 0 <= j < parent.offsets@.len() implies (#[trigger] parent.offsets@[j]).object.0
                < self.tables.nodes@.len() by {}
        }
        parent.add_offset(len, id);
        self.stack.push(parent);
        proof {
            assert forall|i: int|
                0 <= i < old(self).depth() - 2 implies #[trigger] self.frames()[i] == old(self).frames()[i] by {
                assert(self.stack@[i] == old(self).stack@[i]);
            }
            assert forall|i: int| 0 <= i < self.stack@.len() implies frame_ok(
                #[trigger] self.stack@[i],
                self.tables.nodes@.len(),
            ) by {
                if i < self.stack@.len() - 1 {
                    assert(self.stack@[i] == old(self).stack@[i]);
                    assert(frame_ok(old(self).stack@[i], store0.len()));
                }
            }
        }
        Some(id)
    }

    /// Serializes `obj` as a subtable and writes an offset of width `W` to
    /// it into the current table.
    pub fn write_offset0<W: Offset, T: Table>(&mut self, obj: &T)
        requires
            old(self).wf(),
        ensures
            final(self).wf(),
            final(self).finished() >= old(self).finished(),
            final(self).keeps(*old(self)),
    {
        let ghost w0 = *self;
        self.begin_table();
        let ghost w1 = *self;
        obj.describe(self);
        let ghost w2 = *self;
        let _ = self.end_table(W::width());
        proof {
            lemma_interned_prefix(w2.store(), w2.top());
            assert forall|i: int| 0 <= i < w0.depth() - 1 implies #[trigger] self.frames()[i] == w0.frames()[i] by {
                assert(w1.frames()[i] == w1.frames().drop_last()[i]);
                assert(w2.frames()[i] == w1.frames()[i]);
            }
        }
    }

    /// Serializes `table` on its own and returns the id it was interned as.
    pub fn add_table<T: Table>(&mut self, table: &T) -> (r: Option<ObjectId>)
        requires
            old(self).wf(),
        ensures
            final(self).wf(),
            r is Some,
            r matches Some(id) ==> id.0 < final(self).finished(),
            final(self).finished() >= old(self).finished(),
            final(self).keeps(*old(self)),
            nodes_distinct(final(self).store()),
            exists|mid: Seq<TableData>, frame: TableData|
                {
                    &&& mid.len() >= old(self).store().len()
                    &&& forall|i: int| 0 <= i < old(self).store().len() ==> #[trigger] mid[i] == old(self).store()[i]
                    &&& final(self).store() == interned(mid, frame)
                    &&& r == Some(ObjectId(interned_id(mid, frame) as usize))
                },
    {
        let ghost w0 = *self;
        let depth = self.stack.len();
        self.begin_table();
        let ghost w1 = *self;
        table.describe(self);
        let ghost w2 = *self;
        if self.stack.len() - 1 != depth {
            proof {
                self.lemma_store_distinct();
            }
            return None;
        }
        let done = self.take_top();
        let id = self.tables.add(done);
        proof {
            assert forall|i: int| 0 <= i < self.stack@.len() implies frame_ok(
                #[trigger] self.stack@[i],
                self.tables.nodes@.len(),
            ) by {}
            lemma_interned_prefix(w2.store(), w2.top());
            assert forall|i: int| 0 <= i < w0.depth() - 1 implies #[trigger] self.frames()[i] == w0.frames()[i] by {
                assert(w1.frames()[i] == w1.frames().drop_last()[i]);
                assert(w2.frames()[i] == w1.frames()[i]);
                assert(self.frames()[i] == w2.frames()[i]);
            }
            assert(w2.top() == done);
            assert(w2.store().len() >= w0.store().len());
        }
        Some(id)
    }

    /// Finishes the innermost table as the root and returns its id with the
    /// graph of every table interned.
    pub fn finish(self) -> (r: (ObjectId, Graph))
        requires
            self.wf(),
        ensures
            r.1.wf(),
            r.0.0 < r.1.nodes@.len(),
            r.1.nodes@ == interned(self.store(), self.top()),
            r.0.0 == interned_id(self.store(), self.top()),
            same_node(r.1.nodes@[r.0.0 as int], self.top()),
            nodes_distinct(r.1.nodes@),
    {
        let mut this = self;
        let top = this.take_top();
        let id = this.tables.add(top);
        (id, this.tables.into_graph())
    }

    /// Finishes the root table and lays the graph out.
    pub fn dump(self) -> (r: Result<Vec<u8>, DumpError>)
        requires
            self.wf(),
        ensures
            ({
                let g = interned(self.store(), self.top());
                &&& graph_ok(g)
                &&& nodes_distinct(g)
                &&& same_node(g[interned_id(self.store(), self.top())], self.top())
                &&& exists|order: Seq<usize>, index: Seq<usize>|
                    {
                        &&& order_ok(g, order, index)
                        &&& order_reached(g, order)
                        &&& order[0] == interned_id(self.store(), self.top())
                        &&& (r is Ok <==> fits(g, order, index))
                        &&& (r matches Ok(out) ==> placed(out@, g, order, index))
                    }
            }),
    {
        let (root, graph) = self.finish();
        dump(&graph, root)
    }
}

impl Default for TableWriter {
    /// A writer with one empty frame, for the root table.
    fn default() -> (r: TableWriter)
        ensures
            r.wf(),
            r.depth() == 1,
            r.current() == Seq::<u8>::empty(),
            r.finished() == 0,
    {
        TableWriter::new()
    }
}

/// The writer `w` is what describing a table leaves in a fresh writer:
/// only the root table open, and the tables finished on the way stored.
pub open spec fn described(w: TableWriter) -> bool {
    &&& w.wf()
    &&& w.depth() == 1
}

/// Serializes a table and everything it references into one buffer: the
/// table describes itself to a fresh writer, its root frame is interned
/// after the subtables it referenced, and that graph is laid out from the
/// root.
pub fn dump_table<T: Table>(table: &T) -> (r: Result<Vec<u8>, DumpError>)
    ensures
        exists|w: TableWriter|
            {
                let g = interned(w.store(), w.top());
                let root = interned_id(w.store(), w.top());
                &&& #[trigger] described(w)
                &&& graph_ok(g)
                &&& nodes_distinct(g)
                &&& same_node(g[root], w.top())
                &&& exists|order: Seq<usize>, index: Seq<usize>|
                    {
                        &&& order_ok(g, order, index)
                        &&& order_reached(g, order)
                        &&& order[0] == root
                        &&& (r is Ok <==> fits(g, order, index))
                        &&& (r matches Ok(out) ==> placed(out@, g, order, index))
                    }
            },
{
    let mut writer = TableWriter::new();
    table.describe(&mut writer);
    let ghost w = writer;
    let r = writer.dump();
    assert(described(w));
    r
}

} // verus!
