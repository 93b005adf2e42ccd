//! The object graph of serialized tables: interning of identical nodes,
//! layout in dependency order, and patching of relative offsets.
use vstd::prelude::*;

use crate::scalar::{be_value, lemma_be_value_window, lemma_pow256_values, pow256, OffsetLen};

verus! {

/// The identity of a finished node in one graph.
#[derive(Clone, Copy, Debug, PartialEq, Eq, Structural)]
pub struct ObjectId(pub usize);

/// The position and width of an offset field inside a node, and the node it
/// points to.
#[derive(Clone, Copy, Debug, PartialEq, Eq, Structural)]
pub struct OffsetRecord {
    /// Where the field starts within the containing node's bytes.
    pub pos: usize,
    /// The width of the field.
    pub len: OffsetLen,
    /// The node the offset points to.
    pub object: ObjectId,
}

/// The encoded bytes of one table, with a placeholder of zeros where each
/// offset goes, and the records of those offsets.
#[derive(Debug)]
pub struct TableData {
    pub bytes: Vec<u8>,
    pub offsets: Vec<OffsetRecord>,
}

/// Why a graph could not be written out.
#[derive(Clone, Copy, Debug, PartialEq, Eq, Structural)]
pub enum DumpError {
    /// A relative offset does not fit the width of its field.
    OffsetOverflow,
    /// The laid-out bytes would not fit in memory.
    TooLarge,
}

pub open spec fn field_end(r: OffsetRecord) -> int {
    r.pos + r.len.spec_byte_len()
}

/// Offset fields lie inside the bytes, in increasing order, without overlap.
pub open spec fn records_ok(bytes: Seq<u8>, offsets: Seq<OffsetRecord>) -> bool {
    &&& forall|j: int| 0 <= j < offsets.len() ==> field_end(#[trigger] offsets[j]) <= bytes.len()
    &&& forall|j: int, m: int|
        0 <= j < m < offsets.len() ==> field_end(#[trigger] offsets[j]) <= (#[trigger] offsets[m]).pos
}

/// Whether byte `i` of a node lies inside one of its offset fields.
pub open spec fn in_field(offsets: Seq<OffsetRecord>, i: int) -> bool {
    exists|j: int| 0 <= j < offsets.len() && (#[trigger] offsets[j]).pos <= i < field_end(offsets[j])
}

/// Every node is well formed and offsets only point to earlier nodes, so the
/// order of ids is an order of dependencies.
pub open spec fn graph_ok(nodes: Seq<TableData>) -> bool {
    forall|k: int|
        0 <= k < nodes.len() ==> {
            &&& records_ok((#[trigger] nodes[k]).bytes@, nodes[k].offsets@)
            &&& forall|j: int|
                0 <= j < nodes[k].offsets@.len() ==> (#[trigger] nodes[k].offsets@[j]).object.0 < k
        }
}

/// A layout order: distinct node ids, the position of each given by
/// `index`, where every node referenced from a node of the order comes later
/// in it.
pub open spec fn order_ok(nodes: Seq<TableData>, order: Seq<usize>, index: Seq<usize>) -> bool {
    &&& order.len() >= 1
    &&& index.len() == nodes.len()
    &&& forall|p: int|
        0 <= p < order.len() ==> (#[trigger] order[p]) < nodes.len() && index[order[p] as int] == p
    &&& forall|p: int, j: int|
        0 <= p < order.len() && 0 <= j < nodes[order[p] as int].offsets@.len() ==> {
            let t = (#[trigger] nodes[order[p] as int].offsets@[j]).object.0 as int;
            &&& 0 <= t < nodes.len()
            &&& p < index[t] < order.len()
            &&& order[index[t] as int] == t
        }
}

/// Where the node at position `p` of the order starts when the nodes are
/// laid out one after another; `start_at(.., order.len())` is the total.
pub open spec fn start_at(nodes: Seq<TableData>, order: Seq<usize>, p: int) -> int
    decreases p,
{
    if p <= 0 {
        0
    } else {
        start_at(nodes, order, p - 1) + nodes[order[p - 1] as int].bytes@.len()
    }
}

/// The relative value of offset `j` of the node at position `p`.
pub open spec fn rel_at(
    nodes: Seq<TableData>,
    order: Seq<usize>,
    index: Seq<usize>,
    p: int,
    j: int,
) -> int {
    start_at(nodes, order, index[nodes[order[p] as int].offsets@[j].object.0 as int] as int)
        - start_at(nodes, order, p)
}

/// The layout fits in memory and every relative offset fits its field.
pub open spec fn fits(nodes: Seq<TableData>, order: Seq<usize>, index: Seq<usize>) -> bool {
    &&& start_at(nodes, order, order.len() as int) <= usize::MAX
    &&& forall|p: int, j: int|
        0 <= p < order.len() && 0 <= j < nodes[order[p] as int].offsets@.len() ==> rel_at(
            nodes,
            order,
            index,
            p,
            j,
        ) < pow256((#[trigger] nodes[order[p] as int].offsets@[j]).len.spec_byte_len())
}

/// The bytes of a node outside its offset fields stand at `base`.
pub open spec fn bytes_placed(out: Seq<u8>, base: int, d: TableData) -> bool {
    &&& base + d.bytes@.len() <= out.len()
    &&& forall|i: int|
        0 <= i < d.bytes@.len() && !in_field(d.offsets@, i) ==> out[base + i] == #[trigger] d.bytes@[i]
}

/// Each offset field of the node at position `p`, placed at `base`, holds
/// its relative value.
pub open spec fn fields_placed(
    out: Seq<u8>,
    base: int,
    nodes: Seq<TableData>,
    order: Seq<usize>,
    index: Seq<usize>,
    p: int,
) -> bool {
    forall|j: int|
        0 <= j < nodes[order[p] as int].offsets@.len() ==> be_value(
            out,
            base + (#[trigger] nodes[order[p] as int].offsets@[j]).pos,
            nodes[order[p] as int].offsets@[j].len.spec_byte_len(),
        ) == rel_at(nodes, order, index, p, j)
}

/// `out` is the nodes of the order laid out one after another, offsets
/// patched.
pub open spec fn placed(out: Seq<u8>, nodes: Seq<TableData>, order: Seq<usize>, index: Seq<usize>) -> bool {
    &&& out.len() == start_at(nodes, order, order.len() as int)
    &&& forall|p: int|
        0 <= p < order.len() ==> bytes_placed(out, #[trigger] start_at(nodes, order, p), nodes[order[p] as int])
            && fields_placed(out, start_at(nodes, order, p), nodes, order, index, p)
}

/// Node `k`, read from `out` at `base`: its bytes outside the offset fields
/// are its own, and each offset field holds a non-zero displacement at which
/// the target node reads back in the same way.
pub open spec fn decodes_at(out: Seq<u8>, base: int, nodes: Seq<TableData>, k: int) -> bool
    decreases k, 0int,
{
    &&& 0 <= base
    &&& bytes_placed(out, base, nodes[k])
    &&& forall|j: int|
        0 <= j < nodes[k].offsets@.len() ==> {
            let r = #[trigger] nodes[k].offsets@[j];
            let d = be_value(out, base + r.pos, r.len.spec_byte_len());
            &&& d > 0
            &&& (0 <= r.object.0 < k ==> decodes_at(out, base + d, nodes, r.object.0 as int))
        }
}

/// Earlier positions come first: the node at `a` ends before `b` starts.
pub proof fn lemma_start_order(nodes: Seq<TableData>, order: Seq<usize>, a: int, b: int)
    requires
        0 <= a < b,
    ensures
        start_at(nodes, order, a) + nodes[order[a] as int].bytes@.len() <= start_at(nodes, order, b),
        start_at(nodes, order, a) >= 0,
    decreases b - a,
{
    lemma_start_nonneg(nodes, order, a);
    if a + 1 < b {
        lemma_start_order(nodes, order, a, b - 1);
        lemma_start_nonneg(nodes, order, b - 1);
    }
}

pub proof fn lemma_start_nonneg(nodes: Seq<TableData>, order: Seq<usize>, p: int)
    ensures
        start_at(nodes, order, p) >= 0,
    decreases p,
{
    if p > 0 {
        lemma_start_nonneg(nodes, order, p - 1);
    }
}

/// What is placed at `base` stays placed when only bytes outside
/// `[base, base + len)` change.
proof fn lemma_placed_frame(
    out: Seq<u8>,
    out2: Seq<u8>,
    base: int,
    nodes: Seq<TableData>,
    order: Seq<usize>,
    index: Seq<usize>,
    p: int,
)
    requires
        0 <= order[p] < nodes.len(),
        records_ok(nodes[order[p] as int].bytes@, nodes[order[p] as int].offsets@),
        bytes_placed(out, base, nodes[order[p] as int]),
        fields_placed(out, base, nodes, order, index, p),
        base >= 0,
        out2.len() >= base + nodes[order[p] as int].bytes@.len(),
        forall|i: int| base <= i < base + nodes[order[p] as int].bytes@.len() ==> out2[i] == out[i],
    ensures
        bytes_placed(out2, base, nodes[order[p] as int]),
        fields_placed(out2, base, nodes, order, index, p),
{
    let d = nodes[order[p] as int];
    assert forall|i: int| 0 <= i < d.bytes@.len() && !in_field(d.offsets@, i) implies out2[base + i]
        == #[trigger] d.bytes@[i] by {
        assert(out2[base + i] == out[base + i]);
    }
    assert forall|j: int| 0 <= j < d.offsets@.len() implies be_value(
        out2,
        base + (#[trigger] d.offsets@[j]).pos,
        d.offsets@[j].len.spec_byte_len(),
    ) == rel_at(nodes, order, index, p, j) by {
        let r = d.offsets@[j];
        let q = base + r.pos;
        assert(field_end(r) <= d.bytes@.len());
        assert forall|m: int| 0 <= m < r.len.spec_byte_len() implies #[trigger] out2[q + m] == out[q
            + m] by {}
        lemma_be_value_window(out2, q, out, q, r.len.spec_byte_len());
    }
}

/// Every placed layout reads back from the start of each node: its own
/// bytes, and through each offset the node it points to. Every field that
/// points at one id holds the displacement of the one copy of that node, so
/// identical subtables, which share an id, are written once.
pub proof fn lemma_layout_decodes(
    out: Seq<u8>,
    nodes: Seq<TableData>,
    order: Seq<usize>,
    index: Seq<usize>,
    p: int,
)
    requires
        graph_ok(nodes),
        order_ok(nodes, order, index),
        0 <= p < order.len(),
        placed(out, nodes, order, index),
    ensures
        decodes_at(out, start_at(nodes, order, p), nodes, order[p] as int),
        forall|j: int|
            0 <= j < nodes[order[p] as int].offsets@.len() ==> start_at(nodes, order, p) + be_value(
                out,
                start_at(nodes, order, p) + (#[trigger] nodes[order[p] as int].offsets@[j]).pos,
                nodes[order[p] as int].offsets@[j].len.spec_byte_len(),
            ) == start_at(
                nodes,
                order,
                index[nodes[order[p] as int].offsets@[j].object.0 as int] as int,
            ),
    decreases order[p],
{
    let base = start_at(nodes, order, p);
    let k = order[p] as int;
    lemma_start_nonneg(nodes, order, p);
    assert(bytes_placed(out, base, nodes[k]) && fields_placed(out, base, nodes, order, index, p));
    assert(records_ok(nodes[k].bytes@, nodes[k].offsets@));
    assert forall|j: int| 0 <= j < nodes[k].offsets@.len() implies {
        let r = #[trigger] nodes[k].offsets@[j];
        let d = be_value(out, base + r.pos, r.len.spec_byte_len());
        &&& d > 0
        &&& (0 <= r.object.0 < k ==> decodes_at(out, base + d, nodes, r.object.0 as int))
        &&& base + d == start_at(nodes, order, index[r.object.0 as int] as int)
    } by {
        let r = nodes[k].offsets@[j];
        let t = r.object.0 as int;
        let q = index[t] as int;
        assert(nodes[order[p] as int].offsets@[j] == r);
        assert(t < k);
        assert(p < q < order.len() && order[q] == t);
        lemma_start_order(nodes, order, p, q);
        assert(field_end(r) <= nodes[k].bytes@.len());
        lemma_layout_decodes(out, nodes, order, index, q);
    }
}

/// Two offset fields that point at the same node, anywhere in a placed
/// layout, lead to the same address: the node is written once.
pub proof fn lemma_shared_target(
    out: Seq<u8>,
    nodes: Seq<TableData>,
    order: Seq<usize>,
    index: Seq<usize>,
    pa: int,
    ja: int,
    pb: int,
    jb: int,
)
    requires
        graph_ok(nodes),
        order_ok(nodes, order, index),
        placed(out, nodes, order, index),
        0 <= pa < order.len(),
        0 <= pb < order.len(),
        0 <= ja < nodes[order[pa] as int].offsets@.len(),
        0 <= jb < nodes[order[pb] as int].offsets@.len(),
        nodes[order[pa] as int].offsets@[ja].object == nodes[order[pb] as int].offsets@[jb].object,
    ensures
        start_at(nodes, order, pa) + be_value(
            out,
            start_at(nodes, order, pa) + nodes[order[pa] as int].offsets@[ja].pos,
            nodes[order[pa] as int].offsets@[ja].len.spec_byte_len(),
        ) == start_at(nodes, order, pb) + be_value(
            out,
            start_at(nodes, order, pb) + nodes[order[pb] as int].offsets@[jb].pos,
            nodes[order[pb] as int].offsets@[jb].len.spec_byte_len(),
        ),
{
    lemma_layout_decodes(out, nodes, order, index, pa);
    lemma_layout_decodes(out, nodes, order, index, pb);
}

/// Overwrites `out[at .. at + width]` with the big-endian bytes of `v`.
fn set_be(out: &mut Vec<u8>, at: usize, v: u32, width: usize)
    requires
        width <= 4,
        at + width <= old(out)@.len(),
        (v as nat) < pow256(width as nat),
    ensures
        final(out)@.len() == old(out)@.len(),
        forall|i: int|
            0 <= i < old(out)@.len() && !(at <= i < at + width) ==> #[trigger] final(out)@[i] == old(out)@[i],
        be_value(final(out)@, at as int, width as nat) == v,
    decreases width,
{
    if width > 0 {
        let size = out.len();
        assert(at + width <= size);
        let last = at + (width - 1);
        out.set(last, (v % 256) as u8);
        let ghost mid = out@;
        assert(((v / 256) as nat) < pow256((width - 1) as nat)) by (nonlinear_arith)
            requires
                (v as nat) < 256 * pow256((width - 1) as nat),
        ;
        set_be(out, at, v / 256, width - 1);
        assert(out@[last as int] == mid[last as int]);
        assert(v == (v / 256) * 256 + v % 256) by (nonlinear_arith);
    }
}

/// Writes a resolved relative offset into the field at `at`, or fails when
/// the value does not fit the field's width.
pub fn write_offset(out: &mut Vec<u8>, at: usize, len: OffsetLen, resolved: usize) -> (r: Result<
    (),
    DumpError,
>)
    requires
        at + len.spec_byte_len() <= old(out)@.len(),
    ensures
        r is Ok <==> (resolved as nat) < pow256(len.spec_byte_len()),
        r is Err ==> r == Err::<(), DumpError>(DumpError::OffsetOverflow) && final(out)@ == old(out)@,
        final(out)@.len() == old(out)@.len(),
        forall|i: int|
            0 <= i < old(out)@.len() && !(at <= i < at + len.spec_byte_len()) ==> #[trigger] final(out)@[i] == old(out)@[i],
        r is Ok ==> be_value(final(out)@, at as int, len.spec_byte_len()) == resolved,
{
    proof {
        lemma_pow256_values();
    }
    let width = len.byte_len();
    let max: usize = match len {
        OffsetLen::Offset16 => 0xFFFF,
        OffsetLen::Offset24 => 0xFF_FFFF,
        OffsetLen::Offset32 => 0xFFFF_FFFF,
    };
    if resolved > max {
        return Err(DumpError::OffsetOverflow);
    }
    set_be(out, at, resolved as u32, width);
    Ok(())
}

/// A finished graph: nodes indexed by their [`ObjectId`].
#[derive(Debug)]
pub struct Graph {
    pub nodes: Vec<TableData>,
}

impl Graph {
    pub open spec fn wf(&self) -> bool {
        graph_ok(self.nodes@)
    }

    /// The node with the given id, if there is one.
    pub fn get_node(&self, id: ObjectId) -> (r: Option<&TableData>)
        ensures
            r == (if id.0 < self.nodes@.len() {
                Some(&self.nodes@[id.0 as int])
            } else {
                None::<&TableData>
            }),
    {
        if id.0 < self.nodes.len() {
            Some(&self.nodes[id.0])
        } else {
            None
        }
    }
}

/// The start of the node at each position of the order, and the total
/// length; `None` when the total does not fit a `usize`.
fn layout_starts(nodes: &Vec<TableData>, order: &Vec<usize>) -> (r: Option<(Vec<usize>, usize)>)
    requires
        forall|p: int| 0 <= p < order@.len() ==> (#[trigger] order@[p]) < nodes@.len(),
    ensures
        r is Some <==> start_at(nodes@, order@, order@.len() as int) <= usize::MAX,
        r matches Some((starts, total)) ==> {
            &&& starts@.len() == order@.len()
            &&& total == start_at(nodes@, order@, order@.len() as int)
            &&& forall|p: int| 0 <= p < order@.len() ==> #[trigger] starts@[p] == start_at(nodes@, order@, p)
        },
{
    let mut starts: Vec<usize> = Vec::new();
    let mut acc: usize = 0;
    let mut p: usize = 0;
    while p < order.len()
        invariant
            forall|q: int| 0 <= q < order@.len() ==> (#[trigger] order@[q]) < nodes@.len(),
            p <= order@.len(),
            starts@.len() == p,
            acc == start_at(nodes@, order@, p as int),
            forall|q: int| 0 <= q < p ==> #[trigger] starts@[q] == start_at(nodes@, order@, q),
        decreases order@.len() - p,
    {
        starts.push(acc);
        let l = nodes[order[p]].bytes.len();
        if acc > usize::MAX - l {
            proof {
                assert(start_at(nodes@, order@, p + 1) == acc + l);
                if p + 1 < order@.len() {
                    lemma_start_order(nodes@, order@, p as int, order@.len() as int);
                    lemma_start_nonneg(nodes@, order@, p + 1);
                    assert(start_at(nodes@, order@, order@.len() as int) >= start_at(nodes@, order@, p + 1)) by {
                        lemma_start_mono(nodes@, order@, p + 1, order@.len() as int);
                    }
                }
            }
            return None;
        }
        acc = acc + l;
        p = p + 1;
    }
    Some((starts, acc))
}

proof fn lemma_start_mono(nodes: Seq<TableData>, order: Seq<usize>, a: int, b: int)
    requires
        0 <= a <= b,
    ensures
        start_at(nodes, order, a) <= start_at(nodes, order, b),
    decreases b - a,
{
    if a < b {
        lemma_start_mono(nodes, order, a, b - 1);
    }
}

/// Appends `bytes` to `out`.
fn append_bytes(out: &mut Vec<u8>, bytes: &Vec<u8>)
    ensures
        final(out)@ == old(out)@ + bytes@,
{
    let mut i: usize = 0;
    while i < bytes.len()
        invariant
            i <= bytes@.len(),
            out@ == old(out)@ + bytes@.subrange(0, i as int),
        decreases bytes@.len() - i,
    {
        out.push(bytes[i]);
        i = i + 1;
        assert(out@ =~= old(out)@ + bytes@.subrange(0, i as int));
    }
    assert(bytes@.subrange(0, i as int) =~= bytes@);
}

/// Lays out the nodes of `order` one after another and patches every
/// offset field with the distance from the start of its node to the start of
/// its target, which comes later. Fails when the layout does not fit in
/// memory or a relative offset does not fit its field.
pub fn dump_in_order(graph: &Graph, order: &Vec<usize>, index: &Vec<usize>) -> (r: Result<Vec<u8>, DumpError>)
    requires
        graph.wf(),
        order_ok(graph.nodes@, order@, index@),
    ensures
        r is Ok <==> fits(graph.nodes@, order@, index@),
        r matches Ok(out) ==> placed(out@, graph.nodes@, order@, index@),
        r == Err::<Vec<u8>, DumpError>(DumpError::TooLarge) <==> start_at(
            graph.nodes@,
            order@,
            order@.len() as int,
        ) > usize::MAX,
        r is Err ==> r == Err::<Vec<u8>, DumpError>(DumpError::TooLarge) || r == Err::<Vec<u8>, DumpError>(
            DumpError::OffsetOverflow,
        ),
{
    let ghost nodes = graph.nodes@;
    let starts = match layout_starts(&graph.nodes, order) {
        Some((starts, _)) => starts,
        None => return Err(DumpError::TooLarge),
    };
    let mut out: Vec<u8> = Vec::new();
    let mut p: usize = 0;
    while p < order.len()
        invariant
            graph_ok(nodes),
            nodes == graph.nodes@,
            order_ok(nodes, order@, index@),
            p <= order@.len(),
            starts@.len() == order@.len(),
            start_at(nodes, order@, order@.len() as int) <= usize::MAX,
            forall|q: int| 0 <= q < order@.len() ==> #[trigger] starts@[q] == start_at(nodes, order@, q),
            out@.len() == start_at(nodes, order@, p as int),
            forall|q: int|
                0 <= q < p ==> bytes_placed(out@, #[trigger] start_at(nodes, order@, q), nodes[order@[q] as int])
                    && fields_placed(out@, start_at(nodes, order@, q), nodes, order@, index@, q),
            forall|q: int, j: int|
                0 <= q < p && 0 <= j < nodes[order@[q] as int].offsets@.len() ==> rel_at(
                    nodes,
                    order@,
                    index@,
                    q,
                    j,
                ) < pow256((#[trigger] nodes[order@[q] as int].offsets@[j]).len.spec_byte_len()),
        decreases order@.len() - p,
    {
        let k = order[p];
        let node = &graph.nodes[k];
        let base = out.len();
        let ghost out0 = out@;
        proof {
            lemma_start_nonneg(nodes, order@, p as int);
        }
        append_bytes(&mut out, &node.bytes);
        let ghost before = out@;
        assert(records_ok(nodes[k as int].bytes@, nodes[k as int].offsets@));
        let mut j: usize = 0;
        while j < node.offsets.len()
            invariant
                graph_ok(nodes),
                nodes == graph.nodes@,
                order_ok(nodes, order@, index@),
                p < order@.len(),
                k == order@[p as int],
                *node == nodes[k as int],
                start_at(nodes, order@, order@.len() as int) <= usize::MAX,
                base == start_at(nodes, order@, p as int),
                starts@.len() == order@.len(),
                forall|q: int| 0 <= q < order@.len() ==> #[trigger] starts@[q] == start_at(nodes, order@, q),
                before.len() == base + node.bytes@.len(),
                out@.len() == before.len(),
                j <= node.offsets@.len(),
                records_ok(node.bytes@, node.offsets@),
                forall|x: int| 0 <= x < before.len() && !(base <= x && exists|jj: int| 0 <= jj < j &&
                    (#[trigger] node.offsets@[jj]).pos <= x - base < field_end(node.offsets@[jj]))
                    ==> #[trigger] out@[x] == before[x],
                forall|jj: int| 0 <= jj < j ==> be_value(
                    out@,
                    base + (#[trigger] node.offsets@[jj]).pos,
                    node.offsets@[jj].len.spec_byte_len(),
                ) == rel_at(nodes, order@, index@, p as int, jj),
                forall|jj: int| 0 <= jj < j ==> rel_at(nodes, order@, index@, p as int, jj)
                    < pow256((#[trigger] node.offsets@[jj]).len.spec_byte_len()),
            decreases node.offsets@.len() - j,
        {
            let rec = node.offsets[j];
            let t = rec.object.0;
            proof {
                assert(nodes[order@[p as int] as int].offsets@[j as int] == rec);
            }
            let q = index[t];
            proof {
                lemma_start_order(nodes, order@, p as int, q as int);
                assert(field_end(rec) <= node.bytes@.len());
            }
            let rel = starts[q] - starts[p];
            let ghost prev = out@;
            match write_offset(&mut out, base + rec.pos, rec.len, rel) {
                Ok(()) => {},
                Err(e) => {
                    proof {
                        assert(rel_at(nodes, order@, index@, p as int, j as int) == rel);
                        assert(!fits(nodes, order@, index@));
                    }
                    return Err(DumpError::OffsetOverflow);
                },
            }
            proof {
                let w = rec.len.spec_byte_len();
                assert forall|jj: int| 0 <= jj < j implies be_value(
                    out@,
                    base + (#[trigger] node.offsets@[jj]).pos,
                    node.offsets@[jj].len.spec_byte_len(),
                ) == rel_at(nodes, order@, index@, p as int, jj) by {
                    let r2 = node.offsets@[jj];
                    let y = base + r2.pos;
                    assert(field_end(r2) <= rec.pos);
                    assert forall|m: int| 0 <= m < r2.len.spec_byte_len() implies #[trigger] out@[y + m]
                        == prev[y + m] by {}
                    lemma_be_value_window(out@, y, prev, y, r2.len.spec_byte_len());
                }
                assert forall|x: int| 0 <= x < before.len() && !(base <= x && exists|jj: int| 0 <= jj < j + 1 &&
                    (#[trigger] node.offsets@[jj]).pos <= x - base < field_end(node.offsets@[jj]))
                    implies #[trigger] out@[x] == before[x] by {
                    if base <= x && exists|jj: int| 0 <= jj < j &&
                        (#[trigger] node.offsets@[jj]).pos <= x - base < field_end(node.offsets@[jj]) {
                        let jj = choose|jj: int| 0 <= jj < j &&
                            (#[trigger] node.offsets@[jj]).pos <= x - base < field_end(node.offsets@[jj]);
                        assert(0 <= jj < j + 1);
                    }
                    if base + rec.pos <= x < base + rec.pos + w {
                        assert(0 <= j < j + 1);
                        assert(node.offsets@[j as int] == rec);
                    }
                }
            }
            j = j + 1;
        }
        proof {
            let d = nodes[k as int];
            assert forall|x: int| 0 <= x < d.bytes@.len() && !in_field(d.offsets@, x) implies out@[base + x]
                == #[trigger] d.bytes@[x] by {
                if exists|jj: int| 0 <= jj < j &&
                    (#[trigger] node.offsets@[jj]).pos <= (base + x) - base < field_end(node.offsets@[jj]) {
                    let jj = choose|jj: int| 0 <= jj < j &&
                        (#[trigger] node.offsets@[jj]).pos <= (base + x) - base < field_end(node.offsets@[jj]);
                    assert(node.offsets@[jj].pos <= x < field_end(node.offsets@[jj]));
                    assert(in_field(d.offsets@, x));
                }
                assert(out@[base + x] == before[base + x]);
            }
            assert(bytes_placed(out@, base as int, d));
            assert forall|q: int|
                0 <= q < p + 1 implies bytes_placed(out@, #[trigger] start_at(nodes, order@, q), nodes[order@[q] as int])
                    && fields_placed(out@, start_at(nodes, order@, q), nodes, order@, index@, q) by {
                if q < p {
                    lemma_start_order(nodes, order@, q, p as int);
                    let b2 = start_at(nodes, order@, q);
                    lemma_start_nonneg(nodes, order@, q);
                    assert(order@[q] < nodes.len());
                    assert forall|x: int| b2 <= x < b2 + nodes[order@[q] as int].bytes@.len() implies out@[x] == out0[x] by {
                        assert(out@[x] == before[x]);
                        assert(before[x] == out0[x]);
                    }
                    lemma_placed_frame(out0, out@, b2, nodes, order@, index@, q);
                }
            }
        }
        p = p + 1;
    }
    Ok(out)
}

/// Orders the nodes reachable from `root` for layout by Kahn's algorithm:
/// a node is taken once every reference to it (counted with multiplicity)
/// comes from a node already taken. Of the nodes ready at a time, the one
/// readied last is taken first, and the nodes one table readies are taken
/// in the order it references them, so each table's subtables follow it
/// closely.
pub fn kahn_sort(graph: &Graph, root: ObjectId) -> (order: Vec<usize>)
    requires
        graph.wf(),
        root.0 < graph.nodes@.len(),
    ensures
        forall|p: int| 0 <= p < order@.len() ==> (#[trigger] order@[p]) < graph.nodes@.len(),
{
    let n = graph.nodes.len();
    let mut reachable: Vec<bool> = Vec::new();
    let mut indegree: Vec<usize> = Vec::new();
    while reachable.len() < n
        invariant
            reachable@.len() == indegree@.len(),
            reachable@.len() <= n,
        decreases n - reachable@.len(),
    {
        reachable.push(false);
        indegree.push(0);
    }
    reachable.set(root.0, true);
    // offsets point to lower ids, so one sweep down from the root finds
    // every reachable node and counts the references to it
    let mut k: usize = root.0 + 1;
    while k > 0
        invariant
            n == graph.nodes@.len(),
            graph.wf(),
            reachable@.len() == n,
            indegree@.len() == n,
            k <= n,
        decreases k,
    {
        k = k - 1;
        if reachable[k] {
            let node = &graph.nodes[k];
            let mut j: usize = 0;
            while j < node.offsets.len()
                invariant
                    n == graph.nodes@.len(),
                    graph.wf(),
                    k < n,
                    *node == graph.nodes@[k as int],
                    reachable@.len() == n,
                    indegree@.len() == n,
                decreases node.offsets@.len() - j,
            {
                let t = node.offsets[j].object.0;
                assert(graph.nodes@[k as int].offsets@[j as int].object.0 < k);
                reachable.set(t, true);
                if indegree[t] < usize::MAX {
                    indegree.set(t, indegree[t] + 1);
                }
                j = j + 1;
            }
        }
    }
    let mut order: Vec<usize> = Vec::new();
    let mut stack: Vec<usize> = Vec::new();
    stack.push(root.0);
    while stack.len() > 0 && order.len() < n
        invariant
            n == graph.nodes@.len(),
            graph.wf(),
            indegree@.len() == n,
            order@.len() <= n,
            forall|p: int| 0 <= p < stack@.len() ==> (#[trigger] stack@[p]) < n,
            forall|p: int| 0 <= p < order@.len() ==> (#[trigger] order@[p]) < n,
        decreases n - order@.len(),
    {
        let u = match stack.pop() {
            Some(u) => u,
            None => break,
        };
        order.push(u);
        let node = &graph.nodes[u];
        let mut ready: Vec<usize> = Vec::new();
        let mut j: usize = 0;
        while j < node.offsets.len()
            invariant
                n == graph.nodes@.len(),
                graph.wf(),
                u < n,
                *node == graph.nodes@[u as int],
                indegree@.len() == n,
                forall|p: int| 0 <= p < ready@.len() ==> (#[trigger] ready@[p]) < n,
            decreases node.offsets@.len() - j,
        {
            let t = node.offsets[j].object.0;
            assert(graph.nodes@[u as int].offsets@[j as int].object.0 < u);
            if indegree[t] > 0 {
                indegree.set(t, indegree[t] - 1);
                if indegree[t] == 0 {
                    ready.push(t);
                }
            }
            j = j + 1;
        }
        while ready.len() > 0
            invariant
                forall|p: int| 0 <= p < ready@.len() ==> (#[trigger] ready@[p]) < n,
                forall|p: int| 0 <= p < stack@.len() ==> (#[trigger] stack@[p]) < n,
            decreases ready@.len(),
        {
            match ready.pop() {
                Some(t) => stack.push(t),
                None => {},
            }
        }
    }
    order
}

/// Checks that `order` starts at `root` and is a layout order, and returns
/// the position of each node in it.
fn order_index(graph: &Graph, order: &Vec<usize>, root: ObjectId) -> (r: Option<Vec<usize>>)
    requires
        graph.wf(),
        forall|p: int| 0 <= p < order@.len() ==> (#[trigger] order@[p]) < graph.nodes@.len(),
    ensures
        r matches Some(index) ==> order_ok(graph.nodes@, order@, index@) && order@[0] == root.0,
{
    let n = graph.nodes.len();
    if order.len() == 0 || order[0] != root.0 || order.len() > n {
        return None;
    }
    let mut index: Vec<usize> = Vec::new();
    let mut seen: Vec<bool> = Vec::new();
    while index.len() < n
        invariant
            index@.len() == seen@.len(),
            index@.len() <= n,
            forall|i: int| 0 <= i < seen@.len() ==> !seen@[i],
        decreases n - index@.len(),
    {
        index.push(0);
        seen.push(false);
    }
    let mut p: usize = 0;
    while p < order.len()
        invariant
            n == graph.nodes@.len(),
            forall|q: int| 0 <= q < order@.len() ==> (#[trigger] order@[q]) < n,
            index@.len() == n,
            seen@.len() == n,
            p <= order@.len(),
            forall|q: int| 0 <= q < p ==> index@[#[trigger] order@[q] as int] == q,
            forall|q: int| 0 <= q < p ==> seen@[#[trigger] order@[q] as int],
            forall|i: int| 0 <= i < n && seen@[i] ==> index@[i] < p && order@[index@[i] as int] == i,
        decreases order@.len() - p,
    {
        let k = order[p];
        if seen[k] {
            return None;
        }
        index.set(k, p);
        seen.set(k, true);
        p = p + 1;
    }
    let mut p: usize = 0;
    while p < order.len()
        invariant
            n == graph.nodes@.len(),
            graph.wf(),
            forall|q: int| 0 <= q < order@.len() ==> (#[trigger] order@[q]) < n,
            index@.len() == n,
            seen@.len() == n,
            forall|q: int| 0 <= q < order@.len() ==> index@[#[trigger] order@[q] as int] == q,
            forall|i: int| 0 <= i < n && seen@[i] ==> index@[i] < order@.len() && order@[index@[i] as int] == i,
            p <= order@.len(),
            forall|q: int, j: int|
                0 <= q < p && 0 <= j < graph.nodes@[order@[q] as int].offsets@.len() ==> {
                    let t = (#[trigger] graph.nodes@[order@[q] as int].offsets@[j]).object.0 as int;
                    &&& 0 <= t < n
                    &&& q < index@[t] < order@.len()
                    &&& order@[index@[t] as int] == t
                },
        decreases order@.len() - p,
    {
        let node = &graph.nodes[order[p]];
        let mut j: usize = 0;
        while j < node.offsets.len()
            invariant
                n == graph.nodes@.len(),
                graph.wf(),
                p < order@.len(),
                *node == graph.nodes@[order@[p as int] as int],
                forall|q: int| 0 <= q < order@.len() ==> (#[trigger] order@[q]) < n,
                index@.len() == n,
                seen@.len() == n,
                forall|i: int| 0 <= i < n && seen@[i] ==> index@[i] < order@.len() && order@[index@[i] as int] == i,
                forall|jj: int|
                    0 <= jj < j ==> {
                        let t = (#[trigger] node.offsets@[jj]).object.0 as int;
                        &&& 0 <= t < n
                        &&& p < index@[t] < order@.len()
                        &&& order@[index@[t] as int] == t
                    },
            decreases node.offsets@.len() - j,
        {
            let t = node.offsets[j].object.0;
            assert(graph.nodes@[order@[p as int] as int].offsets@[j as int].object.0 < order@[p as int]);
            if !seen[t] || index[t] <= p {
                return None;
            }
            j = j + 1;
        }
        proof {
            assert forall|q: int, j2: int|
                0 <= q < p + 1 && 0 <= j2 < graph.nodes@[order@[q] as int].offsets@.len() implies {
                    let t = (#[trigger] graph.nodes@[order@[q] as int].offsets@[j2]).object.0 as int;
                    &&& 0 <= t < n
                    &&& q < index@[t] < order@.len()
                    &&& order@[index@[t] as int] == t
                } by {
                if q == p {
                    assert(node.offsets@[j2] == graph.nodes@[order@[q] as int].offsets@[j2]);
                }
            }
        }
        p = p + 1;
    }
    Some(index)
}

/// Node `k` has an offset to node `t`.
pub open spec fn references(nodes: Seq<TableData>, k: int, t: int) -> bool {
    exists|j: int| 0 <= j < nodes[k].offsets@.len() && (#[trigger] nodes[k].offsets@[j]).object.0 == t
}

/// Every node of the order after the first is referenced by an earlier
/// one, so all of them are reachable from the first.
pub open spec fn order_reached(nodes: Seq<TableData>, order: Seq<usize>) -> bool {
    forall|p: int| 1 <= p < order.len() ==> #[trigger] reached_at(nodes, order, p)
}

/// The node at position `p` is referenced by a node at an earlier position.
pub open spec fn reached_at(nodes: Seq<TableData>, order: Seq<usize>, p: int) -> bool {
    exists|q: int| 0 <= q < p && #[trigger] references(nodes, order[q] as int, order[p] as int)
}

/// The "no position yet" mark.
const UNSET: usize = usize::MAX;

/// Checks that every node of the order after the first is referenced by an
/// earlier one.
fn check_reached(graph: &Graph, order: &Vec<usize>) -> (r: bool)
    requires
        graph.wf(),
        forall|p: int| 0 <= p < order@.len() ==> (#[trigger] order@[p]) < graph.nodes@.len(),
    ensures
        r ==> order_reached(graph.nodes@, order@),
{
    let n = graph.nodes.len();
    let mut first: Vec<usize> = Vec::new();
    while first.len() < n
        invariant
            first@.len() <= n,
            forall|i: int| 0 <= i < first@.len() ==> first@[i] == UNSET,
        decreases n - first@.len(),
    {
        first.push(UNSET);
    }
    let mut q: usize = 0;
    while q < order.len()
        invariant
            n == graph.nodes@.len(),
            graph.wf(),
            first@.len() == n,
            q <= order@.len(),
            forall|p: int| 0 <= p < order@.len() ==> (#[trigger] order@[p]) < n,
            forall|t: int|
                0 <= t < n && #[trigger] first@[t] != UNSET ==> first@[t] < q && references(
                    graph.nodes@,
                    order@[first@[t] as int] as int,
                    t,
                ),
        decreases order@.len() - q,
    {
        let node = &graph.nodes[order[q]];
        let mut j: usize = 0;
        while j < node.offsets.len()
            invariant
                n == graph.nodes@.len(),
                graph.wf(),
                first@.len() == n,
                q < order@.len(),
                order@[q as int] < n,
                *node == graph.nodes@[order@[q as int] as int],
                forall|t: int|
                    0 <= t < n && #[trigger] first@[t] != UNSET ==> first@[t] <= q && references(
                        graph.nodes@,
                        order@[first@[t] as int] as int,
                        t,
                    ),
            decreases node.offsets@.len() - j,
        {
            let t = node.offsets[j].object.0;
            proof {
                assert(graph.nodes@[order@[q as int] as int].offsets@[j as int].object.0 < order@[q as int]);
            }
            if first[t] == UNSET {
                first.set(t, q);
                proof {
                    assert(references(graph.nodes@, order@[q as int] as int, t as int)) by {
                        assert(graph.nodes@[order@[q as int] as int].offsets@[j as int].object.0 == t);
                    }
                }
            }
            j = j + 1;
        }
        q = q + 1;
    }
    let mut p: usize = 1;
    while p < order.len()
        invariant
            n == graph.nodes@.len(),
            first@.len() == n,
            1 <= p,
            forall|i: int| 0 <= i < order@.len() ==> (#[trigger] order@[i]) < n,
            forall|t: int|
                0 <= t < n && #[trigger] first@[t] != UNSET ==> first@[t] < order@.len() && references(
                    graph.nodes@,
                    order@[first@[t] as int] as int,
                    t,
                ),
            forall|i: int| 1 <= i < p && i < order@.len() ==> #[trigger] reached_at(graph.nodes@, order@, i),
        decreases order@.len() - p,
    {
        let f = first[order[p]];
        if f == UNSET || f >= p {
            return false;
        }
        proof {
            assert(references(graph.nodes@, order@[f as int] as int, order@[p as int] as int));
            assert(reached_at(graph.nodes@, order@, p as int));
        }
        p = p + 1;
    }
    true
}

/// The nodes reachable from `root`, in descending id order: always a
/// layout order, since offsets point to lower ids, and each node after the
/// root is referenced by a node with a higher id, which comes earlier.
fn reachable_order(graph: &Graph, root: ObjectId) -> (r: (Vec<usize>, Vec<usize>))
    requires
        graph.wf(),
        root.0 < graph.nodes@.len(),
    ensures
        order_ok(graph.nodes@, r.0@, r.1@),
        order_reached(graph.nodes@, r.0@),
        r.0@[0] == root.0,
{
    let ghost nodes = graph.nodes@;
    let n = graph.nodes.len();
    let mut parent: Vec<usize> = Vec::new();
    let mut reach: Vec<bool> = Vec::new();
    while reach.len() < n
        invariant
            reach@.len() == parent@.len(),
            reach@.len() <= n,
            forall|i: int| 0 <= i < reach@.len() ==> !reach@[i],
        decreases n - reach@.len(),
    {
        reach.push(false);
        parent.push(0);
    }
    reach.set(root.0, true);
    let mut k: usize = root.0 + 1;
    while k > 0
        invariant
            nodes == graph.nodes@,
            n == nodes.len(),
            graph.wf(),
            root.0 < n,
            reach@.len() == n,
            parent@.len() == n,
            k <= root.0 + 1,
            reach@[root.0 as int],
            forall|t: int| 0 <= t < n && #[trigger] reach@[t] ==> t <= root.0,
            forall|t: int|
                0 <= t < n && #[trigger] reach@[t] && t != root.0 ==> t < parent@[t] <= root.0
                    && reach@[parent@[t] as int] && references(nodes, parent@[t] as int, t),
            forall|m: int, j: int|
                k <= m <= root.0 && reach@[m] && 0 <= j < nodes[m].offsets@.len() ==> #[trigger] reach@[(
                #[trigger] nodes[m].offsets@[j]).object.0 as int],
        decreases k,
    {
        k = k - 1;
        if reach[k] {
            let node = &graph.nodes[k];
            let mut j: usize = 0;
            while j < node.offsets.len()
                invariant
                    nodes == graph.nodes@,
                    n == nodes.len(),
                    graph.wf(),
                    root.0 < n,
                    k < n,
                    k <= root.0,
                    reach@[k as int],
                    *node == nodes[k as int],
                    reach@.len() == n,
                    parent@.len() == n,
                    reach@[root.0 as int],
                    forall|t: int| 0 <= t < n && #[trigger] reach@[t] ==> t <= root.0,
                    forall|t: int|
                        0 <= t < n && #[trigger] reach@[t] && t != root.0 ==> t < parent@[t] <= root.0
                            && reach@[parent@[t] as int] && references(nodes, parent@[t] as int, t),
                    forall|m: int, jj: int|
                        k < m <= root.0 && reach@[m] && 0 <= jj < nodes[m].offsets@.len() ==> #[trigger] reach@[(
                        #[trigger] nodes[m].offsets@[jj]).object.0 as int],
                    forall|jj: int| 0 <= jj < j ==> #[trigger] reach@[node.offsets@[jj].object.0 as int],
                decreases node.offsets@.len() - j,
            {
                let t = node.offsets[j].object.0;
                proof {
                    assert(nodes[k as int].offsets@[j as int].object.0 < k);
                }
                if !reach[t] {
                    reach.set(t, true);
                    parent.set(t, k);
                    proof {
                        assert(references(nodes, k as int, t as int)) by {
                            assert(nodes[k as int].offsets@[j as int].object.0 == t);
                        }
                    }
                }
                j = j + 1;
            }
            proof {
                assert forall|m: int, jj: int|
                    k <= m <= root.0 && reach@[m] && 0 <= jj < nodes[m].offsets@.len() implies #[trigger] reach@[(
                    #[trigger] nodes[m].offsets@[jj]).object.0 as int] by {
                    if m == k {
                        assert(nodes[m].offsets@[jj] == node.offsets@[jj]);
                    }
                }
            }
        }
    }
    let mut order: Vec<usize> = Vec::new();
    let mut index: Vec<usize> = Vec::new();
    while index.len() < n
        invariant
            index@.len() <= n,
        decreases n - index@.len(),
    {
        index.push(0);
    }
    let mut c: usize = root.0 + 1;
    while c > 0
        invariant
            nodes == graph.nodes@,
            n == nodes.len(),
            graph.wf(),
            root.0 < n,
            c <= root.0 + 1,
            reach@.len() == n,
            parent@.len() == n,
            index@.len() == n,
            reach@[root.0 as int],
            forall|t: int| 0 <= t < n && #[trigger] reach@[t] ==> t <= root.0,
            forall|t: int|
                0 <= t < n && #[trigger] reach@[t] && t != root.0 ==> t < parent@[t] <= root.0
                    && reach@[parent@[t] as int] && references(nodes, parent@[t] as int, t),
            forall|m: int, j: int|
                0 <= m <= root.0 && reach@[m] && 0 <= j < nodes[m].offsets@.len() ==> #[trigger] reach@[(
                #[trigger] nodes[m].offsets@[j]).object.0 as int],
            c <= root.0 ==> order@.len() >= 1 && order@[0] == root.0,
            c == root.0 + 1 ==> order@.len() == 0,
            forall|p: int| 0 <= p < order@.len() ==> c <= #[trigger] order@[p] <= root.0 && reach@[order@[p] as int],
            forall|p: int, q: int| 0 <= p < q < order@.len() ==> order@[p] > order@[q],
            forall|p: int| 0 <= p < order@.len() ==> #[trigger] index@[order@[p] as int] == p,
            forall|t: int| c <= t <= root.0 && #[trigger] reach@[t] ==> 0 <= index@[t] < order@.len() && order@[index@[t] as int] == t,
        decreases c,
    {
        c = c - 1;
        if reach[c] {
            let pos = order.len();
            order.push(c);
            index.set(c, pos);
        }
    }
    proof {
        let o = order@;
        let ix = index@;
        assert forall|p: int, j: int|
            0 <= p < o.len() && 0 <= j < nodes[o[p] as int].offsets@.len() implies {
                let t = (#[trigger] nodes[o[p] as int].offsets@[j]).object.0 as int;
                &&& 0 <= t < nodes.len()
                &&& p < ix[t] < o.len()
                &&& o[ix[t] as int] == t
            } by {
            let k = o[p] as int;
            let t = nodes[k].offsets@[j].object.0 as int;
            assert(t < k);
            assert(reach@[t]);
            let q = ix[t] as int;
            if q <= p {
                if q < p {
                    assert(o[q] > o[p]);
                }
            }
        }
        assert forall|p: int| 1 <= p < o.len() implies #[trigger] reached_at(nodes, o, p) by {
            let t = o[p] as int;
            assert(t != root.0) by {
                assert(o[0] > o[p]);
            }
            assert(reach@[t]);
            let par = parent@[t] as int;
            assert(reach@[par]);
            assert(par <= root.0);
            let q = ix[par] as int;
            assert(o[q] == par);
            if q >= p {
                if q > p {
                    assert(o[p] > o[q]);
                }
            }
            assert(0 <= q < p && references(nodes, o[q] as int, o[p] as int));
        }
        assert(o[0] == root.0);
    }
    (order, index)
}

/// Lays out the graph from `root` and patches every offset: the nodes are
/// ordered by [`kahn_sort`], with the tables a table references after it,
/// so every relative offset is positive.
pub fn dump(graph: &Graph, root: ObjectId) -> (r: Result<Vec<u8>, DumpError>)
    requires
        graph.wf(),
        root.0 < graph.nodes@.len(),
    ensures
        exists|order: Seq<usize>, index: Seq<usize>| {
            &&& order_ok(graph.nodes@, order, index)
            &&& order_reached(graph.nodes@, order)
            &&& order[0] == root.0
            &&& (r is Ok <==> fits(graph.nodes@, order, index))
            &&& (r matches Ok(out) ==> placed(out@, graph.nodes@, order, index))
            &&& (r == Err::<Vec<u8>, DumpError>(DumpError::TooLarge) <==> start_at(
                graph.nodes@,
                order,
                order.len() as int,
            ) > usize::MAX)
            &&& (r is Err ==> r == Err::<Vec<u8>, DumpError>(DumpError::TooLarge) || r == Err::<
                Vec<u8>,
                DumpError,
            >(DumpError::OffsetOverflow))
        },
{
    let sorted = kahn_sort(graph, root);
    let checked = match order_index(graph, &sorted, root) {
        Some(index) => if check_reached(graph, &sorted) {
            Some(index)
        } else {
            None
        },
        None => None,
    };
    let (order, index) = match checked {
        Some(index) => (sorted, index),
        None => reachable_order(graph, root),
    };
    let r = dump_in_order(graph, &order, &index);
    assert(order_ok(graph.nodes@, order@, index@) && order_reached(graph.nodes@, order@) && order@[0] == root.0);
    r
}

} // verus!
