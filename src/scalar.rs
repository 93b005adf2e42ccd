//! Fixed-width big-endian scalars and relative offsets.
use vstd::prelude::*;

verus! {

/// `256` raised to the power `n`: one more than the largest value of an
/// `n`-byte unsigned integer.
pub open spec fn pow256(n: nat) -> nat
    decreases n,
{
    if n == 0 {
        1
    } else {
        256 * pow256((n - 1) as nat)
    }
}

/// The unsigned big-endian value of the `n` bytes of `b` that start at `i`.
pub open spec fn be_value(b: Seq<u8>, i: int, n: nat) -> nat
    decreases n,
{
    if n == 0 {
        0
    } else {
        be_value(b, i, (n - 1) as nat) * 256 + b[i + n - 1] as nat
    }
}

/// The `n`-byte big-endian encoding of `v` (the low `n` bytes of it).
pub open spec fn be_bytes(v: nat, n: nat) -> Seq<u8>
    decreases n,
{
    if n == 0 {
        Seq::empty()
    } else {
        be_bytes(v / 256, (n - 1) as nat).push((v % 256) as u8)
    }
}

pub proof fn lemma_pow256_pos(n: nat)
    ensures
        pow256(n) >= 1,
    decreases n,
{
    if n > 0 {
        lemma_pow256_pos((n - 1) as nat);
    }
}

pub proof fn lemma_pow256_values()
    ensures
        pow256(1) == 0x100,
        pow256(2) == 0x10000,
        pow256(3) == 0x1000000,
        pow256(4) == 0x100000000,
{
    reveal_with_fuel(pow256, 5);
}

/// An `n`-byte value is below `256^n`.
pub proof fn lemma_be_value_bound(b: Seq<u8>, i: int, n: nat)
    ensures
        be_value(b, i, n) < pow256(n),
    decreases n,
{
    if n > 0 {
        let m = (n - 1) as nat;
        lemma_be_value_bound(b, i, m);
        let x = be_value(b, i, m);
        let y = b[i + n - 1] as nat;
        assert(x * 256 + y < 256 * pow256(m)) by (nonlinear_arith)
            requires
                x < pow256(m),
                y < 256,
        ;
    }
}

/// Only the bytes inside the window matter.
pub proof fn lemma_be_value_window(a: Seq<u8>, i: int, b: Seq<u8>, j: int, n: nat)
    requires
        forall|k: int| 0 <= k < n ==> #[trigger] a[i + k] == b[j + k],
    ensures
        be_value(a, i, n) == be_value(b, j, n),
    decreases n,
{
    if n > 0 {
        let m = (n - 1) as nat;
        assert(a[i + m] == b[j + m]);
        lemma_be_value_window(a, i, b, j, m);
    }
}

pub proof fn lemma_be_bytes_len(v: nat, n: nat)
    ensures
        be_bytes(v, n).len() == n,
    decreases n,
{
    if n > 0 {
        lemma_be_bytes_len(v / 256, (n - 1) as nat);
    }
}

/// Decoding an encoding gives the value back, when it fits the width.
pub proof fn lemma_be_round_trip(v: nat, n: nat)
    requires
        v < pow256(n),
    ensures
        be_bytes(v, n).len() == n,
        be_value(be_bytes(v, n), 0, n) == v,
    decreases n,
{
    lemma_be_bytes_len(v, n);
    if n > 0 {
        let m = (n - 1) as nat;
        let q = v / 256;
        assert(q < pow256(m)) by (nonlinear_arith)
            requires
                v < 256 * pow256(m),
                q == v / 256,
        ;
        lemma_be_round_trip(q, m);
        let s = be_bytes(q, m);
        let t = s.push((v % 256) as u8);
        assert forall|k: int| 0 <= k < m implies #[trigger] t[0 + k] == s[0 + k] by {}
        lemma_be_value_window(t, 0, s, 0, m);
        assert(v == q * 256 + v % 256) by (nonlinear_arith)
            requires
                q == v / 256,
        ;
    }
}

/// Reads the `width`-byte big-endian unsigned integer at `pos`.
pub fn read_be(data: &[u8], pos: usize, width: usize) -> (r: u32)
    requires
        width <= 4,
        pos + width <= data@.len(),
    ensures
        r as nat == be_value(data@, pos as int, width as nat),
    decreases width,
{
    if width == 0 {
        0
    } else {
        let hi = read_be(data, pos, width - 1);
        proof {
            lemma_be_value_bound(data@, pos as int, (width - 1) as nat);
            lemma_pow256_values();
            reveal_with_fuel(pow256, 4);
        }
        let size = data.len();
        assert(pos + width <= size);
        hi * 256 + data[pos + (width - 1)] as u32
    }
}

/// Appends the `width`-byte big-endian encoding of `v`.
pub fn push_be(out: &mut Vec<u8>, v: u32, width: usize)
    ensures
        final(out)@ == old(out)@ + be_bytes(v as nat, width as nat),
    decreases width,
{
    if width > 0 {
        push_be(out, v / 256, width - 1);
        out.push((v % 256) as u8);
        assert(final(out)@ =~= old(out)@ + be_bytes(v as nat, width as nat));
    } else {
        assert(out@ =~= old(out)@ + be_bytes(v as nat, width as nat));
    }
}

/// Reads a `u8` at `pos`; `None` when the buffer is too short.
pub fn read_u8(data: &[u8], pos: usize) -> (r: Option<u8>)
    ensures
        r == (if pos < data@.len() {
            Some(data@[pos as int])
        } else {
            None::<u8>
        }),
{
    if pos < data.len() {
        Some(data[pos])
    } else {
        None
    }
}

/// Reads a big-endian `u16` at `pos`; `None` when the buffer is too short.
pub fn read_u16(data: &[u8], pos: usize) -> (r: Option<u16>)
    ensures
        r == (if pos + 2 <= data@.len() {
            Some(be_value(data@, pos as int, 2) as u16)
        } else {
            None::<u16>
        }),
        r matches Some(v) ==> v as nat == be_value(data@, pos as int, 2),
{
    if pos <= data.len() && 2 <= data.len() - pos {
        let v = read_be(data, pos, 2);
        proof {
            lemma_be_value_bound(data@, pos as int, 2);
            lemma_pow256_values();
        }
        Some(v as u16)
    } else {
        None
    }
}

/// Reads a big-endian `i16` at `pos`; `None` when the buffer is too short.
pub fn read_i16(data: &[u8], pos: usize) -> (r: Option<i16>)
    ensures
        r == (if pos + 2 <= data@.len() {
            Some(be_value(data@, pos as int, 2) as u16 as i16)
        } else {
            None::<i16>
        }),
{
    match read_u16(data, pos) {
        Some(v) => Some(v as i16),
        None => None,
    }
}

/// Reads a big-endian 24-bit unsigned integer at `pos`.
pub fn read_u24(data: &[u8], pos: usize) -> (r: Option<u32>)
    ensures
        r == (if pos + 3 <= data@.len() {
            Some(be_value(data@, pos as int, 3) as u32)
        } else {
            None::<u32>
        }),
        r matches Some(v) ==> v < 0x1000000,
{
    if pos <= data.len() && 3 <= data.len() - pos {
        let v = read_be(data, pos, 3);
        proof {
            lemma_be_value_bound(data@, pos as int, 3);
            lemma_pow256_values();
        }
        Some(v)
    } else {
        None
    }
}

/// Reads a big-endian `u32` at `pos`; `None` when the buffer is too short.
pub fn read_u32(data: &[u8], pos: usize) -> (r: Option<u32>)
    ensures
        r == (if pos + 4 <= data@.len() {
            Some(be_value(data@, pos as int, 4) as u32)
        } else {
            None::<u32>
        }),
        r matches Some(v) ==> v as nat == be_value(data@, pos as int, 4),
{
    if pos <= data.len() && 4 <= data.len() - pos {
        Some(read_be(data, pos, 4))
    } else {
        None
    }
}

/// Appends the big-endian bytes of a `u16`.
pub fn write_u16(out: &mut Vec<u8>, v: u16)
    ensures
        final(out)@ == old(out)@ + be_bytes(v as nat, 2),
{
    push_be(out, v as u32, 2);
}

/// Appends the big-endian bytes of an `i16` (its two's complement).
pub fn write_i16(out: &mut Vec<u8>, v: i16)
    ensures
        final(out)@ == old(out)@ + be_bytes(v as u16 as nat, 2),
{
    push_be(out, v as u16 as u32, 2);
}

/// An unsigned 24-bit integer.
#[derive(Clone, Copy, Debug, PartialEq, Eq, Structural)]
pub struct Uint24(u32);

impl Uint24 {
    #[verifier::type_invariant]
    spec fn fits(&self) -> bool {
        self.0 < 0x1000000
    }

    pub closed spec fn value(&self) -> nat {
        self.0 as nat
    }

    /// Creates a value, or `None` when `v` needs more than 24 bits.
    pub fn checked_new(v: u32) -> (r: Option<Uint24>)
        ensures
            r is Some <==> v < 0x1000000,
            r matches Some(u) ==> u.value() == v,
    {
        if v < 0x1000000 {
            Some(Uint24(v))
        } else {
            None
        }
    }

    pub fn to_u32(self) -> (r: u32)
        ensures
            r == self.value(),
            r < 0x1000000,
    {
        proof {
            use_type_invariant(&self);
        }
        self.0
    }
}

/// The width of an offset field.
#[derive(Clone, Copy, Debug, PartialEq, Eq, Structural)]
pub enum OffsetLen {
    Offset16,
    Offset24,
    Offset32,
}

impl OffsetLen {
    pub open spec fn spec_byte_len(self) -> nat {
        match self {
            OffsetLen::Offset16 => 2,
            OffsetLen::Offset24 => 3,
            OffsetLen::Offset32 => 4,
        }
    }

    /// The number of bytes the field occupies.
    pub fn byte_len(self) -> (r: usize)
        ensures
            r as nat == self.spec_byte_len(),
    {
        match self {
            OffsetLen::Offset16 => 2,
            OffsetLen::Offset24 => 3,
            OffsetLen::Offset32 => 4,
        }
    }

    /// The bytes of an absent (null) offset of this width.
    pub fn null_bytes(self) -> (r: Vec<u8>)
        ensures
            r@.len() == self.spec_byte_len(),
            forall|i: int| 0 <= i < r@.len() ==> r@[i] == 0,
    {
        let n = self.byte_len();
        let mut v: Vec<u8> = Vec::new();
        while v.len() < n
            invariant
                v@.len() <= n,
                n as nat == self.spec_byte_len(),
                forall|i: int| 0 <= i < v@.len() ==> v@[i] == 0,
            decreases n - v@.len(),
        {
            v.push(0);
        }
        v
    }
}

/// A relative offset, stored in a field of fixed width. Zero means "absent".
pub trait Offset: Sized + Copy {
    /// The raw value of the field.
    spec fn raw(&self) -> nat;

    /// The value as a displacement, or `None` when it is zero.
    fn non_null(self) -> (r: Option<usize>)
        ensures
            self.raw() <= u32::MAX,
            r == (if self.raw() == 0 {
                None::<usize>
            } else {
                Some(self.raw() as usize)
            }),
    ;

    /// The width of a field of this type.
    spec fn spec_width() -> OffsetLen;

    fn width() -> (r: OffsetLen)
        ensures
            r == Self::spec_width(),
    ;
}

/// A 16-bit offset to a table.
#[derive(Clone, Copy, Debug, PartialEq, Eq, Structural)]
pub struct Offset16(pub u16);

/// A 24-bit offset to a table.
#[derive(Clone, Copy, Debug, PartialEq, Eq, Structural)]
pub struct Offset24(pub Uint24);

/// A 32-bit offset to a table.
#[derive(Clone, Copy, Debug, PartialEq, Eq, Structural)]
pub struct Offset32(pub u32);

impl Offset16 {
    pub fn new(raw: u16) -> (r: Self)
        ensures
            r.0 == raw,
    {
        Offset16(raw)
    }
}

impl Offset24 {
    pub fn new(raw: Uint24) -> (r: Self)
        ensures
            r.0 == raw,
    {
        Offset24(raw)
    }
}

impl Offset32 {
    pub fn new(raw: u32) -> (r: Self)
        ensures
            r.0 == raw,
    {
        Offset32(raw)
    }
}

impl Offset for Offset16 {
    open spec fn spec_width() -> OffsetLen {
        OffsetLen::Offset16
    }

    fn width() -> (r: OffsetLen) {
        OffsetLen::Offset16
    }

    open spec fn raw(&self) -> nat {
        self.0 as nat
    }

    fn non_null(self) -> (r: Option<usize>) {
        if self.0 == 0 {
            None
        } else {
            Some(self.0 as usize)
        }
    }
}

impl Offset for Offset24 {
    open spec fn spec_width() -> OffsetLen {
        OffsetLen::Offset24
    }

    fn width() -> (r: OffsetLen) {
        OffsetLen::Offset24
    }

    open spec fn raw(&self) -> nat {
        self.0.value()
    }

    fn non_null(self) -> (r: Option<usize>) {
        let v = self.0.to_u32();
        if v == 0 {
            None
        } else {
            Some(v as usize)
        }
    }
}

impl Offset for Offset32 {
    open spec fn spec_width() -> OffsetLen {
        OffsetLen::Offset32
    }

    fn width() -> (r: OffsetLen) {
        OffsetLen::Offset32
    }

    open spec fn raw(&self) -> nat {
        self.0 as nat
    }

    fn non_null(self) -> (r: Option<usize>) {
        if self.0 == 0 {
            None
        } else {
            Some(self.0 as usize)
        }
    }
}

} // verus!
