//! Glyph data: the glyph header, the simple/composite variant chosen by the
//! sign of the contour count, and the run-length compressed flag stream whose
//! length is only known once it has been decoded.
use vstd::prelude::*;

use crate::scalar::{be_value, read_i16, read_u16, read_u8, Offset, Offset32};

verus! {

/// Bit 0 of a point flag: the point is on the curve.
pub const ON_CURVE_POINT: u8 = 0x01;
/// Bit 1: the x coordinate is one byte long.
pub const X_SHORT_VECTOR: u8 = 0x02;
/// Bit 2: the y coordinate is one byte long.
pub const Y_SHORT_VECTOR: u8 = 0x04;
/// Bit 3: the next byte is a count of extra repetitions of this flag.
pub const REPEAT_FLAG: u8 = 0x08;
/// Bit 4: sign of a short x, or "same as previous" for a long one.
pub const X_IS_SAME_OR_POSITIVE_X_SHORT_VECTOR: u8 = 0x10;
/// Bit 5: sign of a short y, or "same as previous" for a long one.
pub const Y_IS_SAME_OR_POSITIVE_Y_SHORT_VECTOR: u8 = 0x20;

/// The number of x-coordinate bytes a point with flag `f` takes: one when
/// short, none when repeating the previous value, two otherwise.
pub open spec fn x_width(f: u8) -> nat {
    if f & X_SHORT_VECTOR != 0 {
        1
    } else if f & X_IS_SAME_OR_POSITIVE_X_SHORT_VECTOR != 0 {
        0
    } else {
        2
    }
}

/// The number of y-coordinate bytes a point with flag `f` takes.
pub open spec fn y_width(f: u8) -> nat {
    if f & Y_SHORT_VECTOR != 0 {
        1
    } else if f & Y_IS_SAME_OR_POSITIVE_Y_SHORT_VECTOR != 0 {
        0
    } else {
        2
    }
}

/// The byte lengths of the three packed arrays that follow the
/// instructions of a simple glyph.
#[derive(Clone, Copy, Debug, PartialEq, Eq, Structural)]
pub struct FieldLengths {
    pub flags: u32,
    pub x_coords: u32,
    pub y_coords: u32,
}

/// Scans the flag stream from `pos` for `left` more points, having counted
/// `xs` and `ys` coordinate bytes so far. Gives the end of the flags and the
/// totals, or `None` when the stream ends early or a repeat runs past the
/// number of points.
pub open spec fn scan_flags(data: Seq<u8>, pos: int, left: nat, xs: nat, ys: nat) -> Option<
    (int, nat, nat),
>
    decreases left,
{
    if left == 0 {
        Some((pos, xs, ys))
    } else if !(0 <= pos < data.len()) {
        None
    } else {
        let f = data[pos];
        if f & REPEAT_FLAG != 0 {
            if pos + 1 >= data.len() {
                None
            } else {
                let run = data[pos + 1] as nat + 1;
                if run > left {
                    None
                } else {
                    scan_flags(
                        data,
                        pos + 2,
                        (left - run) as nat,
                        xs + run * x_width(f),
                        ys + run * y_width(f),
                    )
                }
            }
        } else {
            scan_flags(data, pos + 1, (left - 1) as nat, xs + x_width(f), ys + y_width(f))
        }
    }
}

fn x_width_of(f: u8) -> (r: u32)
    ensures
        r == x_width(f),
{
    if f & X_SHORT_VECTOR != 0 {
        1
    } else if f & X_IS_SAME_OR_POSITIVE_X_SHORT_VECTOR != 0 {
        0
    } else {
        2
    }
}

fn y_width_of(f: u8) -> (r: u32)
    ensures
        r == y_width(f),
{
    if f & Y_SHORT_VECTOR != 0 {
        1
    } else if f & Y_IS_SAME_OR_POSITIVE_Y_SHORT_VECTOR != 0 {
        0
    } else {
        2
    }
}

/// The coordinate totals never exceed two bytes per point.
proof fn lemma_scan_bound(data: Seq<u8>, pos: int, left: nat, xs: nat, ys: nat)
    ensures
        scan_flags(data, pos, left, xs, ys) matches Some((p, x, y)) ==> x <= xs + 2 * left && y
            <= ys + 2 * left && p >= pos && p <= pos + 2 * left,
    decreases left,
{
    if left > 0 && 0 <= pos < data.len() {
        let f = data[pos];
        if f & REPEAT_FLAG != 0 {
            if pos + 1 < data.len() {
                let run = data[pos + 1] as nat + 1;
                if run <= left {
                    lemma_scan_bound(
                        data,
                        pos + 2,
                        (left - run) as nat,
                        xs + run * x_width(f),
                        ys + run * y_width(f),
                    );
                    assert(run * x_width(f) <= 2 * run) by (nonlinear_arith)
                        requires
                            x_width(f) <= 2,
                    ;
                    assert(run * y_width(f) <= 2 * run) by (nonlinear_arith)
                        requires
                            y_width(f) <= 2,
                    ;
                }
            }
        } else {
            lemma_scan_bound(data, pos + 1, (left - 1) as nat, xs + x_width(f), ys + y_width(f));
        }
    }
}

/// Finds the lengths of the flag, x and y arrays of a simple glyph with
/// `points_total` points by decoding the flags, which may be run-length
/// compressed. `None` on a truncated or inconsistent stream.
pub fn resolve_coords_len(data: &[u8], points_total: u16) -> (r: Option<FieldLengths>)
    ensures
        r is Some <==> scan_flags(data@, 0, points_total as nat, 0, 0) is Some,
        r matches Some(l) ==> scan_flags(data@, 0, points_total as nat, 0, 0) == Some(
            (l.flags as int, l.x_coords as nat, l.y_coords as nat),
        ),
{
    let mut pos: usize = 0;
    let mut flags_left: u32 = points_total as u32;
    let mut x_len: u32 = 0;
    let mut y_len: u32 = 0;
    proof {
        lemma_scan_bound(data@, 0, points_total as nat, 0, 0);
    }
    while flags_left > 0
        invariant
            flags_left <= points_total,
            pos <= 2 * (points_total - flags_left),
            x_len <= 2 * (points_total - flags_left),
            y_len <= 2 * (points_total - flags_left),
            scan_flags(data@, pos as int, flags_left as nat, x_len as nat, y_len as nat)
                == scan_flags(data@, 0, points_total as nat, 0, 0),
        decreases flags_left,
    {
        let f = match read_u8(data, pos) {
            Some(f) => f,
            None => return None,
        };
        let run: u32 = if f & REPEAT_FLAG != 0 {
            match read_u8(data, pos + 1) {
                Some(n) => n as u32 + 1,
                None => return None,
            }
        } else {
            1
        };
        if run > flags_left {
            return None;
        }
        let xw = x_width_of(f);
        let yw = y_width_of(f);
        proof {
            assert(run * xw <= 2 * run) by (nonlinear_arith)
                requires
                    xw <= 2,
            ;
            assert(run * yw <= 2 * run) by (nonlinear_arith)
                requires
                    yw <= 2,
            ;
        }
        x_len = x_len + run * xw;
        y_len = y_len + run * yw;
        pos = if f & REPEAT_FLAG != 0 {
            pos + 2
        } else {
            pos + 1
        };
        flags_left = flags_left - run;
    }
    Some(FieldLengths { flags: pos as u32, x_coords: x_len, y_coords: y_len })
}

/// A flag with the repeat bit set, followed by a count `n`, stands for `n + 1`
/// points that all take that flag's coordinate widths; when the stream ends
/// before the count byte, or the run is longer than the points left, the
/// scan fails.
pub proof fn lemma_repeat_run(data: Seq<u8>, pos: int, left: nat, xs: nat, ys: nat)
    requires
        0 <= pos < data.len(),
        left > 0,
        data[pos] & REPEAT_FLAG != 0,
    ensures
        pos + 1 >= data.len() ==> scan_flags(data, pos, left, xs, ys) is None,
        pos + 1 < data.len() && data[pos + 1] as nat + 1 > left ==> scan_flags(data, pos, left, xs, ys)
            is None,
        pos + 1 < data.len() && data[pos + 1] as nat + 1 <= left ==> scan_flags(data, pos, left, xs, ys)
            == scan_flags(
            data,
            pos + 2,
            (left - (data[pos + 1] as nat + 1)) as nat,
            xs + (data[pos + 1] as nat + 1) * x_width(data[pos]),
            ys + (data[pos + 1] as nat + 1) * y_width(data[pos]),
        ),
{
}

/// A flag without the repeat bit stands for exactly one point.
pub proof fn lemma_single_flag(data: Seq<u8>, pos: int, left: nat, xs: nat, ys: nat)
    requires
        0 <= pos < data.len(),
        left > 0,
        data[pos] & REPEAT_FLAG == 0,
    ensures
        scan_flags(data, pos, left, xs, ys) == scan_flags(
            data,
            pos + 1,
            (left - 1) as nat,
            xs + x_width(data[pos]),
            ys + y_width(data[pos]),
        ),
{
}

/// The signed big-endian 16-bit value at `pos`.
pub open spec fn be_i16(data: Seq<u8>, pos: int) -> i16 {
    be_value(data, pos, 2) as u16 as i16
}

/// The header every glyph starts with.
#[derive(Clone, Copy, Debug, PartialEq, Eq, Structural)]
pub struct GlyphHeader {
    pub number_of_contours: i16,
    pub x_min: i16,
    pub y_min: i16,
    pub x_max: i16,
    pub y_max: i16,
}

/// The length of a glyph header.
pub const HEADER_LEN: usize = 10;

impl GlyphHeader {
    /// The header at the start of `data`; `None` when it is shorter.
    pub fn read(data: &[u8]) -> (r: Option<GlyphHeader>)
        ensures
            r is Some <==> data@.len() >= HEADER_LEN,
            r matches Some(h) ==> {
                &&& h.number_of_contours == be_i16(data@, 0)
                &&& h.x_min == be_i16(data@, 2)
                &&& h.y_min == be_i16(data@, 4)
                &&& h.x_max == be_i16(data@, 6)
                &&& h.y_max == be_i16(data@, 8)
            },
    {
        if data.len() < HEADER_LEN {
            return None;
        }
        Some(GlyphHeader {
            number_of_contours: read_i16(data, 0).unwrap(),
            x_min: read_i16(data, 2).unwrap(),
            y_min: read_i16(data, 4).unwrap(),
            x_max: read_i16(data, 6).unwrap(),
            y_max: read_i16(data, 8).unwrap(),
        })
    }
}

/// A glyph described by contours: the header, one end point per contour,
/// the instructions, and the packed flag and coordinate data.
pub struct SimpleGlyph<'a> {
    header: GlyphHeader,
    data: &'a [u8],
}

impl<'a> SimpleGlyph<'a> {
    pub closed spec fn bytes(&self) -> Seq<u8> {
        self.data@
    }

    pub closed spec fn spec_header(&self) -> GlyphHeader {
        self.header
    }

    /// The number of contours, which counts the end-point array.
    pub open spec fn contours(&self) -> nat {
        self.spec_header().number_of_contours as nat
    }

    /// The last point index of each contour.
    pub open spec fn end_points(&self) -> Seq<u16> {
        Seq::new(self.contours(), |i: int| be_value(self.bytes(), HEADER_LEN + 2 * i, 2) as u16)
    }

    /// The flag and coordinate data: every byte after the instructions.
    pub open spec fn spec_glyph_data(&self) -> Seq<u8> {
        self.bytes().subrange(
            self.instruction_length_pos() + 2 + be_value(self.bytes(), self.instruction_length_pos(), 2),
            self.bytes().len() as int,
        )
    }

    /// The number of points: one more than the last contour's end point.
    pub open spec fn point_count(&self) -> int {
        self.end_points().last() as int + 1
    }

    /// Where the flag and coordinate data start.
    pub open spec fn data_start(&self) -> int {
        self.instruction_length_pos() + 2 + be_value(self.bytes(), self.instruction_length_pos(), 2)
    }

    /// The flag and coordinate arrays can be found: there is a contour, the
    /// point count fits, the instructions fit, the flags decode, and the
    /// three arrays fit in the data.
    pub open spec fn layout_exists(&self) -> bool {
        &&& self.contours() > 0
        &&& self.end_points().last() < 0xFFFF
        &&& self.data_start() <= self.bytes().len()
        &&& (scan_flags(self.spec_glyph_data(), 0, self.point_count() as nat, 0, 0) matches Some((f, x, y))
            && f + x + y <= self.spec_glyph_data().len())
    }

    /// The decoded points, when the arrays can be found.
    pub open spec fn outline(&self) -> Seq<GlyphPoint> {
        let data = self.spec_glyph_data();
        match scan_flags(data, 0, self.point_count() as nat, 0, 0) {
            Some((f, x, y)) => points_from(
                self.end_points(),
                expand_flags(data, 0, self.point_count() as nat),
                data.subrange(f, f + x),
                data.subrange(f + x, data.len() as int),
                0,
                0,
                0,
                0,
                0,
                0,
            ),
            None => Seq::empty(),
        }
    }

    /// Where the instruction length field stands.
    pub open spec fn instruction_length_pos(&self) -> int {
        HEADER_LEN + 2 * self.contours()
    }

    pub closed spec fn wf(&self) -> bool {
        &&& self.header.number_of_contours >= 0
        &&& self.data@.len() >= HEADER_LEN + 2 * (self.header.number_of_contours as int) + 2
        &&& GlyphHeader::read_spec(self.data@) == Some(self.header)
    }

    /// Reads a simple glyph: the header, a non-negative contour count, and
    /// the fixed part up to and including the instruction length must fit.
    pub fn read(data: &'a [u8]) -> (r: Option<SimpleGlyph<'a>>)
        ensures
            r is Some <==> data@.len() >= HEADER_LEN && be_i16(data@, 0) >= 0 && data@.len()
                >= HEADER_LEN + 2 * (be_i16(data@, 0) as int) + 2,
            r matches Some(g) ==> g.wf() && g.bytes() == data@ && g.spec_header().number_of_contours
                == be_i16(data@, 0),
    {
        let header = match GlyphHeader::read(data) {
            Some(h) => h,
            None => return None,
        };
        if header.number_of_contours < 0 {
            return None;
        }
        let n = header.number_of_contours as usize;
        if data.len() < HEADER_LEN + 2 * n + 2 {
            return None;
        }
        Some(SimpleGlyph { header, data })
    }

    pub fn header(&self) -> (r: GlyphHeader)
        ensures
            r == self.spec_header(),
    {
        self.header
    }

    /// The last point index of each contour.
    pub fn end_pts_of_contours(&self) -> (r: Vec<u16>)
        requires
            self.wf(),
        ensures
            r@.len() == self.contours(),
            forall|i: int| 0 <= i < r@.len() ==> r@[i] == be_value(self.bytes(), HEADER_LEN + 2 * i, 2),
            r@ == self.end_points(),
    {
        let n = self.header.number_of_contours as usize;
        let mut out: Vec<u16> = Vec::new();
        let mut i: usize = 0;
        while i < n
            invariant
                self.wf(),
                n == self.contours(),
                i <= n,
                out@.len() == i,
                forall|m: int| 0 <= m < i ==> out@[m] == be_value(self.bytes(), HEADER_LEN + 2 * m, 2),
            decreases n - i,
        {
            let v = read_u16(self.data, HEADER_LEN + 2 * i).unwrap();
            out.push(v);
            i = i + 1;
        }
        assert(out@ =~= self.end_points());
        out
    }

    /// The byte length of the instructions.
    pub fn instruction_length(&self) -> (r: u16)
        requires
            self.wf(),
        ensures
            r == be_value(self.bytes(), self.instruction_length_pos(), 2),
    {
        let n = self.header.number_of_contours as usize;
        read_u16(self.data, HEADER_LEN + 2 * n).unwrap()
    }

    /// The instructions; `None` when they run past the end of the glyph.
    pub fn instructions(&self) -> (r: Option<&'a [u8]>)
        requires
            self.wf(),
        ensures
            ({
                let start = self.instruction_length_pos() + 2;
                let end = start + be_value(self.bytes(), self.instruction_length_pos(), 2);
                &&& r is Some <==> end <= self.bytes().len()
                &&& r matches Some(b) ==> b@ == self.bytes().subrange(start, end)
            }),
    {
        let n = self.header.number_of_contours as usize;
        let start = HEADER_LEN + 2 * n + 2;
        let len = self.instruction_length() as usize;
        if len > self.data.len() - start {
            return None;
        }
        Some(&self.data[start..start + len])
    }

    /// The flag and coordinate data: every byte after the instructions.
    pub fn glyph_data(&self) -> (r: Option<&'a [u8]>)
        requires
            self.wf(),
        ensures
            ({
                let start = self.instruction_length_pos() + 2 + be_value(
                    self.bytes(),
                    self.instruction_length_pos(),
                    2,
                );
                &&& r is Some <==> start <= self.bytes().len()
                &&& r matches Some(b) ==> b@ == self.bytes().subrange(start, self.bytes().len() as int)
            }),
    {
        let n = self.header.number_of_contours as usize;
        let start = HEADER_LEN + 2 * n + 2;
        let len = self.instruction_length() as usize;
        if len > self.data.len() - start {
            return None;
        }
        Some(&self.data[start + len..self.data.len()])
    }

    /// The point count, the flag and coordinate data, and the lengths of
    /// its three arrays, when they can be found and fit.
    fn flag_layout(&self) -> (r: Option<(u16, &'a [u8], FieldLengths)>)
        requires
            self.wf(),
        ensures
            r is Some <==> self.layout_exists(),
            r matches Some((n, data, l)) ==> n == self.point_count() && data@ == self.spec_glyph_data() && self.contours() > 0 && l.flags as int + l.x_coords as int
                + l.y_coords as int <= data@.len() && data@.len() <= self.bytes().len()
                && scan_flags(data@, 0, n as nat, 0, 0) == Some(
                (l.flags as int, l.x_coords as nat, l.y_coords as nat),
            ),
    {
        let ends = self.end_pts_of_contours();
        if ends.len() == 0 {
            return None;
        }
        let last = ends[ends.len() - 1];
        if last == u16::MAX {
            return None;
        }
        let data = match self.glyph_data() {
            Some(d) => d,
            None => return None,
        };
        let lens = match resolve_coords_len(data, last + 1) {
            Some(l) => l,
            None => return None,
        };
        proof {
            lemma_scan_bound(data@, 0, (last + 1) as nat, 0, 0);
        }
        if (lens.flags as usize) + (lens.x_coords as usize) + (lens.y_coords as usize) > data.len() {
            return None;
        }
        Some((last + 1, data, lens))
    }

    /// The lengths of the flag, x and y arrays, found by decoding the flags
    /// for every point; `None` when there are no contours, the point count
    /// overflows, the data is truncated, or the arrays do not fit.
    pub fn coordinate_lengths(&self) -> (r: Option<FieldLengths>)
        requires
            self.wf(),
        ensures
            r matches Some(l) ==> self.contours() > 0 && l.flags as int + l.x_coords as int + l.y_coords as int
                <= self.bytes().len(),
    {
        match self.flag_layout() {
            Some((_, _, l)) => Some(l),
            None => None,
        }
    }
}

impl GlyphHeader {
    /// What [`GlyphHeader::read`] returns.
    pub open spec fn read_spec(data: Seq<u8>) -> Option<GlyphHeader> {
        if data.len() >= HEADER_LEN {
            Some(
                GlyphHeader {
                    number_of_contours: be_i16(data, 0),
                    x_min: be_i16(data, 2),
                    y_min: be_i16(data, 4),
                    x_max: be_i16(data, 6),
                    y_max: be_i16(data, 8),
                },
            )
        } else {
            None
        }
    }
}

/// A glyph made of other glyphs: the header, the first component's flags
/// and glyph index, and the rest of the component data.
pub struct CompositeGlyph<'a> {
    header: GlyphHeader,
    data: &'a [u8],
}

/// The length of the fixed part of a composite glyph.
pub const COMPOSITE_PREFIX_LEN: usize = 14;

impl<'a> CompositeGlyph<'a> {
    pub closed spec fn bytes(&self) -> Seq<u8> {
        self.data@
    }

    pub closed spec fn spec_header(&self) -> GlyphHeader {
        self.header
    }

    pub closed spec fn wf(&self) -> bool {
        &&& self.data@.len() >= COMPOSITE_PREFIX_LEN
        &&& GlyphHeader::read_spec(self.data@) == Some(self.header)
    }

    /// Reads a composite glyph; its fixed part must fit.
    pub fn read(data: &'a [u8]) -> (r: Option<CompositeGlyph<'a>>)
        ensures
            r is Some <==> data@.len() >= COMPOSITE_PREFIX_LEN,
            r matches Some(g) ==> g.wf() && g.bytes() == data@,
    {
        if data.len() < COMPOSITE_PREFIX_LEN {
            return None;
        }
        let header = GlyphHeader::read(data).unwrap();
        Some(CompositeGlyph { header, data })
    }

    pub fn header(&self) -> (r: GlyphHeader)
        ensures
            r == self.spec_header(),
    {
        self.header
    }

    /// The flags of the first component.
    pub fn flags(&self) -> (r: u16)
        requires
            self.wf(),
        ensures
            r == be_value(self.bytes(), 10, 2),
    {
        read_u16(self.data, 10).unwrap()
    }

    /// The glyph index of the first component.
    pub fn glyph_index(&self) -> (r: u16)
        requires
            self.wf(),
        ensures
            r == be_value(self.bytes(), 12, 2),
    {
        read_u16(self.data, 12).unwrap()
    }

    /// The component data after the first glyph index.
    pub fn offset_data(&self) -> (r: &'a [u8])
        requires
            self.wf(),
        ensures
            r@ == self.bytes().subrange(COMPOSITE_PREFIX_LEN as int, self.bytes().len() as int),
    {
        &self.data[COMPOSITE_PREFIX_LEN..self.data.len()]
    }
}

/// A glyph: simple when its contour count is non-negative, composite when
/// it is negative.
pub enum Glyph<'a> {
    Simple(SimpleGlyph<'a>),
    Composite(CompositeGlyph<'a>),
}

impl<'a> Glyph<'a> {
    pub open spec fn spec_header(&self) -> GlyphHeader {
        match self {
            Glyph::Simple(g) => g.spec_header(),
            Glyph::Composite(g) => g.spec_header(),
        }
    }

    /// Reads the contour count and builds the matching variant from the
    /// same bytes; `None` when that variant does not fit.
    pub fn read(data: &'a [u8]) -> (r: Option<Glyph<'a>>)
        ensures
            data@.len() < HEADER_LEN ==> r is None,
            data@.len() >= HEADER_LEN && be_i16(data@, 0) >= 0 ==> (r is Some <==> data@.len()
                >= HEADER_LEN + 2 * (be_i16(data@, 0) as int) + 2) && (r is Some ==> r->0 is Simple),
            data@.len() >= HEADER_LEN && be_i16(data@, 0) < 0 ==> (r is Some <==> data@.len()
                >= COMPOSITE_PREFIX_LEN) && (r is Some ==> r->0 is Composite),
            r matches Some(g) ==> GlyphHeader::read_spec(data@) == Some(g.spec_header()),
    {
        let n = match read_i16(data, 0) {
            Some(n) => n,
            None => return None,
        };
        if data.len() < HEADER_LEN {
            return None;
        }
        if n >= 0 {
            match SimpleGlyph::read(data) {
                Some(g) => Some(Glyph::Simple(g)),
                None => None,
            }
        } else {
            match CompositeGlyph::read(data) {
                Some(g) => Some(Glyph::Composite(g)),
                None => None,
            }
        }
    }

    fn header(&self) -> (r: GlyphHeader)
        ensures
            r == self.spec_header(),
    {
        match self {
            Glyph::Simple(g) => g.header(),
            Glyph::Composite(g) => g.header(),
        }
    }

    pub fn number_of_contours(&self) -> (r: i16)
        ensures
            r == self.spec_header().number_of_contours,
    {
        self.header().number_of_contours
    }

    pub fn x_min(&self) -> (r: i16)
        ensures
            r == self.spec_header().x_min,
    {
        self.header().x_min
    }

    pub fn y_min(&self) -> (r: i16)
        ensures
            r == self.spec_header().y_min,
    {
        self.header().y_min
    }

    pub fn x_max(&self) -> (r: i16)
        ensures
            r == self.spec_header().x_max,
    {
        self.header().x_max
    }

    pub fn y_max(&self) -> (r: i16)
        ensures
            r == self.spec_header().y_max,
    {
        self.header().y_max
    }
}

/// The glyph data table: glyphs are found at offsets from its start.
pub struct Glyf<'a> {
    data: &'a [u8],
}

impl<'a> Glyf<'a> {
    pub closed spec fn bytes(&self) -> Seq<u8> {
        self.data@
    }

    pub fn read(data: &'a [u8]) -> (r: Glyf<'a>)
        ensures
            r.bytes() == data@,
    {
        Glyf { data }
    }

    /// The glyph at `offset`; `None` for a null offset, one past the end,
    /// or bytes that do not read as a glyph.
    pub fn resolve_glyph(&self, offset: Offset32) -> (r: Option<Glyph<'a>>)
        ensures
            offset.0 == 0 ==> r is None,
            offset.0 > self.bytes().len() ==> r is None,
            r matches Some(g) ==> GlyphHeader::read_spec(
                self.bytes().subrange(offset.0 as int, self.bytes().len() as int),
            ) == Some(g.spec_header()),
            0 < offset.0 <= self.bytes().len() ==> {
                let sub = self.bytes().subrange(offset.0 as int, self.bytes().len() as int);
                &&& (sub.len() < HEADER_LEN ==> r is None)
                &&& (sub.len() >= HEADER_LEN && be_i16(sub, 0) >= 0 ==> (r is Some <==> sub.len() >= HEADER_LEN
                    + 2 * (be_i16(sub, 0) as int) + 2) && (r is Some ==> r->0 is Simple))
                &&& (sub.len() >= HEADER_LEN && be_i16(sub, 0) < 0 ==> (r is Some <==> sub.len()
                    >= COMPOSITE_PREFIX_LEN) && (r is Some ==> r->0 is Composite))
            },
    {
        let off = match offset.non_null() {
            Some(o) => o,
            None => return None,
        };
        if off > self.data.len() {
            return None;
        }
        Glyph::read(&self.data[off..self.data.len()])
    }
}

/// The flag of every point, with each repeat run written out: a flag with
/// the repeat bit stands for itself and the count of copies after it.
pub open spec fn expand_flags(data: Seq<u8>, pos: int, left: nat) -> Seq<u8>
    decreases left,
{
    if left == 0 || !(0 <= pos < data.len()) {
        Seq::empty()
    } else {
        let f = data[pos];
        if f & REPEAT_FLAG != 0 {
            if pos + 1 >= data.len() {
                Seq::empty()
            } else {
                let run = data[pos + 1] as nat + 1;
                if run > left {
                    Seq::empty()
                } else {
                    Seq::new(run, |i: int| f) + expand_flags(data, pos + 2, (left - run) as nat)
                }
            }
        } else {
            seq![f] + expand_flags(data, pos + 1, (left - 1) as nat)
        }
    }
}

/// Writes out the flags of `points` points from the packed stream.
fn expand_flags_exec(data: &[u8], points: u16) -> (r: Vec<u8>)
    ensures
        r@ == expand_flags(data@, 0, points as nat),
{
    let mut out: Vec<u8> = Vec::new();
    let mut pos: usize = 0;
    let mut left: u32 = points as u32;
    while left > 0
        invariant
            left <= points,
            pos <= 2 * (points - left),
            out@ + expand_flags(data@, pos as int, left as nat) == expand_flags(data@, 0, points as nat),
        decreases left,
    {
        let f = match read_u8(data, pos) {
            Some(f) => f,
            None => {
                assert(out@ + Seq::<u8>::empty() =~= out@);
                return out;
            },
        };
        if f & REPEAT_FLAG != 0 {
            let n = match read_u8(data, pos + 1) {
                Some(n) => n as u32 + 1,
                None => {
                    assert(out@ + Seq::<u8>::empty() =~= out@);
                    return out;
                },
            };
            if n > left {
                assert(out@ + Seq::<u8>::empty() =~= out@);
                return out;
            }
            let ghost before = out@;
            let mut k: u32 = 0;
            while k < n
                invariant
                    k <= n,
                    out@ == before + Seq::new(k as nat, |i: int| f),
                decreases n - k,
            {
                out.push(f);
                k = k + 1;
                assert(out@ =~= before + Seq::new(k as nat, |i: int| f));
            }
            assert(before + (Seq::new(n as nat, |i: int| f) + expand_flags(data@, pos + 2, (left - n) as nat))
                =~= out@ + expand_flags(data@, pos + 2, (left - n) as nat));
            pos = pos + 2;
            left = left - n;
        } else {
            let ghost before = out@;
            out.push(f);
            assert(before + (seq![f] + expand_flags(data@, pos + 1, (left - 1) as nat)) =~= out@
                + expand_flags(data@, pos + 1, (left - 1) as nat));
            pos = pos + 1;
            left = left - 1;
        }
    }
    assert(out@ + Seq::<u8>::empty() =~= out@);
    out
}

/// A point of an outline, in font units.
#[derive(Clone, Copy, Debug, PartialEq, Eq, Structural)]
pub struct Point {
    pub x: i16,
    pub y: i16,
}

/// A point with its role: off or on the curve, or the last of a contour.
#[derive(Clone, Copy, Debug, PartialEq, Eq, Structural)]
pub enum GlyphPoint {
    OffCurve(Point),
    OnCurve(Point),
    End(Point),
}

/// `x + d`, wrapped into 16 bits; `d` is at most one 16-bit step away.
pub open spec fn wrap_add(x: i16, d: int) -> i16 {
    let s = x as int + d;
    if s > 0x7FFF {
        (s - 0x10000) as i16
    } else if s < -0x8000 {
        (s + 0x10000) as i16
    } else {
        s as i16
    }
}

fn wrap_add_exec(x: i16, d: i32) -> (r: i16)
    requires
        -0x8000 <= d <= 0x7FFF,
    ensures
        r == wrap_add(x, d as int),
{
    let s: i32 = x as i32 + d;
    if s > 0x7FFF {
        (s - 0x10000) as i16
    } else if s < -0x8000 {
        (s + 0x10000) as i16
    } else {
        s as i16
    }
}

/// The change of one coordinate for a point with flag `f`, read at `pos`,
/// and the number of bytes it takes: a short value is one byte whose sign
/// the `same` bit gives; a long one is a signed 16-bit value unless the
/// `same` bit says it repeats. Missing bytes count as zero and are not
/// consumed.
pub open spec fn coord_step(d: Seq<u8>, pos: int, f: u8, short: u8, same: u8) -> (int, int) {
    if f & short != 0 {
        if 0 <= pos < d.len() {
            (if f & same != 0 {
                d[pos] as int
            } else {
                -(d[pos] as int)
            }, 1)
        } else {
            (0, 0)
        }
    } else if f & same != 0 {
        (0, 0)
    } else if 0 <= pos && pos + 2 <= d.len() {
        (be_i16(d, pos) as int, 2)
    } else {
        (0, 0)
    }
}

fn coord_step_exec(cursor: &mut Cursor, f: u8, short: u8, same: u8) -> (r: i32)
    ensures
        final(cursor).bytes() == old(cursor).bytes(),
        ({
            let (delta, w) = coord_step(old(cursor).bytes(), old(cursor).spec_pos() as int, f, short, same);
            r == delta && final(cursor).spec_pos() == old(cursor).spec_pos() + w
        }),
        -0x8000 <= r <= 0x7FFF,
{
    if f & short != 0 {
        match cursor.bump_u8() {
            Some(b) => if f & same != 0 {
                b as i32
            } else {
                -(b as i32)
            },
            None => 0,
        }
    } else if f & same != 0 {
        0
    } else {
        match cursor.bump_i16() {
            Some(v) => v as i32,
            None => 0,
        }
    }
}

/// The points from point `i` on: each takes its flag, moves the position
/// by the coordinate steps, and is the end of a contour when it reaches the
/// next end point, which is then passed.
pub open spec fn points_from(
    ends: Seq<u16>,
    flags: Seq<u8>,
    xd: Seq<u8>,
    yd: Seq<u8>,
    e: int,
    i: int,
    xpos: int,
    ypos: int,
    x: i16,
    y: i16,
) -> Seq<GlyphPoint>
    decreases flags.len() - i,
{
    if e < 0 || e >= ends.len() || i < 0 || i >= flags.len() {
        Seq::empty()
    } else {
        let f = flags[i];
        let is_end = ends[e] <= i;
        let (dx, wx) = coord_step(xd, xpos, f, X_SHORT_VECTOR, X_IS_SAME_OR_POSITIVE_X_SHORT_VECTOR);
        let (dy, wy) = coord_step(yd, ypos, f, Y_SHORT_VECTOR, Y_IS_SAME_OR_POSITIVE_Y_SHORT_VECTOR);
        let nx = wrap_add(x, dx);
        let ny = wrap_add(y, dy);
        let p = Point { x: nx, y: ny };
        let gp = if is_end {
            GlyphPoint::End(p)
        } else if f & ON_CURVE_POINT != 0 {
            GlyphPoint::OnCurve(p)
        } else {
            GlyphPoint::OffCurve(p)
        };
        seq![gp] + points_from(
            ends,
            flags,
            xd,
            yd,
            if is_end {
                e + 1
            } else {
                e
            },
            i + 1,
            xpos + wx,
            ypos + wy,
            nx,
            ny,
        )
    }
}

impl<'a> SimpleGlyph<'a> {
    /// The points of the outline, in order, each with its role. Empty when
    /// the flag and coordinate arrays cannot be found.
    pub fn iter_points(&self) -> (r: Vec<GlyphPoint>)
        requires
            self.wf(),
        ensures
            r@ == (if self.layout_exists() {
                self.outline()
            } else {
                Seq::empty()
            }),
    {
        match self.points_impl() {
            Some(v) => v,
            None => Vec::new(),
        }
    }

    fn points_impl(&self) -> (r: Option<Vec<GlyphPoint>>)
        requires
            self.wf(),
        ensures
            r is Some <==> self.layout_exists(),
            r matches Some(v) ==> v@ == self.outline(),
    {
        let (n, data, lens) = match self.flag_layout() {
            Some(t) => t,
            None => return None,
        };
        let ends = self.end_pts_of_contours();
        let flags = expand_flags_exec(data, n);
        let size = data.len();
        let fl = lens.flags as usize;
        let xl = lens.x_coords as usize;
        assert(fl + xl <= size);
        let x_data = &data[fl..fl + xl];
        let y_data = &data[fl + xl..data.len()];
        Some(points(&ends, &flags, x_data, y_data))
    }
}

/// The points of an outline from its end points, its written-out flags and
/// its x and y coordinate bytes.
pub fn points(ends: &Vec<u16>, flags: &Vec<u8>, x_data: &[u8], y_data: &[u8]) -> (r: Vec<GlyphPoint>)
    ensures
        r@ == points_from(ends@, flags@, x_data@, y_data@, 0, 0, 0, 0, 0, 0),
{
    let mut out: Vec<GlyphPoint> = Vec::new();
    let mut xs = Cursor::new(x_data);
    let mut ys = Cursor::new(y_data);
    let mut e: usize = 0;
    let mut i: usize = 0;
    let mut x: i16 = 0;
    let mut y: i16 = 0;
    while e < ends.len() && i < flags.len()
        invariant
            e <= ends@.len(),
            i <= flags@.len(),
            xs.bytes() == x_data@,
            ys.bytes() == y_data@,
            out@ + points_from(
                ends@,
                flags@,
                x_data@,
                y_data@,
                e as int,
                i as int,
                xs.spec_pos() as int,
                ys.spec_pos() as int,
                x,
                y,
            ) == points_from(ends@, flags@, x_data@, y_data@, 0, 0, 0, 0, 0, 0),
        decreases flags@.len() - i,
    {
        let f = flags[i];
        let is_end = ends[e] as usize <= i;
        let dx = coord_step_exec(&mut xs, f, X_SHORT_VECTOR, X_IS_SAME_OR_POSITIVE_X_SHORT_VECTOR);
        let dy = coord_step_exec(&mut ys, f, Y_SHORT_VECTOR, Y_IS_SAME_OR_POSITIVE_Y_SHORT_VECTOR);
        x = wrap_add_exec(x, dx);
        y = wrap_add_exec(y, dy);
        let p = Point { x, y };
        let gp = if is_end {
            GlyphPoint::End(p)
        } else if f & ON_CURVE_POINT != 0 {
            GlyphPoint::OnCurve(p)
        } else {
            GlyphPoint::OffCurve(p)
        };
        let ghost before = out@;
        out.push(gp);
        if is_end {
            e = e + 1;
        }
        i = i + 1;
        assert(before + (seq![gp] + points_from(
            ends@,
            flags@,
            x_data@,
            y_data@,
            e as int,
            i as int,
            xs.spec_pos() as int,
            ys.spec_pos() as int,
            x,
            y,
        )) =~= out@ + points_from(
            ends@,
            flags@,
            x_data@,
            y_data@,
            e as int,
            i as int,
            xs.spec_pos() as int,
            ys.spec_pos() as int,
            x,
            y,
        ));
    }
    assert(out@ + Seq::<GlyphPoint>::empty() =~= out@);
    out
}

/// A slice of bytes and a position in it, for reading one value after
/// another.
pub struct Cursor<'a> {
    data: &'a [u8],
    pos: usize,
}

impl<'a> Cursor<'a> {
    pub closed spec fn bytes(&self) -> Seq<u8> {
        self.data@
    }

    pub closed spec fn spec_pos(&self) -> nat {
        self.pos as nat
    }

    pub fn new(data: &'a [u8]) -> (r: Cursor<'a>)
        ensures
            r.bytes() == data@,
            r.spec_pos() == 0,
    {
        Cursor { data, pos: 0 }
    }

    /// The position of the next read.
    pub fn pos(&self) -> (r: usize)
        ensures
            r == self.spec_pos(),
    {
        self.pos
    }

    /// Reads a byte and moves past it; `None`, without moving, at the end.
    pub fn bump_u8(&mut self) -> (r: Option<u8>)
        ensures
            final(self).bytes() == old(self).bytes(),
            r == (if old(self).spec_pos() < old(self).bytes().len() {
                Some(old(self).bytes()[old(self).spec_pos() as int])
            } else {
                None::<u8>
            }),
            final(self).spec_pos() == old(self).spec_pos() + (if r is Some {
                1nat
            } else {
                0nat
            }),
    {
        if self.pos < self.data.len() {
            let b = self.data[self.pos];
            self.pos = self.pos + 1;
            Some(b)
        } else {
            None
        }
    }

    /// Reads a big-endian `i16` and moves past it; `None`, without moving,
    /// when fewer than two bytes are left.
    pub fn bump_i16(&mut self) -> (r: Option<i16>)
        ensures
            final(self).bytes() == old(self).bytes(),
            r == (if old(self).spec_pos() + 2 <= old(self).bytes().len() {
                Some(be_i16(old(self).bytes(), old(self).spec_pos() as int))
            } else {
                None::<i16>
            }),
            final(self).spec_pos() == old(self).spec_pos() + (if r is Some {
                2nat
            } else {
                0nat
            }),
    {
        if self.pos <= self.data.len() && self.data.len() - self.pos >= 2 {
            let v = read_i16(self.data, self.pos).unwrap();
            self.pos = self.pos + 2;
            Some(v)
        } else {
            None
        }
    }
}

} // verus!
