//! The font file header: a directory of tagged tables, each found by its
//! absolute offset and length.
use vstd::prelude::*;

use crate::gdef::Gdef;
use crate::glyf::Glyf;
use crate::gpos::Gpos;
use crate::offset::FontRead;
use crate::scalar::{be_value, read_u16, read_u32};

verus! {

/// A four-byte table identifier, compared as a big-endian number.
#[derive(Clone, Copy, Debug, PartialEq, Eq, Structural)]
pub struct Tag(pub u32);

impl Tag {
    /// The tag spelled by four bytes, such as `b"head"`.
    pub fn new(b: &[u8; 4]) -> (r: Tag)
        ensures
            r.0 == b@[0] as nat * 0x1000000 + b@[1] as nat * 0x10000 + b@[2] as nat * 0x100 + b@[3] as nat,
    {
        let v = (b[0] as u32) * 0x1000000 + (b[1] as u32) * 0x10000 + (b[2] as u32) * 0x100 + (b[3] as u32);
        Tag(v)
    }
}

/// The version of a font with TrueType outlines.
pub const TT_MAGIC: u32 = 0x00010000;
/// The version of a font with CFF outlines, `OTTO`.
pub const OT_MAGIC: u32 = 0x4F54544F;
/// The tag `glyf`.
pub const GLYF_TAG: u32 = 0x676C7966;
/// The tag `GDEF`.
pub const GDEF_TAG: u32 = 0x47444546;
/// The tag `GPOS`.
pub const GPOS_TAG: u32 = 0x47504F53;
/// The length of the directory's fixed fields.
pub const DIRECTORY_HEADER_LEN: usize = 12;
/// The length of one table record.
pub const TABLE_RECORD_LEN: usize = 16;

/// The number of tables the directory declares.
pub open spec fn num_tables(data: Seq<u8>) -> nat {
    be_value(data, 4, 2)
}

/// Field `field` (0: tag, 1: checksum, 2: offset, 3: length) of record `i`.
pub open spec fn record_field(data: Seq<u8>, i: int, field: int) -> nat {
    be_value(data, DIRECTORY_HEADER_LEN + TABLE_RECORD_LEN * i + 4 * field, 4)
}

/// The records are in strictly increasing tag order.
pub open spec fn records_sorted(data: Seq<u8>) -> bool {
    forall|i: int, j: int|
        0 <= i < j < num_tables(data) ==> record_field(data, i, 0) < record_field(data, j, 0)
}

/// The table directory at the start of a font file.
pub struct TableDirectory<'a> {
    data: &'a [u8],
}

impl<'a> TableDirectory<'a> {
    pub closed spec fn bytes(&self) -> Seq<u8> {
        self.data@
    }

    pub open spec fn wf(&self) -> bool {
        Self::accepts(self.bytes())
    }

    pub fn sfnt_version(&self) -> (r: u32)
        requires
            self.wf(),
        ensures
            r == be_value(self.bytes(), 0, 4),
    {
        read_u32(self.data, 0).unwrap()
    }

    pub fn num_tables(&self) -> (r: u16)
        requires
            self.wf(),
        ensures
            r == num_tables(self.bytes()),
    {
        read_u16(self.data, 4).unwrap()
    }

    /// Field `field` of record `i`.
    fn record_field(&self, i: usize, field: usize) -> (r: u32)
        requires
            self.wf(),
            i < num_tables(self.bytes()),
            field < 4,
        ensures
            r == record_field(self.bytes(), i as int, field as int),
    {
        let size = self.data.len();
        assert(DIRECTORY_HEADER_LEN + TABLE_RECORD_LEN * i + 4 * field + 4 <= size);
        read_u32(self.data, DIRECTORY_HEADER_LEN + TABLE_RECORD_LEN * i + 4 * field).unwrap()
    }

    /// Finds the record with tag `tag` by binary search over the records,
    /// which the format keeps sorted by tag.
    pub fn find_record(&self, tag: Tag) -> (r: Option<usize>)
        requires
            self.wf(),
        ensures
            r matches Some(i) ==> i < num_tables(self.bytes()) && record_field(self.bytes(), i as int, 0)
                == tag.0,
            records_sorted(self.bytes()) && (exists|i: int|
                0 <= i < num_tables(self.bytes()) && #[trigger] record_field(self.bytes(), i, 0) == tag.0)
                ==> r is Some,
    {
        let mut lo: usize = 0;
        let mut hi: usize = self.num_tables() as usize;
        while lo < hi
            invariant
                self.wf(),
                hi <= num_tables(self.bytes()),
                lo <= hi,
                records_sorted(self.bytes()) ==> forall|i: int|
                    0 <= i < lo ==> #[trigger] record_field(self.bytes(), i, 0) < tag.0,
                records_sorted(self.bytes()) ==> forall|i: int|
                    hi <= i < num_tables(self.bytes()) ==> #[trigger] record_field(self.bytes(), i, 0) > tag.0,
            decreases hi - lo,
        {
            let mid = lo + (hi - lo) / 2;
            let t = self.record_field(mid, 0);
            if t == tag.0 {
                return Some(mid);
            } else if t < tag.0 {
                lo = mid + 1;
            } else {
                hi = mid;
            }
        }
        None
    }
}

impl<'a> FontRead<'a> for TableDirectory<'a> {
    open spec fn view_bytes(&self) -> Seq<u8> {
        self.bytes()
    }

    /// The fixed fields and every declared record fit.
    open spec fn accepts(bytes: Seq<u8>) -> bool {
        &&& bytes.len() >= DIRECTORY_HEADER_LEN
        &&& bytes.len() >= DIRECTORY_HEADER_LEN + TABLE_RECORD_LEN * num_tables(bytes)
    }

    fn read(bytes: &'a [u8]) -> (r: Option<Self>) {
        Self::view_of(bytes)
    }
}

impl<'a> TableDirectory<'a> {
    pub fn view_of(bytes: &'a [u8]) -> (r: Option<TableDirectory<'a>>)
        ensures
            r is Some <==> Self::accepts(bytes@),
            r matches Some(d) ==> d.bytes() == bytes@,
    {
        let n = match read_u16(bytes, 4) {
            Some(n) => n as usize,
            None => return None,
        };
        if bytes.len() < DIRECTORY_HEADER_LEN + TABLE_RECORD_LEN * n {
            return None;
        }
        Some(TableDirectory { data: bytes })
    }
}

/// A font file: its bytes and its table directory.
pub struct FontRef<'a> {
    data: &'a [u8],
    table_directory: TableDirectory<'a>,
}

impl<'a> FontRef<'a> {
    pub closed spec fn bytes(&self) -> Seq<u8> {
        self.data@
    }

    #[verifier::type_invariant]
    closed spec fn wf(&self) -> bool {
        &&& self.table_directory.wf()
        &&& self.table_directory.bytes() == self.data@
    }

    /// The directory's declared table count.
    pub fn num_tables(&self) -> (r: u16)
        ensures
            r == num_tables(self.bytes()),
    {
        proof {
            use_type_invariant(self);
        }
        self.table_directory.num_tables()
    }

    /// Reads the directory of a font file. Fails with `0xdeadbeef` when the
    /// directory does not fit and with the version when it is not a known
    /// font version.
    pub fn new(data: &'a [u8]) -> (r: Result<FontRef<'a>, u32>)
        ensures
            !TableDirectory::accepts(data@) ==> r == Err::<FontRef<'a>, u32>(0xdead_beef),
            TableDirectory::accepts(data@) ==> {
                let v = be_value(data@, 0, 4);
                &&& (v == TT_MAGIC || v == OT_MAGIC) ==> r is Ok
                &&& !(v == TT_MAGIC || v == OT_MAGIC) ==> r == Err::<FontRef<'a>, u32>(v as u32)
            },
            r matches Ok(f) ==> f.bytes() == data@,
    {
        let table_directory = match TableDirectory::view_of(data) {
            Some(d) => d,
            None => return Err(0xdead_beef),
        };
        let version = table_directory.sfnt_version();
        if version == TT_MAGIC || version == OT_MAGIC {
            Ok(FontRef { data, table_directory })
        } else {
            Err(version)
        }
    }

    /// The tag, offset and length of record `i`, if there is one.
    pub fn table_record(&self, i: u16) -> (r: Option<(Tag, u32, u32)>)
        ensures
            r is Some <==> i < num_tables(self.bytes()),
            r matches Some((tag, off, len)) ==> tag.0 == record_field(self.bytes(), i as int, 0) && off
                == record_field(self.bytes(), i as int, 2) && len == record_field(self.bytes(), i as int, 3),
    {
        proof {
            use_type_invariant(self);
        }
        if i >= self.table_directory.num_tables() {
            return None;
        }
        let tag = self.table_directory.record_field(i as usize, 0);
        let off = self.table_directory.record_field(i as usize, 2);
        let len = self.table_directory.record_field(i as usize, 3);
        Some((Tag(tag), off, len))
    }

    /// The bytes of the table with tag `tag`: those its record's offset and
    /// length give. `None` when there is no such record, its offset is null,
    /// or the range is not inside the file.
    pub fn table_data(&self, tag: Tag) -> (r: Option<&'a [u8]>)
        ensures
            r matches Some(b) ==> exists|i: int|
                0 <= i < num_tables(self.bytes()) && #[trigger] record_field(self.bytes(), i, 0) == tag.0 && {
                    let start = record_field(self.bytes(), i, 2);
                    let end = start + record_field(self.bytes(), i, 3);
                    &&& start != 0
                    &&& end <= self.bytes().len()
                    &&& b@ == self.bytes().subrange(start as int, end as int)
                },
            records_sorted(self.bytes()) ==> forall|i: int|
                0 <= i < num_tables(self.bytes()) && #[trigger] record_field(self.bytes(), i, 0) == tag.0
                    ==> (r is Some <==> {
                    let start = record_field(self.bytes(), i, 2);
                    let end = start + record_field(self.bytes(), i, 3);
                    start != 0 && end <= self.bytes().len()
                }),
    {
        proof {
            use_type_invariant(self);
        }
        let i = match self.table_directory.find_record(tag) {
            Some(i) => i,
            None => return None,
        };
        proof {
            if records_sorted(self.bytes()) {
                assert forall|k: int|
                    0 <= k < num_tables(self.bytes()) && #[trigger] record_field(self.bytes(), k, 0) == tag.0
                        implies k == i by {
                    if k < i {
                        assert(record_field(self.bytes(), k, 0) < record_field(self.bytes(), i as int, 0));
                    }
                    if k > i {
                        assert(record_field(self.bytes(), k, 0) > record_field(self.bytes(), i as int, 0));
                    }
                }
            }
        }
        let start = self.table_directory.record_field(i, 2) as usize;
        let len = self.table_directory.record_field(i, 3) as usize;
        if start == 0 || start > self.data.len() || len > self.data.len() - start {
            return None;
        }
        Some(&self.data[start..start + len])
    }
}

/// Access to the tables of a font, or of anything that holds tables by tag.
pub trait TableProvider<'a> {
    /// The bytes of the table with this tag, if there is one.
    fn data_for_tag(&self, tag: Tag) -> Option<&'a [u8]>;

    /// The glyph data table.
    fn glyf(&self) -> (r: Option<Glyf<'a>>) {
        match self.data_for_tag(Tag(GLYF_TAG)) {
            Some(data) => Some(Glyf::read(data)),
            None => None,
        }
    }

    /// The glyph positioning table, when it reads.
    fn gpos(&self) -> (r: Option<Gpos<'a>>) {
        match self.data_for_tag(Tag(GPOS_TAG)) {
            Some(data) => Gpos::read(data),
            None => None,
        }
    }

    /// The glyph definition table, when it reads.
    fn gdef(&self) -> (r: Option<Gdef<'a>>) {
        match self.data_for_tag(Tag(GDEF_TAG)) {
            Some(data) => Gdef::view_of(data),
            None => None,
        }
    }
}

impl<'a> TableProvider<'a> for FontRef<'a> {
    fn data_for_tag(&self, tag: Tag) -> Option<&'a [u8]> {
        self.table_data(tag)
    }
}

} // verus!
