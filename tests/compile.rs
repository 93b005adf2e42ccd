use font_tables::compile::{dump_table, ObjectStore, Table, TableWriter};
use font_tables::graph::{dump, write_offset, DumpError, Graph, ObjectId, OffsetRecord, TableData};
use font_tables::offset::OffsetData;
use font_tables::offsets::{NullableOffsetMarker, OffsetMarker};
use font_tables::scalar::{Offset16, Offset24, Offset32, OffsetLen};

struct Table1 {
    version: u16,
    records: Vec<SomeRecord>,
}

struct SomeRecord {
    value: u16,
    offset: Table2,
}

struct Table0 {
    version: u16,
    offsets: Vec<Table0a>,
}

struct Table0a {
    version: u16,
    offset: Table2,
}

struct Table2 {
    version: u16,
    bigness: u16,
}

impl Table for Table2 {
    fn describe(&self, writer: &mut TableWriter) {
        writer.write(self.version);
        writer.write(self.bigness);
    }
}

impl Table for Table1 {
    fn describe(&self, writer: &mut TableWriter) {
        writer.write(self.version);
        for record in &self.records {
            writer.write(record.value);
            writer.write_offset0::<Offset16, _>(&record.offset);
        }
    }
}

impl Table for Table0 {
    fn describe(&self, writer: &mut TableWriter) {
        writer.write(self.version);
        for offset in &self.offsets {
            writer.write_offset0::<Offset16, _>(offset);
        }
    }
}

impl Table for Table0a {
    fn describe(&self, writer: &mut TableWriter) {
        writer.write(self.version);
        writer.write_offset0::<Offset16, _>(&self.offset);
    }
}

#[test]
fn simple_dedup() {
    let table = Table1 {
        version: 0xffff,
        records: vec![
            SomeRecord {
                value: 0x1010,
                offset: Table2 {
                    version: 0x2020,
                    bigness: 0x3030,
                },
            },
            SomeRecord {
                value: 0x4040,
                offset: Table2 {
                    version: 0x5050,
                    bigness: 0x6060,
                },
            },
            SomeRecord {
                value: 0x6969,
                offset: Table2 {
                    version: 0x2020,
                    bigness: 0x3030,
                },
            },
        ],
    };

    let bytes = dump_table(&table).unwrap();
    assert_eq!(
        bytes.as_slice(),
        &[
            0xff, 0xff, //
            0x10, 0x10, //
            0x00, 0x12, // 18
            0x40, 0x40, //
            0x00, 0x0e, // 14
            0x69, 0x69, //
            0x00, 0x12, // 18
            0x50, 0x50, //
            0x60, 0x60, //
            0x20, 0x20, //
            0x30, 0x30,
        ]
    );
}

#[test]
fn sibling_dedup() {
    let table = Table0 {
        version: 0xffff,
        offsets: vec![
            Table0a {
                version: 0xa1a1,
                offset: Table2 {
                    version: 0x2020,
                    bigness: 0x3030,
                },
            },
            Table0a {
                version: 0xa2a2,
                offset: Table2 {
                    version: 0x2020,
                    bigness: 0x3030,
                },
            },
        ],
    };

    let bytes = dump_table(&table).unwrap();

    assert_eq!(
        bytes.as_slice(),
        &[
            0xff, 0xff, //
            0x00, 0x06, // offset1: 6
            0x00, 0x0a, // offset2: 10
            0xa1, 0xa1, // 0a #1
            0x00, 0x08, // 8
            0xa2, 0xa2, // 0a #2
            0x00, 0x04, // 4
            0x20, 0x20, //
            0x30, 0x30,
        ]
    );
}

struct Blob {
    len: usize,
}

impl Table for Blob {
    fn describe(&self, writer: &mut TableWriter) {
        for i in 0..self.len {
            writer.write((i % 251) as u8);
        }
    }
}

struct TwoOffsets<W> {
    small: Table2,
    big: Blob,
    width: std::marker::PhantomData<W>,
}

impl<W: font_tables::scalar::Offset> Table for TwoOffsets<W> {
    fn describe(&self, writer: &mut TableWriter) {
        writer.write_offset0::<W, _>(&self.big);
        writer.write_offset0::<W, _>(&self.small);
    }
}

#[test]
fn offset16_overflow_is_an_error() {
    // the big table is laid out between the root and the small one, so the
    // second offset has to reach past all of it
    let table = TwoOffsets::<Offset16> {
        small: Table2 { version: 1, bigness: 2 },
        big: Blob { len: 70_000 },
        width: std::marker::PhantomData,
    };
    assert_eq!(dump_table(&table), Err(DumpError::OffsetOverflow));
}

#[test]
fn offset32_reaches_past_a_big_table() {
    let table = TwoOffsets::<Offset32> {
        small: Table2 { version: 1, bigness: 2 },
        big: Blob { len: 70_000 },
        width: std::marker::PhantomData,
    };
    let bytes = dump_table(&table).unwrap();
    assert_eq!(bytes.len(), 8 + 70_000 + 4);
    assert_eq!(&bytes[0..4], &[0, 0, 0, 8]);
    assert_eq!(&bytes[4..8], &[0, 1, 0x11, 0x78]); // 8 + 70000 = 70008
    assert_eq!(&bytes[70_008..], &[0, 1, 0, 2]);
}

#[test]
fn offset16_just_fits() {
    // root (4 bytes) + blob: the small table starts at 4 + len
    let table = TwoOffsets::<Offset16> {
        small: Table2 { version: 1, bigness: 2 },
        big: Blob { len: 0xFFFF - 4 },
        width: std::marker::PhantomData,
    };
    let bytes = dump_table(&table).unwrap();
    assert_eq!(&bytes[0..4], &[0x00, 0x04, 0xFF, 0xFF]);
}

struct Maybe {
    child: NullableOffsetMarker<Offset16, Table2>,
    required: OffsetMarker<Offset24, Table2>,
}

impl Table for Maybe {
    fn describe(&self, writer: &mut TableWriter) {
        writer.write(0xABCDu16);
        self.child.write_into(writer);
        self.required.write_into(writer);
    }
}

#[test]
fn null_offsets_are_zero_bytes() {
    let table = Maybe {
        child: NullableOffsetMarker::new(None),
        required: OffsetMarker::new_maybe_null(None),
    };
    let bytes = dump_table(&table).unwrap();
    assert_eq!(bytes, vec![0xAB, 0xCD, 0, 0, 0, 0, 0]);
    let data = OffsetData::new(&bytes, 0);
    assert!(data.bytes_at_offset(Offset16::new(0)).is_none());
}

#[test]
fn present_offsets_point_past_the_root() {
    let table = Maybe {
        child: NullableOffsetMarker::new(Some(Table2 { version: 7, bigness: 8 })),
        required: OffsetMarker::new(Table2 { version: 7, bigness: 8 }),
    };
    let bytes = dump_table(&table).unwrap();
    // identical children are stored once; both offsets point at it
    assert_eq!(bytes, vec![0xAB, 0xCD, 0, 7, 0, 0, 7, 0, 7, 0, 8]);
}

#[test]
fn dedup_keeps_one_copy() {
    let table = Table0 {
        version: 1,
        offsets: vec![
            Table0a { version: 2, offset: Table2 { version: 9, bigness: 9 } },
            Table0a { version: 2, offset: Table2 { version: 9, bigness: 9 } },
        ],
    };
    let bytes = dump_table(&table).unwrap();
    // the two identical records are themselves one node
    assert_eq!(bytes, vec![0, 1, 0, 6, 0, 6, 0, 2, 0, 4, 0, 9, 0, 9]);
}

#[test]
fn store_interns_identical_nodes() {
    let mut store = ObjectStore::new();
    let a = store.add(TableData { bytes: vec![1, 2], offsets: vec![] });
    let b = store.add(TableData { bytes: vec![3], offsets: vec![] });
    let c = store.add(TableData { bytes: vec![1, 2], offsets: vec![] });
    assert_eq!(a, c);
    assert_ne!(a, b);
    assert_eq!(store.nodes.len(), 2);
}

#[test]
fn write_offset_checks_width() {
    let mut out = vec![0u8; 4];
    assert_eq!(write_offset(&mut out, 1, OffsetLen::Offset24, 0x123456), Ok(()));
    assert_eq!(out, vec![0, 0x12, 0x34, 0x56]);
    assert_eq!(
        write_offset(&mut out, 0, OffsetLen::Offset24, 0x1000000),
        Err(DumpError::OffsetOverflow)
    );
    assert_eq!(out, vec![0, 0x12, 0x34, 0x56]);
    assert_eq!(write_offset(&mut out, 0, OffsetLen::Offset16, 0x10000), Err(DumpError::OffsetOverflow));
}

#[test]
fn dump_lays_out_a_graph() {
    let graph = Graph {
        nodes: vec![
            TableData { bytes: vec![0xEE], offsets: vec![] },
            TableData {
                bytes: vec![0x01, 0, 0],
                offsets: vec![OffsetRecord { pos: 1, len: OffsetLen::Offset16, object: ObjectId(0) }],
            },
        ],
    };
    assert_eq!(dump(&graph, ObjectId(1)), Ok(vec![0x01, 0, 3, 0xEE]));
}

#[test]
fn writer_end_table_at_root_does_nothing() {
    let mut writer = TableWriter::new();
    writer.write(5u16);
    assert!(writer.end_table(OffsetLen::Offset16).is_none());
    writer.begin_table();
    writer.write(6u8);
    assert!(writer.end_table(OffsetLen::Offset32).is_some());
    assert_eq!(writer.dump(), Ok(vec![0, 5, 0, 0, 0, 6, 6]));
}

#[test]
fn missing_required_offsets_are_counted() {
    let mut writer = TableWriter::new();
    let required: OffsetMarker<Offset16, Table2> = OffsetMarker::new_maybe_null(None);
    let optional: NullableOffsetMarker<Offset16, Table2> = NullableOffsetMarker::new(None);
    required.write_into(&mut writer);
    optional.write_into(&mut writer);
    assert_eq!(writer.missing_offsets(), 1);
    assert_eq!(writer.dump(), Ok(vec![0, 0, 0, 0]));
}
