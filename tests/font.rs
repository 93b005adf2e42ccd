use font_tables::cmap::{wrapping_add_delta, Cmap0, Cmap4};
use font_tables::font::{FontRef, TableProvider, Tag};
use font_tables::gdef::{CaretValue, ClassDef, Gdef, GdefBuilder, LigCaretListBuilder};
use font_tables::layout::CoverageTable;
use font_tables::offset::{resolve_range, FontRead, OffsetData, OffsetHost};
use font_tables::scalar::{read_u16, read_u24, read_u32, Offset16, Offset24, Offset32, Offset, Uint24};

fn font_bytes() -> Vec<u8> {
    let mut b = vec![
        0x00, 0x01, 0x00, 0x00, // version
        0x00, 0x02, // two tables
        0x00, 0x20, 0x00, 0x01, 0x00, 0x00, // search fields
    ];
    // GDEF at 44, 12 bytes
    b.extend([b'G', b'D', b'E', b'F', 0, 0, 0, 0, 0, 0, 0, 44, 0, 0, 0, 12]);
    // glyf at 56, 4 bytes
    b.extend([b'g', b'l', b'y', b'f', 0, 0, 0, 0, 0, 0, 0, 56, 0, 0, 0, 4]);
    b.extend([0x00, 0x01, 0x00, 0x00, 0, 0, 0, 0, 0, 0, 0, 0]);
    b.extend([1, 2, 3, 4]);
    b
}

#[test]
fn font_ref_finds_tables() {
    let bytes = font_bytes();
    let font = FontRef::new(&bytes).unwrap();
    assert_eq!(font.num_tables(), 2);
    assert_eq!(font.table_data(Tag::new(b"glyf")), Some(&[1u8, 2, 3, 4][..]));
    assert_eq!(font.table_data(Tag::new(b"GDEF")).unwrap().len(), 12);
    assert!(font.table_data(Tag::new(b"head")).is_none());
    assert!(font.glyf().is_some());
    assert_eq!(font.table_record(1), Some((Tag::new(b"glyf"), 56, 4)));
    assert_eq!(font.table_record(2), None);
    let gdef = font.gdef().unwrap();
    assert!(gdef.glyph_class_def().is_none());
}

#[test]
fn font_ref_rejects_bad_headers() {
    let mut bytes = font_bytes();
    bytes[0] = 0x7F;
    assert_eq!(FontRef::new(&bytes).err(), Some(0x7F01_0000));
    assert_eq!(FontRef::new(&bytes[..20]).err(), Some(0xdead_beef));
}

#[test]
fn table_range_outside_the_file_is_absent() {
    let mut bytes = font_bytes();
    bytes.truncate(58);
    let font = FontRef::new(&bytes).unwrap();
    assert!(font.table_data(Tag::new(b"glyf")).is_none());
}

fn cmap4_bytes() -> Vec<u8> {
    vec![
        0x00, 0x04, 0x00, 0x20, 0x00, 0x00, // format, length, language
        0x00, 0x04, 0x00, 0x04, 0x00, 0x01, 0x00, 0x00, // seg count x2 = 4, search fields
        0x00, 0x43, 0xFF, 0xFF, // end codes
        0x00, 0x00, // pad
        0x00, 0x41, 0xFF, 0xFF, // start codes
        0xFF, 0xC0, 0x00, 0x01, // deltas: -64, 1
        0x00, 0x00, 0x00, 0x00, // range offsets
    ]
}

#[test]
fn cmap4_reverse_maps_glyphs_to_chars() {
    let bytes = cmap4_bytes();
    let cmap = Cmap4::read(&bytes).unwrap();
    let map = cmap.reverse();
    assert_eq!(map.len(), 3);
    assert_eq!(map.get(&1), Some(&'A'));
    assert_eq!(map.get(&2), Some(&'B'));
    assert_eq!(map.get(&3), Some(&'C'));
    assert!(Cmap4::read(&bytes[..30]).is_none());
}

#[test]
fn cmap4_reverse_through_glyph_array() {
    let mut bytes = cmap4_bytes();
    // first segment: no delta, range offset 4, so code c reads entry c - 0x41
    bytes[24] = 0x00;
    bytes[25] = 0x00;
    bytes[28] = 0x00;
    bytes[29] = 0x04;
    bytes.extend([0x00, 0x07, 0x00, 0x00, 0x00, 0x09]);
    let map = Cmap4::read(&bytes).unwrap().reverse();
    assert_eq!(map.len(), 3);
    assert_eq!(map.get(&7), Some(&'A'));
    assert_eq!(map.get(&0), Some(&'B'));
    assert_eq!(map.get(&9), Some(&'C'));
}

#[test]
fn add_delta_clamps_and_wraps() {
    assert_eq!(wrapping_add_delta(10, -20), 0);
    assert_eq!(wrapping_add_delta(10, 5), 15);
    assert_eq!(wrapping_add_delta(0xFFFF, 1), 1);
    assert_eq!(wrapping_add_delta(0xFFFE, 0), 0xFFFE);
}

#[test]
fn gdef_versions_dispatch() {
    let mut bytes = vec![0x00, 0x01, 0x00, 0x00, 0x00, 0x0C, 0, 0, 0, 0, 0, 0];
    bytes.extend([0x00, 0x01, 0x00, 0x05, 0x00, 0x01, 0x00, 0x01]);
    let gdef = Gdef::read(&bytes).unwrap();
    assert!(matches!(gdef, Gdef::Gdef1_0(_)));
    assert!(matches!(gdef.glyph_class_def(), Some(ClassDef::Format1(_))));
    assert!(gdef.attach_list().is_none());
    assert!(gdef.mark_glyph_sets_def().is_none());
    assert!(gdef.mark_glyph_sets_def_offset().is_none());

    bytes[3] = 2;
    let gdef = Gdef::read(&bytes).unwrap();
    assert!(matches!(gdef, Gdef::Gdef1_2(_)));
    assert_eq!(gdef.mark_glyph_sets_def_offset(), Some(Offset16::new(1)));

    bytes[3] = 1;
    assert!(Gdef::read(&bytes).is_none());
    assert!(Gdef::read(&bytes[..11]).is_none());
}

#[test]
fn gdef_builder_writes_header_and_subtables() {
    let mut builder = GdefBuilder::new();
    builder.set_glyph_class_def(&CoverageTable::Format1 { glyphs: vec![4] });
    let bytes = builder.build().unwrap();
    assert_eq!(
        bytes,
        vec![0, 1, 0, 0, 0, 12, 0, 0, 0, 0, 0, 0, 0, 1, 0, 1, 0, 4]
    );
    let empty = GdefBuilder::new().build().unwrap();
    assert_eq!(empty, vec![0, 1, 0, 0, 0, 0, 0, 0, 0, 0, 0, 0]);
    let gdef = Gdef::read(&empty).unwrap();
    assert!(gdef.glyph_class_def().is_none());
    assert!(gdef.mark_attach_class_def().is_none());
}

#[test]
fn offsets_resolve_relative_to_the_table() {
    let bytes = [0, 0, 0, 0, 9, 8, 7];
    let data = OffsetData::new(&bytes[2..], 2);
    assert_eq!(data.bytes_at_offset(Offset16::new(4)), Some(&[9u8, 8, 7][..]));
    assert!(data.bytes_at_offset(Offset16::new(1)).is_none());
    assert!(data.bytes_at_offset(Offset16::new(0)).is_none());
    assert!(data.bytes_at_offset(Offset16::new(8)).is_none());
    assert_eq!(data.get(4, Some(6)), Some(&[9u8, 8][..]));
    assert_eq!(data.get(4, None), Some(&[9u8, 8, 7][..]));
    assert!(data.get(4, Some(9)).is_none());
    assert_eq!(resolve_range(0, None, 2, 5), (0, 5));
    assert_eq!(resolve_range(7, None, 2, 3), (5, 5));
}

#[test]
fn offsets_non_null() {
    assert_eq!(Offset16::new(0).non_null(), None);
    assert_eq!(Offset16::new(12).non_null(), Some(12));
    assert_eq!(Offset24::new(Uint24::checked_new(0x10000).unwrap()).non_null(), Some(0x10000));
    assert_eq!(Offset32::new(0).non_null(), None);
    assert!(Uint24::checked_new(0x1000000).is_none());
}

#[test]
fn scalar_reads_need_enough_bytes() {
    let data = [0x12, 0x34, 0x56, 0x78];
    assert_eq!(read_u16(&data, 2), Some(0x5678));
    assert_eq!(read_u16(&data, 3), None);
    assert_eq!(read_u24(&data, 1), Some(0x345678));
    assert_eq!(read_u32(&data, 0), Some(0x12345678));
    assert_eq!(read_u32(&data, 1), None);
}

#[test]
fn resolve_offset_reads_the_target() {
    let mut bytes = vec![0x00, 0x01, 0x00, 0x00, 0x00, 0x0C, 0x00, 0x12, 0, 0, 0, 0];
    bytes.extend([0x00, 0x01, 0x00, 0x05, 0x00, 0x01, 0x00, 0x02]);
    let gdef = Gdef::read(&bytes).unwrap();
    let class_def: Option<ClassDef> = gdef.resolve_offset(Offset16::new(12));
    assert!(class_def.is_some());
    let none: Option<ClassDef> = gdef.resolve_offset(Offset16::new(0));
    assert!(none.is_none());
    // the attach list offset points at the last two bytes, too short to read
    assert!(gdef.attach_list().is_none());
    assert_eq!(gdef.bytes_at_offset(Offset16::new(18)), &[0x00, 0x02]);
    assert!(ClassDef::read(&bytes[12..]).is_some());
}

#[test]
fn lig_caret_list_is_sorted_and_replaces() {
    let mut carets = LigCaretListBuilder::new();
    carets.add_lig_glyph(9, vec![CaretValue::Format1 { coordinate: 7 }]);
    carets.add_lig_glyph(
        4,
        vec![CaretValue::Format2 { caret_value_point_index: 3 }, CaretValue::Format1 { coordinate: 50 }],
    );
    carets.add_lig_glyph(9, vec![CaretValue::Format1 { coordinate: 100 }]);
    let mut builder = GdefBuilder::new();
    builder.set_lig_caret_list(&carets);
    let bytes = builder.build().unwrap();
    assert_eq!(
        bytes,
        vec![
            0x00, 0x01, 0x00, 0x00, 0x00, 0x00, 0x00, 0x00, 0x00, 0x0C, 0x00, 0x00, // header
            0x00, 0x08, 0x00, 0x02, 0x00, 0x10, 0x00, 0x1E, // caret list
            0x00, 0x01, 0x00, 0x02, 0x00, 0x04, 0x00, 0x09, // coverage
            0x00, 0x02, 0x00, 0x06, 0x00, 0x0A, // glyph 4
            0x00, 0x02, 0x00, 0x03, // point caret
            0x00, 0x01, 0x00, 0x32, // coordinate caret
            0x00, 0x01, 0x00, 0x04, // glyph 9
            0x00, 0x01, 0x00, 0x64, // coordinate caret
        ]
    );
    let gdef = Gdef::read(&bytes).unwrap();
    assert!(gdef.lig_caret_list().is_some());
}

#[test]
fn cmap0_maps_bytes() {
    let mut bytes = vec![0x00, 0x00, 0x01, 0x06, 0x00, 0x00];
    bytes.extend((0..=255u8).map(|b| b.wrapping_mul(3)));
    let cmap = Cmap0::read(&bytes).unwrap();
    assert_eq!(cmap.glyph_id(0), 0);
    assert_eq!(cmap.glyph_id(10), 30);
    assert_eq!(cmap.glyph_id(255), 253);
    assert!(Cmap0::read(&bytes[..261]).is_none());
}
