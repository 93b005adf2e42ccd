use std::collections::BTreeSet;
use font_tables::compile::dump_table;
use font_tables::layout::{
    AnchorFormat1, AnchorFormat2, CoverageTable, PairPosFormat1, PositionLookup, PositionLookupList, SinglePos,
    SequenceContextFormat3, SinglePosFormat1, SinglePosFormat2, SequenceLookupRecord, ValueFormat,
    ValueRecord,
};
use font_tables::mark::{
    CursivePosFormat1, MarkArray, MarkBasePosFormat1, MarkLigPosFormat1, MarkMarkPosFormat1, MarkRecord,
};
use font_tables::offsets::OffsetMarker;
use font_tables::subset::{Input, Subset};

#[test]
fn sequencelookuprecord() {
    let bytes = [0x00, 0x01, 0x00, 0x01];
    let table = SequenceLookupRecord::read(&bytes).unwrap();
    assert_eq!(table.sequence_index(), 1);
    assert_eq!(table.lookup_list_index(), 1);
}

#[test]
fn singleposformat1() {
    let bytes = [
        0x00, 0x01, 0x00, 0x08, 0x00, 0x02, 0xFF, 0xB0, 0x00, 0x02, 0x00,
        0x01, 0x01, 0xB3, 0x01, 0xBC, 0x00, 0x00,
    ];

    let table = SinglePosFormat1::read(&bytes).unwrap();
    let dumped = dump_table(&table).unwrap();
    let reloaded = SinglePosFormat1::read(&dumped).unwrap();
    assert_eq!(table.value_format, reloaded.value_format);
    assert_eq!(table.value_record, reloaded.value_record);
    assert_eq!(table.value_record.y_placement, Some(-80));
    let cov1 = table.coverage_offset.get().unwrap();
    let cov2 = reloaded.coverage_offset.get().unwrap();
    assert_eq!(cov1.glyphs(), cov2.glyphs());
    assert_eq!(cov1.glyphs(), (0x1B3..=0x1BC).collect::<Vec<u16>>());

    assert_eq!(&bytes[..], &dumped[..]);
}

#[test]
fn singleposformat2() {
    let bytes = [
        0x00, 0x02, 0x00, 0x14, 0x00, 0x05, 0x00, 0x03, 0x00, 0x32, 0x00,
        0x32, 0x00, 0x19, 0x00, 0x19, 0x00, 0x0A, 0x00, 0x0A, 0x00, 0x01,
        0x00, 0x03, 0x00, 0x4F, 0x01, 0x25, 0x01, 0x29,
    ];

    let table = SinglePosFormat2::read(&bytes).unwrap();
    let dumped = dump_table(&table).unwrap();
    let reloaded = SinglePosFormat2::read(&dumped).unwrap();
    assert_eq!(table.value_format, reloaded.value_format);
    assert_eq!(table.value_records.len(), reloaded.value_records.len());
    assert_eq!(&bytes[..], &dumped[..]);
}

#[test]
fn anchorformat1() {
    let bytes = [0x00, 0x01, 0x00, 0xBD, 0xFF, 0x99];
    let owned = AnchorFormat1::read(&bytes).unwrap();

    assert_eq!(owned.x_coordinate, 189);
    assert_eq!(owned.y_coordinate, -103);
    let dumped = dump_table(&owned).unwrap();

    assert_eq!(&bytes[..], &dumped[..]);
}

#[test]
fn anchorformat2() {
    let bytes = [0x00, 0x02, 0x01, 0x42, 0x03, 0x84, 0x00, 0x0D];
    let owned = AnchorFormat2::read(&bytes).unwrap();
    let dumped = dump_table(&owned).unwrap();

    assert_eq!(&bytes[..], &dumped[..]);
}

#[test]
fn value_format_record_len() {
    assert_eq!(ValueFormat(0x0004).record_byte_len(), 2);
    assert_eq!(ValueFormat(0x0000).record_byte_len(), 0);
    assert_eq!(ValueFormat(0x00FF).record_byte_len(), 16);
    assert_eq!(ValueFormat(0x0005).record_byte_len(), 4);
}

#[test]
fn value_record_reads_present_fields() {
    let bytes = [0x00, 0x0A, 0xFF, 0xF6, 0x77];
    let (rec, rest) = ValueRecord::read(&bytes, ValueFormat(0x0005)).unwrap();
    assert_eq!(rec.x_placement, Some(10));
    assert_eq!(rec.y_placement, None);
    assert_eq!(rec.x_advance, Some(-10));
    assert_eq!(rest, &[0x77]);
    assert!(ValueRecord::read(&bytes[..3], ValueFormat(0x0005)).is_none());
}

#[test]
fn coverage_format2_expands_ranges() {
    let bytes = [0x00, 0x02, 0x00, 0x02, 0x00, 0x05, 0x00, 0x07, 0x00, 0x00, 0x00, 0x0A, 0x00, 0x0A, 0x00, 0x03];
    let cov = CoverageTable::read(&bytes).unwrap();
    assert_eq!(cov.glyphs(), vec![5, 6, 7, 10]);
    assert!(CoverageTable::read(&bytes[..15]).is_none());
    assert!(CoverageTable::read(&[0x00, 0x03, 0x00, 0x00]).is_none());
}

fn record(x: i16) -> ValueRecord {
    ValueRecord {
        x_placement: Some(x),
        y_placement: None,
        x_advance: None,
        y_advance: None,
        x_placement_device: None,
        y_placement_device: None,
        x_advance_device: None,
        y_advance_device: None,
    }
}

#[test]
fn coverage_lockstep_subset() {
    let mut table = SinglePosFormat2 {
        coverage_offset: OffsetMarker::new(CoverageTable::Format1 { glyphs: vec![2, 5, 9] }),
        value_format: ValueFormat(0x0001),
        value_records: vec![record(20), record(50), record(90)],
    };
    let plan = Input::from_gids(BTreeSet::from([5])).make_plan();
    assert_eq!(table.subset(&plan).unwrap(), true);
    assert_eq!(table.coverage_offset.get().unwrap().glyphs(), vec![1]);
    assert_eq!(table.value_records, vec![record(50)]);
}

#[test]
fn lockstep_subset_drops_everything() {
    let mut table = SinglePosFormat2 {
        coverage_offset: OffsetMarker::new(CoverageTable::Format1 { glyphs: vec![2, 5, 9] }),
        value_format: ValueFormat(0x0001),
        value_records: vec![record(20), record(50), record(90)],
    };
    let plan = Input::from_gids(BTreeSet::from([3])).make_plan();
    assert_eq!(table.subset(&plan).unwrap(), false);
    assert!(table.value_records.is_empty());
}

#[test]
fn lockstep_subset_without_coverage_fails() {
    let mut table = SinglePosFormat2 {
        coverage_offset: OffsetMarker::new_maybe_null(None),
        value_format: ValueFormat(0x0001),
        value_records: vec![record(20)],
    };
    let plan = Input::from_gids(BTreeSet::new()).make_plan();
    assert!(table.subset(&plan).is_err());
}

#[test]
fn lockstep_subset_with_short_coverage_fails() {
    let mut table = SinglePosFormat2 {
        coverage_offset: OffsetMarker::new(CoverageTable::Format1 { glyphs: vec![2] }),
        value_format: ValueFormat(0x0001),
        value_records: vec![record(20), record(50)],
    };
    let plan = Input::from_gids(BTreeSet::from([2])).make_plan();
    assert!(table.subset(&plan).is_err());
}

#[test]
fn single_pos_dispatches_on_format() {
    let bytes = [0x00, 0x01, 0x00, 0x00, 0x00, 0x00];
    assert!(matches!(SinglePos::read(&bytes), Some(SinglePos::Format1(_))));
    let bad = [0x00, 0x03, 0x00, 0x00, 0x00, 0x00];
    assert!(SinglePos::read(&bad).is_none());
}

#[test]
fn lookup_list_resolves_lookups() {
    // two lookups: type 1 at offset 6, and an unknown type 12 at offset 12
    let bytes = [
        0x00, 0x02, 0x00, 0x06, 0x00, 0x0C, //
        0x00, 0x01, 0x00, 0x00, 0x00, 0x00, //
        0x00, 0x0C, 0x00, 0x00, 0x00, 0x00,
    ];
    let list = PositionLookupList::read(&bytes).unwrap();
    assert_eq!(list.lookup_count(), 2);
    assert!(matches!(list.get(0), Some(PositionLookup::Single(_))));
    assert!(list.get(1).is_none());
    assert_eq!(list.iter().len(), 1);
    assert!(PositionLookupList::read(&bytes[..5]).is_none());
}

fn pairpos_bytes() -> Vec<u8> {
    vec![
        0x00, 0x01, 0x00, 0x1E, 0x00, 0x04, 0x00, 0x01, 0x00, 0x02, 0x00,
        0x0E, 0x00, 0x16, 0x00, 0x01, 0x00, 0x59, 0xFF, 0xE2, 0xFF, 0xEC,
        0x00, 0x01, 0x00, 0x59, 0xFF, 0xD8, 0xFF, 0xE7, 0x00, 0x01, 0x00,
        0x02, 0x00, 0x2D, 0x00, 0x31,
    ]
}

#[test]
fn pairposformat1() {
    let bytes = pairpos_bytes();
    let table = PairPosFormat1::read(&bytes).unwrap();
    let dumped = dump_table(&table).unwrap();
    let reloaded = PairPosFormat1::read(&dumped).unwrap();
    assert_eq!(table.value_format1, reloaded.value_format1);
    assert_eq!(table.value_format2, reloaded.value_format2);
    let set = reloaded.pair_set_offsets[1].get().unwrap();
    assert_eq!(set.pair_value_records[0].second_glyph, 0x59);
    assert_eq!(set.pair_value_records[0].value_record1.x_advance, Some(-40));
    assert_eq!(set.pair_value_records[0].value_record2.x_placement, Some(-25));
}

#[test]
fn pair_subset_keeps_sets_in_step_with_coverage() {
    let bytes = pairpos_bytes();
    let mut table = PairPosFormat1::read(&bytes).unwrap();
    // keep the second first glyph (0x31) and the second glyph 0x59
    let plan = Input::from_gids(BTreeSet::from([0x31, 0x59])).make_plan();
    assert_eq!(table.subset(&plan).unwrap(), true);
    assert_eq!(table.coverage_offset.get().unwrap().glyphs(), vec![1]);
    assert_eq!(table.pair_set_offsets.len(), 1);
    let set = table.pair_set_offsets[0].get().unwrap();
    assert_eq!(set.pair_value_records.len(), 1);
    assert_eq!(set.pair_value_records[0].second_glyph, 2);
    assert_eq!(set.pair_value_records[0].value_record1.x_advance, Some(-40));
}

#[test]
fn pair_set_drops_missing_second_glyphs() {
    let bytes = pairpos_bytes();
    let mut table = PairPosFormat1::read(&bytes).unwrap();
    // the first glyph survives, but its only pair does not: the set and the
    // glyph go together
    let plan = Input::from_gids(BTreeSet::from([0x2D])).make_plan();
    assert_eq!(table.subset(&plan).unwrap(), false);
    assert!(table.pair_set_offsets.is_empty());
    assert!(table.coverage_offset.get().unwrap().glyphs().is_empty());
}

fn markbase_bytes() -> Vec<u8> {
    vec![
        0x00, 0x01, 0x00, 0x0C, 0x00, 0x14, 0x00, 0x02, 0x00, 0x1A, 0x00,
        0x30, 0x00, 0x01, 0x00, 0x02, 0x03, 0x33, 0x03, 0x3F, 0x00, 0x01,
        0x00, 0x01, 0x01, 0x90, 0x00, 0x02, 0x00, 0x00, 0x00, 0x0A, 0x00,
        0x01, 0x00, 0x10, 0x00, 0x01, 0x01, 0x5A, 0xFF, 0x9E, 0x00, 0x01,
        0x01, 0x05, 0x00, 0x58, 0x00, 0x01, 0x00, 0x06, 0x00, 0x0C, 0x00,
        0x01, 0x03, 0x3E, 0x06, 0x40, 0x00, 0x01, 0x03, 0x3E, 0xFF, 0xAD,
    ]
}

#[test]
fn markbaseposformat1() {
    let bytes = markbase_bytes();
    let owned = MarkBasePosFormat1::read(&bytes).unwrap();
    let marks = owned.mark_array_offset.get().unwrap();
    assert_eq!(marks.mark_records.len(), 2);
    assert_eq!(marks.class_count(), 2);
    let dumped = dump_table(&owned).unwrap();

    assert_eq!(&bytes[..], &dumped[..]);
}

#[test]
fn markbase_subset_filters_both_arrays() {
    let bytes = markbase_bytes();
    let mut owned = MarkBasePosFormat1::read(&bytes).unwrap();
    // keep the second mark (0x33F) and the base (0x190)
    let plan = Input::from_gids(BTreeSet::from([0x33F, 0x190])).make_plan();
    assert_eq!(owned.subset(&plan).unwrap(), true);
    let marks = owned.mark_array_offset.get().unwrap();
    assert_eq!(marks.mark_records.len(), 1);
    assert_eq!(marks.mark_records[0].mark_class, 1);
    assert_eq!(owned.mark_coverage_offset.get().unwrap().glyphs(), vec![2]);
    assert_eq!(owned.base_coverage_offset.get().unwrap().glyphs(), vec![1]);
    assert_eq!(owned.base_array_offset.get().unwrap().base_records.len(), 1);

    let plan = Input::from_gids(BTreeSet::from([0x190])).make_plan();
    let mut owned = MarkBasePosFormat1::read(&bytes).unwrap();
    assert_eq!(owned.subset(&plan).unwrap(), false);
}

#[test]
fn class_count_counts_distinct_classes() {
    let recs = [0u16, 3, 0, 3, 7]
        .iter()
        .map(|c| MarkRecord { mark_class: *c, mark_anchor_offset: OffsetMarker::new_maybe_null(None) })
        .collect();
    assert_eq!(MarkArray { mark_records: recs }.class_count(), 3);
    assert_eq!(MarkArray { mark_records: vec![] }.class_count(), 0);
}

#[test]
fn value_record_format_matches_fields() {
    let mut rec = record(3);
    assert_eq!(rec.format(), ValueFormat(0x0001));
    rec.y_advance_device = Some(0);
    rec.x_advance = Some(-1);
    assert_eq!(rec.format(), ValueFormat(0x0085));
    let bytes = [0x00, 0x03, 0xFF, 0xFF, 0x00, 0x00];
    let (read, _) = ValueRecord::read(&bytes, ValueFormat(0x0085)).unwrap();
    assert_eq!(read, rec);
}

#[test]
fn markligposformat1() {
    let bytes = [
        0x00, 0x01, 0x00, 0x0C, 0x00, 0x14, 0x00, 0x02, 0x00, 0x1A, 0x00,
        0x30, 0x00, 0x01, 0x00, 0x02, 0x03, 0x3C, 0x03, 0x3F, 0x00, 0x01,
        0x00, 0x01, 0x02, 0x34, 0x00, 0x02, 0x00, 0x00, 0x00, 0x0A, 0x00,
        0x01, 0x00, 0x10, 0x00, 0x01, 0x01, 0x5A, 0xFF, 0x9E, 0x00, 0x01,
        0x01, 0x05, 0x01, 0xE8, 0x00, 0x01, 0x00, 0x04, 0x00, 0x03, 0x00,
        0x0E, 0x00, 0x00, 0x00, 0x00, 0x00, 0x14, 0x00, 0x00, 0x00, 0x00,
        0x00, 0x01, 0x02, 0x71, 0x07, 0x08, 0x00, 0x01, 0x01, 0x78, 0xFE,
        0x90,
    ];

    let owned = MarkLigPosFormat1::read(&bytes).unwrap();
    let marks = owned.mark_array_offset.get().unwrap();
    assert_eq!(marks.mark_records.len(), 2);
    let dumped = dump_table(&owned).unwrap();

    assert_eq!(&bytes[..], &dumped[..]);
}

#[test]
fn markmarkposformat1() {
    let bytes = [
        0x00, 0x01, 0x00, 0x0C, 0x00, 0x12, 0x00, 0x01, 0x00, 0x18, 0x00,
        0x24, 0x00, 0x01, 0x00, 0x01, 0x02, 0x96, 0x00, 0x01, 0x00, 0x01,
        0x02, 0x89, 0x00, 0x01, 0x00, 0x00, 0x00, 0x06, 0x00, 0x01, 0x00,
        0xBD, 0xFF, 0x99, 0x00, 0x01, 0x00, 0x04, 0x00, 0x01, 0x00, 0xDD,
        0x01, 0x2D,
    ];

    let owned = MarkMarkPosFormat1::read(&bytes).unwrap();
    let dumped = dump_table(&owned).unwrap();

    assert_eq!(&bytes[..], &dumped[..]);
}

#[test]
fn marklig_subset_keeps_ligatures_in_step() {
    let bytes = [
        0x00, 0x01, 0x00, 0x0C, 0x00, 0x14, 0x00, 0x02, 0x00, 0x1A, 0x00,
        0x30, 0x00, 0x01, 0x00, 0x02, 0x03, 0x3C, 0x03, 0x3F, 0x00, 0x01,
        0x00, 0x01, 0x02, 0x34, 0x00, 0x02, 0x00, 0x00, 0x00, 0x0A, 0x00,
        0x01, 0x00, 0x10, 0x00, 0x01, 0x01, 0x5A, 0xFF, 0x9E, 0x00, 0x01,
        0x01, 0x05, 0x01, 0xE8, 0x00, 0x01, 0x00, 0x04, 0x00, 0x03, 0x00,
        0x0E, 0x00, 0x00, 0x00, 0x00, 0x00, 0x14, 0x00, 0x00, 0x00, 0x00,
        0x00, 0x01, 0x02, 0x71, 0x07, 0x08, 0x00, 0x01, 0x01, 0x78, 0xFE,
        0x90,
    ];
    let mut owned = MarkLigPosFormat1::read(&bytes).unwrap();
    let plan = Input::from_gids(BTreeSet::from([0x33C, 0x234])).make_plan();
    assert_eq!(owned.subset(&plan).unwrap(), true);
    assert_eq!(owned.mark_array_offset.get().unwrap().mark_records.len(), 1);
    let ligs = owned.ligature_array_offset.get().unwrap();
    assert_eq!(ligs.ligature_attach_offsets.len(), 1);
    let attach = ligs.ligature_attach_offsets[0].get().unwrap();
    assert_eq!(attach.base_records.len(), 3);
    assert_eq!(owned.ligature_coverage_offset.get().unwrap().glyphs(), vec![1]);
    assert_eq!(owned.mark_coverage_offset.get().unwrap().glyphs(), vec![2]);
}

#[test]
fn cursiveposformat1() {
    let bytes = [
        0x00, 0x01, 0x00, 0x0E, 0x00, 0x02, 0x00, 0x16, 0x00, 0x1C, 0x00,
        0x22, 0x00, 0x28, 0x00, 0x01, 0x00, 0x02, 0x02, 0x03, 0x02, 0x7E,
        0x00, 0x01, 0x05, 0xDC, 0x00, 0x2C, 0x00, 0x01, 0x00, 0x00, 0xFF,
        0xEC, 0x00, 0x01, 0x05, 0xDC, 0x00, 0x2C, 0x00, 0x01, 0x00, 0x00,
        0xFF, 0xEC,
    ];

    let table = CursivePosFormat1::read(&bytes).unwrap();
    let dumped = dump_table(&table).unwrap();
    let reloaded = CursivePosFormat1::read(&dumped).unwrap();
    assert_eq!(table.entry_exit_record.len(), reloaded.entry_exit_record.len());
    for (one, two) in table.entry_exit_record.iter().zip(reloaded.entry_exit_record.iter()) {
        assert_eq!(one.entry_anchor_offset.get(), two.entry_anchor_offset.get());
        assert_eq!(one.exit_anchor_offset.get(), two.exit_anchor_offset.get());
        assert!(one.entry_anchor_offset.get().is_some());
    }
    // the two identical entry anchors and the two identical exit anchors
    // are each written once
    assert_eq!(dumped.len(), bytes.len() - 12);
}

#[test]
fn cursive_subset_keeps_records_in_step() {
    let bytes = [
        0x00, 0x01, 0x00, 0x0E, 0x00, 0x02, 0x00, 0x16, 0x00, 0x1C, 0x00,
        0x22, 0x00, 0x28, 0x00, 0x01, 0x00, 0x02, 0x02, 0x03, 0x02, 0x7E,
        0x00, 0x01, 0x05, 0xDC, 0x00, 0x2C, 0x00, 0x01, 0x00, 0x00, 0xFF,
        0xEC, 0x00, 0x01, 0x05, 0xDC, 0x00, 0x2C, 0x00, 0x01, 0x00, 0x00,
        0xFF, 0xEC,
    ];
    let mut table = CursivePosFormat1::read(&bytes).unwrap();
    let plan = Input::from_gids(BTreeSet::from([0x27E])).make_plan();
    assert_eq!(table.subset(&plan).unwrap(), true);
    assert_eq!(table.entry_exit_record.len(), 1);
    assert_eq!(table.coverage_offset.get().unwrap().glyphs(), vec![1]);
}

#[test]
fn contextualposformat3() {
    let bytes = [
        0x00, 0x03, 0x00, 0x03, 0x00, 0x01, 0x00, 0x10, 0x00, 0x3C, 0x00,
        0x44, 0x00, 0x01, 0x00, 0x01, 0x00, 0x01, 0x00, 0x14, 0x00, 0x33,
        0x00, 0x35, 0x00, 0x37, 0x00, 0x39, 0x00, 0x3B, 0x00, 0x3C, 0x00,
        0x3F, 0x00, 0x40, 0x00, 0x41, 0x00, 0x42, 0x00, 0x43, 0x00, 0x44,
        0x00, 0x45, 0x00, 0x46, 0x00, 0x47, 0x00, 0x48, 0x00, 0x49, 0x00,
        0x4A, 0x00, 0x4B, 0x00, 0x4C, 0x00, 0x01, 0x00, 0x02, 0x01, 0x1E,
        0x01, 0x2D, 0x00, 0x02, 0x00, 0x01, 0x00, 0x33, 0x00, 0x4C, 0x00,
        0x00,
    ];

    let owned = SequenceContextFormat3::read(&bytes).unwrap();
    let dumped = dump_table(&owned).unwrap();

    assert_eq!(&bytes[..], &dumped[..]);
}

#[test]
fn mark_subset_error_leaves_table_untouched() {
    let bytes = markbase_bytes();
    let mut owned = MarkBasePosFormat1::read(&bytes).unwrap();
    // one more mark record than the mark coverage has glyphs
    owned.mark_array_offset.get_mut().unwrap().mark_records.push(MarkRecord {
        mark_class: 0,
        mark_anchor_offset: OffsetMarker::new_maybe_null(None),
    });
    let plan = Input::from_gids(BTreeSet::from([0x33F, 0x190])).make_plan();
    assert!(owned.subset(&plan).is_err());
    assert_eq!(owned.mark_array_offset.get().unwrap().mark_records.len(), 3);
    assert_eq!(owned.mark_coverage_offset.get().unwrap().glyphs(), vec![0x333, 0x33F]);
    assert_eq!(owned.base_coverage_offset.get().unwrap().glyphs(), vec![0x190]);
}
