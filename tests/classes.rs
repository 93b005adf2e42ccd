use std::collections::BTreeSet;
use font_tables::classes::{
    ClassDefTable, ClassEntry, PairPos, PairPosFormat2, SequenceContextFormat1, SequenceContextFormat2,
    SequenceRule,
};
use font_tables::compile::dump_table;
use font_tables::subset::{Input, Subset};

fn pairpos2_bytes() -> Vec<u8> {
    vec![
        0x00, 0x02, 0x00, 0x18, 0x00, 0x04, 0x00, 0x00, 0x00, 0x22, 0x00,
        0x32, 0x00, 0x02, 0x00, 0x02, 0x00, 0x00, 0x00, 0x00, 0x00, 0x00,
        0xFF, 0xCE, 0x00, 0x01, 0x00, 0x03, 0x00, 0x46, 0x00, 0x47, 0x00,
        0x49, 0x00, 0x02, 0x00, 0x02, 0x00, 0x46, 0x00, 0x47, 0x00, 0x01,
        0x00, 0x49, 0x00, 0x49, 0x00, 0x01, 0x00, 0x02, 0x00, 0x01, 0x00,
        0x6A, 0x00, 0x6B, 0x00, 0x01,
    ]
}

#[test]
fn pairposformat2() {
    let bytes = pairpos2_bytes();
    let table = PairPosFormat2::read(&bytes).unwrap();
    assert_eq!(table.value_format1.record_byte_len(), 2);
    assert_eq!(table.value_format2.record_byte_len(), 0);
    assert_eq!(table.class1_records.len(), 2);
    let first = &table.class1_records[0];
    assert_eq!(first.class2_records.len(), 2);
    let dumped = dump_table(&table).unwrap();
    let reloaded = PairPosFormat2::read(&dumped).unwrap();
    assert_eq!(table.value_format1, reloaded.value_format1);
    assert_eq!(table.value_format2, reloaded.value_format2);

    assert_eq!(&bytes[..], &dumped[..]);
}

#[test]
fn class_def_formats_list_entries() {
    let f1 = ClassDefTable::read(&[0x00, 0x01, 0x00, 0x10, 0x00, 0x02, 0x00, 0x03, 0x00, 0x04]).unwrap();
    assert_eq!(
        f1.class_entries(),
        vec![ClassEntry { glyph: 0x10, class: 3 }, ClassEntry { glyph: 0x11, class: 4 }]
    );
    let f2 = ClassDefTable::read(&[0x00, 0x02, 0x00, 0x01, 0x00, 0x05, 0x00, 0x06, 0x00, 0x02]).unwrap();
    assert_eq!(
        f2.class_entries(),
        vec![ClassEntry { glyph: 5, class: 2 }, ClassEntry { glyph: 6, class: 2 }]
    );
    assert!(ClassDefTable::read(&[0x00, 0x03, 0x00, 0x00]).is_none());
    assert!(ClassDefTable::read(&[0x00, 0x01, 0x00, 0x10, 0x00, 0x02, 0x00]).is_none());
}

#[test]
fn class_subset_keeps_every_class_record() {
    let bytes = pairpos2_bytes();
    let mut table = PairPosFormat2::read(&bytes).unwrap();
    // keep 0x47 (first glyph, class 1) and 0x6B (second glyph, class 1)
    let plan = Input::from_gids(BTreeSet::from([0x47, 0x6B])).make_plan();
    assert_eq!(table.subset(&plan).unwrap(), true);
    assert_eq!(table.coverage_offset.get().unwrap().glyphs(), vec![1]);
    assert_eq!(table.class1_records.len(), 2);
    assert_eq!(table.class1_records[0].class2_records.len(), 2);
    assert_eq!(
        table.class_def1_offset.get().unwrap().class_entries(),
        vec![ClassEntry { glyph: 1, class: 1 }]
    );
    assert_eq!(
        table.class_def2_offset.get().unwrap().class_entries(),
        vec![ClassEntry { glyph: 2, class: 1 }]
    );
}

#[test]
fn class_subset_with_empty_coverage_drops_the_table() {
    let bytes = pairpos2_bytes();
    let mut table = PairPosFormat2::read(&bytes).unwrap();
    let plan = Input::from_gids(BTreeSet::from([0x6A])).make_plan();
    assert_eq!(table.subset(&plan).unwrap(), false);
}

#[test]
fn pair_pos_dispatches_on_format() {
    let bytes = pairpos2_bytes();
    assert!(matches!(PairPos::read(&bytes), Some(PairPos::Format2(_))));
    let mut bad = bytes.clone();
    bad[1] = 3;
    assert!(PairPos::read(&bad).is_none());
}

#[test]
fn contextualposformat1() {
    let bytes = [
        0x00, 0x01, 0x00, 0x08, 0x00, 0x01, 0x00, 0x0E, 0x00, 0x01, 0x00,
        0x01, 0x02, 0xA6, 0x00, 0x01, 0x00, 0x04, 0x00, 0x03, 0x00, 0x01,
        0x02, 0xDD, 0x02, 0xC6, 0x00, 0x02, 0x00, 0x01,
    ];

    let owned = SequenceContextFormat1::read(&bytes).unwrap();
    let dumped = dump_table(&owned).unwrap();

    assert_eq!(&bytes[..], &dumped[..]);
}

#[test]
fn contextualposformat2() {
    let bytes = [
        0x00, 0x02, 0x00, 0x12, 0x00, 0x20, 0x00, 0x05, 0x00, 0x00, 0x00,
        0x60, 0x00, 0x70, 0x00, 0x00, 0x00, 0x00, 0x00, 0x01, 0x00, 0x05,
        0x00, 0x29, 0x00, 0x33, 0x00, 0x37, 0x00, 0x39, 0x00, 0x3A, 0x00,
        0x02, 0x00, 0x0A, 0x00, 0x29, 0x00, 0x29, 0x00, 0x02, 0x00, 0x33,
        0x00, 0x33, 0x00, 0x02, 0x00, 0x37, 0x00, 0x37, 0x00, 0x01, 0x00,
        0x39, 0x00, 0x3A, 0x00, 0x01, 0x00, 0x42, 0x00, 0x42, 0x00, 0x03,
        0x00, 0x46, 0x00, 0x46, 0x00, 0x03, 0x00, 0x4A, 0x00, 0x4A, 0x00,
        0x03, 0x00, 0x51, 0x00, 0x51, 0x00, 0x03, 0x00, 0x56, 0x00, 0x56,
        0x00, 0x03, 0x00, 0xF5, 0x00, 0xF6, 0x00, 0x04, 0x00, 0x01, 0x00,
        0x04, 0x00, 0x03, 0x00, 0x01, 0x00, 0x03, 0x00, 0x04, 0x00, 0x02,
        0x00, 0x01, 0x00, 0x01, 0x00, 0x04, 0x00, 0x03, 0x00, 0x01, 0x00,
        0x03, 0x00, 0x04, 0x00, 0x00, 0x00, 0x02,
    ];

    let owned = SequenceContextFormat2::read(&bytes).unwrap();
    assert_eq!(owned.class_seq_rule_set_offsets.len(), 5);
    assert!(owned.class_seq_rule_set_offsets[0].get().is_none());
    let dumped = dump_table(&owned).unwrap();

    assert_eq!(&bytes[..], &dumped[..]);
}

#[test]
fn sequence_rule_needs_a_first_glyph() {
    assert!(SequenceRule::read(&[0x00, 0x00, 0x00, 0x00]).is_none());
    let rule = SequenceRule::read(&[0x00, 0x01, 0x00, 0x00]).unwrap();
    assert!(rule.input_sequence.is_empty());
}
