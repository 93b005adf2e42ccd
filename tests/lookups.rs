use std::collections::BTreeSet;
use font_tables::chain::ChainedSequenceContext;
use font_tables::compile::dump_table;
use font_tables::gpos::{Extension, ExtensionSubtable, Gpos, PositionLookup, PositionLookupList};
use font_tables::offset::FontRead;
use font_tables::subset::{Input, Subset};

fn lookup_list_bytes() -> Vec<u8> {
    vec![
        0x00, 0x01, 0x00, 0x04, // one lookup, at 4
        0x00, 0x01, 0x00, 0x00, 0x00, 0x01, 0x00, 0x08, // single adjustment, one subtable
        0x00, 0x01, 0x00, 0x08, 0x00, 0x02, 0xFF, 0xB0, // format 1, y placement -80
        0x00, 0x01, 0x00, 0x01, 0x00, 0x05, // coverage of glyph 5
    ]
}

#[test]
fn lookup_list_round_trips() {
    let bytes = lookup_list_bytes();
    let list = PositionLookupList::read(&bytes).unwrap();
    assert_eq!(list.lookup_offsets.len(), 1);
    assert!(matches!(list.lookup_offsets[0].get(), Some(PositionLookup::Single(_))));
    assert_eq!(dump_table(&list).unwrap(), bytes);
}

#[test]
fn lookup_list_subset_keeps_live_lookups() {
    let bytes = lookup_list_bytes();
    let mut list = PositionLookupList::read(&bytes).unwrap();
    let plan = Input::from_gids(BTreeSet::from([5])).make_plan();
    assert_eq!(list.subset(&plan).unwrap(), true);
    assert_eq!(list.lookup_offsets.len(), 1);
    let dumped = dump_table(&list).unwrap();
    assert_eq!(&dumped[20..], &[0x00, 0x01, 0x00, 0x01, 0x00, 0x01]);
}

#[test]
fn lookup_list_subset_drops_emptied_lookups() {
    let bytes = lookup_list_bytes();
    let mut list = PositionLookupList::read(&bytes).unwrap();
    let plan = Input::from_gids(BTreeSet::from([7])).make_plan();
    assert_eq!(list.subset(&plan).unwrap(), true);
    assert!(list.lookup_offsets.is_empty());
    assert_eq!(dump_table(&list).unwrap(), vec![0, 0]);
}

#[test]
fn unknown_lookup_type_does_not_read() {
    let mut bytes = lookup_list_bytes();
    bytes[5] = 0x0A;
    assert!(PositionLookupList::read(&bytes).is_none());
}

#[test]
fn extension_wraps_a_subtable() {
    let mut bytes = vec![0x00, 0x01, 0x00, 0x01, 0x00, 0x00, 0x00, 0x08];
    bytes.extend(&lookup_list_bytes()[12..]);
    let ext = Extension::read(&bytes).unwrap();
    assert_eq!(ext.extension_lookup_type, 1);
    assert!(matches!(ext.extension_offset.get(), Some(ExtensionSubtable::Single(_))));
    assert_eq!(dump_table(&ext).unwrap(), bytes);
    bytes[3] = 0x09;
    assert!(Extension::read(&bytes).is_none());
}

#[test]
fn gpos_header_leads_to_the_lookup_list() {
    let mut bytes = vec![0x00, 0x01, 0x00, 0x00, 0x00, 0x00, 0x00, 0x00, 0x00, 0x0A];
    bytes.extend(lookup_list_bytes());
    let gpos = Gpos::read(&bytes).unwrap();
    assert!(matches!(gpos, Gpos::Gpos1_0(_)));
    let list = gpos.lookup_list_bytes().unwrap();
    assert_eq!(list, &lookup_list_bytes()[..]);
    assert!(PositionLookupList::read(list).is_some());
    bytes[3] = 0x01;
    assert!(Gpos::read(&bytes[..12]).is_none());
    assert!(matches!(Gpos::read(&bytes), Some(Gpos::Gpos1_1(_))));
    bytes[3] = 0x02;
    assert!(Gpos::read(&bytes).is_none());
}

#[test]
fn contextual_lookups_are_kept() {
    // a list with one contextual lookup (type 7) holding a format 3 subtable
    let bytes = vec![
        0x00, 0x01, 0x00, 0x04, // one lookup, at 4
        0x00, 0x07, 0x00, 0x00, 0x00, 0x01, 0x00, 0x08, // contextual, one subtable
        0x00, 0x03, 0x00, 0x01, 0x00, 0x01, 0x00, 0x0C, // format 3, one coverage, one record
        0x00, 0x00, 0x00, 0x02, // record: index 0, lookup 2
        0x00, 0x01, 0x00, 0x01, 0x00, 0x05, // coverage of glyph 5
    ];
    let mut list = PositionLookupList::read(&bytes).unwrap();
    assert!(matches!(list.lookup_offsets[0].get(), Some(PositionLookup::Contextual(_))));
    assert_eq!(dump_table(&list).unwrap(), bytes);
    let plan = Input::from_gids(BTreeSet::new()).make_plan();
    assert_eq!(list.subset(&plan).unwrap(), true);
    assert_eq!(list.lookup_offsets.len(), 1);
}

#[test]
fn chained_context_format3_round_trips() {
    let bytes = vec![
        0x00, 0x03, // format 3
        0x00, 0x01, 0x00, 0x14, // one backtrack coverage, at 20
        0x00, 0x01, 0x00, 0x1A, // one input coverage, at 26
        0x00, 0x00, // no lookahead
        0x00, 0x01, 0x00, 0x00, 0x00, 0x03, // one record: index 0, lookup 3
        0x00, 0x00, // padding before the coverages
        0x00, 0x01, 0x00, 0x01, 0x00, 0x07, // backtrack coverage: glyph 7
        0x00, 0x01, 0x00, 0x01, 0x00, 0x08, // input coverage: glyph 8
    ];
    let table = ChainedSequenceContext::read(&bytes).unwrap();
    let dumped = dump_table(&table).unwrap();
    // the padding is not written back; the coverages move up by two bytes
    assert_eq!(dumped.len(), bytes.len() - 2);
    let reread = ChainedSequenceContext::read(&dumped).unwrap();
    match reread {
        ChainedSequenceContext::Format3(t) => {
            assert_eq!(t.backtrack_coverage_offsets[0].get().unwrap().glyphs(), vec![7]);
            assert_eq!(t.input_coverage_offsets[0].get().unwrap().glyphs(), vec![8]);
            assert!(t.lookahead_coverage_offsets.is_empty());
            assert_eq!(t.seq_lookup_records[0].lookup_list_index(), 3);
        }
        _ => panic!("wrong format"),
    }
    assert!(ChainedSequenceContext::read(&bytes[..13]).is_none());
}
