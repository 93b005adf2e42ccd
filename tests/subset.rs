use std::collections::BTreeSet;
use font_tables::subset::{retain_covered, Input};

#[test]
fn remap_is_dense_and_ordered() {
    let plan = Input::from_gids(BTreeSet::from([0, 5, 9])).make_plan();
    assert_eq!(plan.remap_gid(0), Some(0));
    assert_eq!(plan.remap_gid(5), Some(1));
    assert_eq!(plan.remap_gid(9), Some(2));
    assert_eq!(plan.remap_gid(3), None);
}

#[test]
fn notdef_is_always_kept() {
    let plan = Input::from_gids(BTreeSet::from([9, 5, 5])).make_plan();
    assert_eq!(plan.remap_gid(0), Some(0));
    assert_eq!(plan.remap_gid(5), Some(1));
    assert_eq!(plan.remap_gid(9), Some(2));
}

#[test]
fn empty_input_keeps_only_notdef() {
    let plan = Input::from_gids(BTreeSet::new()).make_plan();
    assert_eq!(plan.remap_gid(0), Some(0));
    assert_eq!(plan.remap_gid(1), None);
    assert_eq!(plan.remap_gid(65535), None);
}

#[test]
fn largest_id_is_kept() {
    let plan = Input::from_gids(BTreeSet::from([65535])).make_plan();
    assert_eq!(plan.remap_gid(65535), Some(1));
}

#[test]
fn lookup_and_feature_maps() {
    let mut plan = Input::from_gids(BTreeSet::new()).make_plan();
    assert_eq!(plan.remap_gpos_lookup(0), None);
    plan.set_gpos_lookup_map(vec![Some(0), None, Some(1)]);
    plan.set_gpos_feature_map(vec![None, Some(0)]);
    assert_eq!(plan.remap_gpos_lookup(0), Some(0));
    assert_eq!(plan.remap_gpos_lookup(1), None);
    assert_eq!(plan.remap_gpos_lookup(2), Some(1));
    assert_eq!(plan.remap_gpos_lookup(3), None);
    assert_eq!(plan.remap_gpos_feature(0), None);
    assert_eq!(plan.remap_gpos_feature(1), Some(0));
}

#[test]
fn retain_covered_walks_in_lockstep() {
    let plan = Input::from_gids(BTreeSet::from([5])).make_plan();
    let kept = retain_covered(&vec![2, 5, 9], vec!['a', 'b', 'c'], &plan).unwrap();
    assert_eq!(kept, vec!['b']);
    let shorter = retain_covered(&vec![2, 5, 9], vec!['a', 'b'], &plan).unwrap();
    assert_eq!(shorter, vec!['b']);
    assert!(retain_covered(&vec![5], vec!['a', 'b'], &plan).is_err());
}
