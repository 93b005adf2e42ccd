use font_tables::glyf::{points, resolve_coords_len, Cursor, Glyf, Glyph, GlyphHeader, GlyphPoint, Point, SimpleGlyph};
use font_tables::scalar::Offset32;

#[test]
fn repeat_flag_covers_count_plus_one_points() {
    // one flag, both coordinates short, repeated 2 more times: 3 points
    let data = [0x0E, 0x02, 0xAA, 0xBB, 0xCC, 0x01, 0x02, 0x03];
    let lens = resolve_coords_len(&data, 3).unwrap();
    assert_eq!(lens.flags, 2);
    assert_eq!(lens.x_coords, 3);
    assert_eq!(lens.y_coords, 3);
}

#[test]
fn long_and_same_coordinates() {
    // flag 0x00: two-byte x and y; flag 0x30: both the same as before
    let data = [0x00, 0x30];
    let lens = resolve_coords_len(&data, 2).unwrap();
    assert_eq!(lens.flags, 2);
    assert_eq!(lens.x_coords, 2);
    assert_eq!(lens.y_coords, 2);
}

#[test]
fn truncated_repeat_fails() {
    // the repeat count byte is missing
    assert!(resolve_coords_len(&[0x08], 3).is_none());
    // fewer flags than points
    assert!(resolve_coords_len(&[0x01], 2).is_none());
}

#[test]
fn repeat_past_the_points_fails() {
    assert!(resolve_coords_len(&[0x08, 0x05], 3).is_none());
}

#[test]
fn no_points_reads_nothing() {
    let lens = resolve_coords_len(&[], 0).unwrap();
    assert_eq!((lens.flags, lens.x_coords, lens.y_coords), (0, 0, 0));
}

fn simple_glyph_bytes() -> Vec<u8> {
    vec![
        0x00, 0x01, // one contour
        0x00, 0x0A, 0xFF, 0xF6, 0x00, 0x64, 0x00, 0x50, // bbox
        0x00, 0x02, // last point index 2
        0x00, 0x01, 0x42, // one instruction byte
        0x3F, 0x01, // flags: on curve, short, positive, repeated once more
        0x01, // second flag: on curve, long coordinates
        0x0A, 0x14, 0x00, 0x05, // x: 10, 20, then +5
        0x00, 0x03, // y: long +3 for the last point... and more
        0x00, 0x00, 0x00, 0x00,
    ]
}

#[test]
fn glyph_variant_follows_contour_sign() {
    let bytes = simple_glyph_bytes();
    let glyph = Glyph::read(&bytes).unwrap();
    assert!(matches!(glyph, Glyph::Simple(_)));
    assert_eq!(glyph.number_of_contours(), 1);
    assert_eq!(glyph.x_min(), 10);
    assert_eq!(glyph.y_min(), -10);
    assert_eq!(glyph.x_max(), 100);
    assert_eq!(glyph.y_max(), 80);

    let mut composite = vec![0xFF, 0xFF, 0, 0, 0, 0, 0, 0, 0, 0, 0x00, 0x21, 0x00, 0x07, 0x01];
    assert!(matches!(Glyph::read(&composite), Some(Glyph::Composite(_))));
    composite.truncate(13);
    assert!(Glyph::read(&composite).is_none());
    assert!(GlyphHeader::read(&[0; 9]).is_none());
}

#[test]
fn simple_glyph_fields() {
    let bytes = simple_glyph_bytes();
    let glyph = SimpleGlyph::read(&bytes).unwrap();
    assert_eq!(glyph.end_pts_of_contours(), vec![2]);
    assert_eq!(glyph.instruction_length(), 1);
    assert_eq!(glyph.instructions(), Some(&[0x42u8][..]));
    assert_eq!(glyph.glyph_data().unwrap().len(), bytes.len() - 15);
    let lens = glyph.coordinate_lengths().unwrap();
    assert_eq!(lens.flags, 3);
    assert_eq!(lens.x_coords, 4);
    assert_eq!(lens.y_coords, 4);
}

#[test]
fn glyf_resolves_offsets() {
    let mut bytes = vec![0u8; 4];
    bytes.extend(simple_glyph_bytes());
    let glyf = Glyf::read(&bytes);
    assert!(glyf.resolve_glyph(Offset32::new(0)).is_none());
    assert_eq!(glyf.resolve_glyph(Offset32::new(4)).unwrap().x_max(), 100);
    assert!(glyf.resolve_glyph(Offset32::new(1000)).is_none());
}

#[test]
fn cursor_reads_in_order() {
    let data = [0x01, 0xFF, 0xFE];
    let mut cursor = Cursor::new(&data);
    assert_eq!(cursor.bump_u8(), Some(1));
    assert_eq!(cursor.bump_i16(), Some(-2));
    assert_eq!(cursor.bump_u8(), None);
    assert_eq!(cursor.pos(), 3);
}

#[test]
fn iter_points_decodes_coordinates() {
    let bytes = simple_glyph_bytes();
    let glyph = SimpleGlyph::read(&bytes).unwrap();
    let points = glyph.iter_points();
    assert_eq!(
        points,
        vec![
            GlyphPoint::OnCurve(Point { x: 10, y: 0 }),
            GlyphPoint::OnCurve(Point { x: 30, y: 3 }),
            GlyphPoint::End(Point { x: 35, y: 3 }),
        ]
    );
}

#[test]
fn iter_points_is_empty_for_truncated_flags() {
    let mut bytes = simple_glyph_bytes();
    bytes.truncate(16);
    let glyph = SimpleGlyph::read(&bytes).unwrap();
    assert!(glyph.iter_points().is_empty());
}

#[test]
fn points_wrap_and_mark_off_curve() {
    // two off-curve flags with long coordinates: 0x7FFF, then +1 wraps
    let ends = vec![1u16];
    let flags = vec![0x00u8, 0x00];
    let x_data = [0x7F, 0xFF, 0x00, 0x01];
    let y_data = [0xFF, 0xFE, 0x00, 0x00];
    let pts = points(&ends, &flags, &x_data, &y_data);
    assert_eq!(
        pts,
        vec![
            GlyphPoint::OffCurve(Point { x: 32767, y: -2 }),
            GlyphPoint::End(Point { x: -32768, y: -2 }),
        ]
    );
}
