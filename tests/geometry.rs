use obj_viewer::geometry::{
    fan_triangulate, parse_face_ref, resolve_index, FaceRef, LoadError, Obj, Point3, TexCoord,
};
use obj_viewer::number::{parse_decimal, parse_integer, Decimal};

fn dec(mantissa: i64, scale: i32) -> Decimal {
    Decimal { mantissa, scale }
}

fn zero() -> Decimal {
    dec(0, 0)
}

fn one() -> Decimal {
    dec(1, 0)
}

fn load(text: &str) -> Result<Obj, LoadError> {
    Obj::new(text.as_bytes(), None)
}

#[test]
fn single_triangle_round_trip() {
    let obj = load("v 0 0 0\nv 1 0 0\nv 0 1 0\nf 1 2 3\n").unwrap();
    assert_eq!(obj.vertices.len(), 3);
    assert_eq!(obj.indices, vec![0, 1, 2]);
    for v in &obj.vertices {
        assert_eq!(v.texture, TexCoord { u: zero(), v: zero() });
        assert_eq!(v.normal, Point3 { x: one(), y: one(), z: one() });
    }
    assert_eq!(obj.vertices[1].pos, Point3 { x: one(), y: zero(), z: zero() });
    assert_eq!(obj.vertices[2].pos, Point3 { x: zero(), y: one(), z: zero() });
    assert!(obj.texture.is_none());
}

#[test]
fn position_normal_face_has_zero_texcoord() {
    let text = "v 0 0 0\nv 1 0 0\nv 0 1 0\nvt 0.25 0.75\nvn 0 0 1\nf 1//1 2//1 3//1\n";
    let obj = load(text).unwrap();
    assert_eq!(obj.vertices.len(), 3);
    for v in &obj.vertices {
        assert_eq!(v.texture, TexCoord { u: zero(), v: zero() });
        assert_eq!(v.normal, Point3 { x: zero(), y: zero(), z: one() });
    }
}

#[test]
fn quad_face_gives_two_triangles_around_first_ref() {
    let text = "v 0 0 0\nv 1 0 0\nv 1 1 0\nv 0 1 0\nf 1 2 3 4\n";
    let obj = load(text).unwrap();
    assert_eq!(obj.vertices.len(), 6);
    assert_eq!(obj.indices, vec![0, 1, 2, 3, 4, 5]);
    let xs: Vec<(i64, i64)> = obj.vertices.iter().map(|v| (v.pos.x.mantissa, v.pos.y.mantissa)).collect();
    assert_eq!(xs, vec![(0, 0), (1, 0), (1, 1), (0, 0), (1, 1), (0, 1)]);
}

#[test]
fn fan_of_five_refs_has_three_triangles() {
    let refs: Vec<FaceRef> = (1..=5).map(|p| FaceRef { pos: p, tex: None, normal: None }).collect();
    let tris = fan_triangulate(&refs);
    let pos: Vec<i64> = tris.iter().map(|r| r.pos).collect();
    assert_eq!(pos, vec![1, 2, 3, 1, 3, 4, 1, 4, 5]);
}

#[test]
fn negative_indices_count_from_end() {
    let pos = load("v 0 0 0\nv 1 0 0\nv 0 1 0\nf 1 2 3\n").unwrap();
    let neg = load("v 0 0 0\nv 1 0 0\nv 0 1 0\nf -3 -2 -1\n").unwrap();
    assert_eq!(pos.vertices, neg.vertices);
    assert_eq!(resolve_index(-1, 3), Some(2));
    assert_eq!(resolve_index(-3, 3), Some(0));
    assert_eq!(resolve_index(3, 3), Some(2));
    assert_eq!(resolve_index(-4, 3), None);
    assert_eq!(resolve_index(0, 3), None);
    assert_eq!(resolve_index(4, 3), None);
}

#[test]
fn texture_v_is_flipped() {
    let text = "v 0 0 0\nv 1 0 0\nv 0 1 0\nvt 0.25 0.75\nvt 1 0\nf 1/1 2/2 3/1\n";
    let obj = load(text).unwrap();
    assert_eq!(obj.vertices[0].texture, TexCoord { u: dec(25, 2), v: dec(25, 2) });
    assert_eq!(obj.vertices[1].texture, TexCoord { u: one(), v: one() });
    assert_eq!(obj.vertices[2].texture, TexCoord { u: dec(25, 2), v: dec(25, 2) });
}

#[test]
fn full_references_pick_all_three_tables() {
    let text = "v 1 2 3\nv 4 5 6\nv 7 8 9\nvt 0 0\nvn 0 -1 0\nf 3/1/1 2/1/1 1/1/1\n";
    let obj = load(text).unwrap();
    assert_eq!(obj.vertices[0].pos, Point3 { x: dec(7, 0), y: dec(8, 0), z: dec(9, 0) });
    assert_eq!(obj.vertices[0].normal, Point3 { x: zero(), y: dec(-1, 0), z: zero() });
    assert_eq!(obj.vertices[0].texture, TexCoord { u: zero(), v: one() });
}

#[test]
fn blank_lines_and_other_records_are_ignored() {
    let text = "# a comment\n\n   \no thing\nv 0 0 0\r\nv 1 0 0\ns off\nv 0 1 0\nusemtl m\nf 1 2 3";
    let obj = load(text).unwrap();
    assert_eq!(obj.vertices.len(), 3);
}

#[test]
fn faces_may_come_before_vertices() {
    let obj = load("f 1 2 3\nv 0 0 0\nv 1 0 0\nv 0 1 0\n").unwrap();
    assert_eq!(obj.vertices.len(), 3);
}

#[test]
fn malformed_number_reports_its_line() {
    assert_eq!(load("v 0 0 0\nv 1 x 0\n").err(), Some(LoadError::Parse { line: 2 }));
    assert_eq!(load("v 0 0\n").err(), Some(LoadError::Parse { line: 1 }));
    assert_eq!(load("v 0 0 0\nvt 0.5\n").err(), Some(LoadError::Parse { line: 2 }));
    assert_eq!(load("v 0 0 0\n\nf 1 a 1\n").err(), Some(LoadError::Parse { line: 3 }));
    assert_eq!(load("f 1 2\n").err(), Some(LoadError::Parse { line: 1 }));
    assert_eq!(load("f 1/2/3/4 1 1\n").err(), Some(LoadError::Parse { line: 1 }));
}

#[test]
fn out_of_range_reference_reports_its_line() {
    let text = "v 0 0 0\nv 1 0 0\nv 0 1 0\nf 1 2 3\nf 1 2 4\n";
    assert_eq!(load(text).err(), Some(LoadError::IndexOutOfBounds { line: 5 }));
    let text = "v 0 0 0\nv 1 0 0\nv 0 1 0\nf 1/5 2 3\n";
    assert_eq!(load(text).err(), Some(LoadError::IndexOutOfBounds { line: 4 }));
    let text = "v 0 0 0\nv 1 0 0\nv 0 1 0\nf 0 1 2\n";
    assert_eq!(load(text).err(), Some(LoadError::IndexOutOfBounds { line: 4 }));
}

#[test]
fn parse_error_wins_over_earlier_index_error() {
    let text = "v 0 0 0\nf 1 2 3\nv 1 bad 0\n";
    assert_eq!(load(text).err(), Some(LoadError::Parse { line: 3 }));
}

#[test]
fn empty_text_gives_empty_mesh() {
    let obj = load("").unwrap();
    assert!(obj.vertices.is_empty());
    assert!(obj.indices.is_empty());
}

#[test]
fn face_references_forms() {
    assert_eq!(parse_face_ref(b"7"), Some(FaceRef { pos: 7, tex: None, normal: None }));
    assert_eq!(parse_face_ref(b"7/2"), Some(FaceRef { pos: 7, tex: Some(2), normal: None }));
    assert_eq!(parse_face_ref(b"7//3"), Some(FaceRef { pos: 7, tex: None, normal: Some(3) }));
    assert_eq!(parse_face_ref(b"-1/-2/-3"), Some(FaceRef { pos: -1, tex: Some(-2), normal: Some(-3) }));
    assert_eq!(parse_face_ref(b"/1/1"), None);
    assert_eq!(parse_face_ref(b"1/x"), None);
}

#[test]
fn decimal_numbers() {
    assert_eq!(parse_decimal(b"0.5"), Some(dec(5, 1)));
    assert_eq!(parse_decimal(b"-1.25"), Some(dec(-125, 2)));
    assert_eq!(parse_decimal(b"+3"), Some(dec(3, 0)));
    assert_eq!(parse_decimal(b".5"), Some(dec(5, 1)));
    assert_eq!(parse_decimal(b"5."), Some(dec(5, 0)));
    assert_eq!(parse_decimal(b"1e3"), Some(dec(1000, 0)));
    assert_eq!(parse_decimal(b"1.5E-3"), Some(dec(15, 4)));
    assert_eq!(parse_decimal(b"-2e+2"), Some(dec(-200, 0)));
    assert_eq!(parse_decimal(b"0e99"), Some(dec(0, 0)));
    assert_eq!(parse_decimal(b""), None);
    assert_eq!(parse_decimal(b"."), None);
    assert_eq!(parse_decimal(b"-"), None);
    assert_eq!(parse_decimal(b"1e"), None);
    assert_eq!(parse_decimal(b"1.2.3"), None);
    assert_eq!(parse_decimal(b"abc"), None);
}

#[test]
fn long_and_extreme_numbers_are_accepted() {
    assert_eq!(parse_decimal(b"1e30"), Some(dec(1, -30)));
    assert_eq!(parse_decimal(b"1e19"), Some(dec(1, -19)));
    assert_eq!(parse_decimal(b"1e-19"), Some(dec(1, 19)));
    assert_eq!(parse_decimal(b"1e-30"), Some(dec(1, 30)));
    assert_eq!(parse_decimal(b"1e99"), Some(dec(1, -40)));
    assert_eq!(parse_decimal(b"-1e-99"), Some(dec(-1, 64)));
    assert_eq!(parse_decimal(b"1e99999999999999999999"), Some(dec(1, -40)));
    assert_eq!(
        parse_decimal(b"0.1234567890123456789"),
        Some(dec(123456789012345678, 18))
    );
    assert_eq!(
        parse_decimal(b"12345678901234567890"),
        Some(dec(123456789012345678, -2))
    );
    assert_eq!(parse_decimal(b"0.000000000000000000000000000000"), Some(dec(0, 0)));
}

#[test]
fn one_minus_beyond_kept_digits() {
    assert_eq!(dec(1, -20).one_minus(), dec(-1, -20));
    assert_eq!(dec(5, 20).one_minus(), dec(1_000_000_000_000_000_000, 18));
    assert_eq!(dec(123, 20).one_minus(), dec(999_999_999_999_999_999, 18));
    assert_eq!(dec(-123, 20).one_minus(), dec(1_000_000_000_000_000_001, 18));
}

#[test]
fn very_large_index_is_out_of_bounds_not_malformed() {
    let text = "v 0 0 0\nv 1 0 0\nv 0 1 0\nf 1 2 99999999999999999999\n";
    assert_eq!(load(text).err(), Some(LoadError::IndexOutOfBounds { line: 4 }));
    assert_eq!(parse_integer(b"99999999999999999999"), Some(1_000_000_000_000_000_000));
    assert_eq!(parse_integer(b"-99999999999999999999"), Some(-1_000_000_000_000_000_000));
}

#[test]
fn one_minus_flips_at_same_scale() {
    assert_eq!(dec(75, 2).one_minus(), dec(25, 2));
    assert_eq!(dec(0, 0).one_minus(), dec(1, 0));
    assert_eq!(dec(-5, 1).one_minus(), dec(15, 1));
}

#[test]
fn integers() {
    assert_eq!(parse_integer(b"42"), Some(42));
    assert_eq!(parse_integer(b"-7"), Some(-7));
    assert_eq!(parse_integer(b"+7"), Some(7));
    assert_eq!(parse_integer(b""), None);
    assert_eq!(parse_integer(b"-"), None);
    assert_eq!(parse_integer(b"4.0"), None);
}

#[test]
fn vertex_count_sums_fans_over_file() {
    let text = "v 0 0 0\nv 1 0 0\nv 1 1 0\nv 0 1 0\nv 0 0 1\n\nf 1 2 3\nx y\nf 1 2 3 4\n# note\nf 1 2 3 4 5\n";
    let obj = load(text).unwrap();
    assert_eq!(obj.vertices.len(), 3 * (1 + 2 + 3));
    assert_eq!(obj.indices.len(), obj.vertices.len());
    let anchor = obj.vertices[3].pos;
    assert_eq!(obj.vertices[6].pos, anchor);
    assert_eq!(obj.vertices[9].pos, anchor);
}

#[test]
fn negative_texture_and_normal_indices_count_from_end() {
    let base = "v 0 0 0\nv 1 0 0\nv 0 1 0\nvt 0 0\nvt 0.5 0.5\nvn 0 0 1\nvn 1 0 0\n";
    let pos = load(&format!("{}f 1/2/2 2/1/1 3/2/2\n", base)).unwrap();
    let neg = load(&format!("{}f 1/-1/-1 2/-2/-2 3/-1/-1\n", base)).unwrap();
    assert_eq!(pos.vertices, neg.vertices);
}
