use webgl_renderer::error::Error;
use webgl_renderer::geometry::TypedGeometry;

type Geometry = TypedGeometry<[f32; 2], [f32; 3], [f32; 4]>;

fn positions(n: usize) -> Vec<[f32; 3]> {
    (0..n).map(|i| [i as f32, 0.0, 0.0]).collect()
}

#[test]
fn typed_geometry_accepts_matching_lengths() {
    let g = Geometry::new(positions(2), Some(vec![[0.0, 0.0], [1.0, 1.0]]), None, None).unwrap();
    assert!(g.has_texcoord());
    assert!(!g.has_normal());
    assert!(!g.has_color());
    assert_eq!(g.position().len(), 2);
}

#[test]
fn typed_geometry_accepts_empty_positions() {
    let g = Geometry::new(Vec::new(), None, None, None).unwrap();
    assert!(g.position().is_empty());
}

#[test]
fn typed_geometry_rejects_length_mismatch() {
    let r = Geometry::new(positions(2), None, Some(positions(3)), None);
    assert_eq!(r.err(), Some(Error::VectorLengthMismatch));
    let r = Geometry::new(positions(2), None, None, Some(vec![[1.0; 4]]));
    assert_eq!(r.err(), Some(Error::VectorLengthMismatch));
}

#[test]
fn typed_geometry_concat_appends_all_attributes() {
    let mut a = Geometry::new(positions(1), None, Some(positions(1)), None).unwrap();
    let b = Geometry::new(positions(2), None, Some(positions(2)), None).unwrap();
    assert_eq!(a.concat_mut(&b), Ok(()));
    assert_eq!(a.position(), &[[0.0, 0.0, 0.0], [0.0, 0.0, 0.0], [1.0, 0.0, 0.0]]);
    assert_eq!(a.normal().as_ref().unwrap().len(), 3);
    assert!(a.texcoord_0().is_none());
}

#[test]
fn typed_geometry_concat_reports_first_mismatch_and_keeps_data() {
    let mut a = Geometry::new(positions(1), Some(vec![[0.0; 2]]), None, None).unwrap();
    let b = Geometry::new(positions(1), None, Some(positions(1)), Some(vec![[0.0; 4]])).unwrap();
    assert_eq!(a.concat_mut(&b), Err(Error::TexcoordMismatch));
    assert_eq!(a.position().len(), 1);
    let mut c = Geometry::new(positions(1), None, None, None).unwrap();
    let d = Geometry::new(positions(1), None, Some(positions(1)), None).unwrap();
    assert_eq!(c.concat_mut(&d), Err(Error::NormalMismatch));
    let e = Geometry::new(positions(1), None, None, Some(vec![[0.0; 4]])).unwrap();
    assert_eq!(c.concat_mut(&e), Err(Error::ColorMismatch));
}

#[test]
fn set_position_replaces_positions_only() {
    let mut g = Geometry::new(positions(2), Some(vec![[0.0, 0.0], [1.0, 1.0]]), None, None).unwrap();
    g.set_position(vec![[5.0, 5.0, 5.0], [6.0, 6.0, 6.0]]);
    assert_eq!(g.position(), &[[5.0, 5.0, 5.0], [6.0, 6.0, 6.0]]);
    assert_eq!(g.texcoord_0(), &Some(vec![[0.0, 0.0], [1.0, 1.0]]));
}

#[test]
fn to_geometry_names_present_attributes_in_order() {
    let g = Geometry::new(
        vec![[1.0, 2.0, 3.0], [4.0, 5.0, 6.0]],
        None,
        Some(vec![[0.0, 0.0, 1.0], [0.0, 1.0, 0.0]]),
        Some(vec![[1.0, 0.0, 0.0, 1.0]; 2]),
    )
    .unwrap();
    let b = g.to_geometry();
    let names: Vec<&str> = b.attributes().iter().map(|(n, _)| n.as_str()).collect();
    assert_eq!(names, vec!["POSITION", "NORMAL", "COLOR_0"]);
    let position = b.attribute("POSITION").unwrap();
    assert_eq!(position.data(), &[1.0, 2.0, 3.0, 4.0, 5.0, 6.0]);
    assert_eq!(position.kind().size(), 3);
    assert_eq!(b.attribute("COLOR_0").unwrap().kind().size(), 4);
    assert_eq!(b.attribute("NORMAL").unwrap().count(), 2);
    assert!(b.attribute("TEXCOORD_0").is_err());
}
