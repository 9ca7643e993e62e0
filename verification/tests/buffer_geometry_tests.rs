use webgl_renderer::attribute::{AttributeData, DataKind};
use webgl_renderer::buffer_geometry::Geometry;
use webgl_renderer::error::Error;
use webgl_renderer::gl;

fn data2(values: &[[f32; 2]]) -> AttributeData<f32> {
    AttributeData::from_arrays(values)
}

fn data3(values: &[[f32; 3]]) -> AttributeData<f32> {
    AttributeData::from_arrays(values)
}

fn names(g: &Geometry<f32>) -> Vec<String> {
    g.attributes().iter().map(|(n, _)| n.clone()).collect()
}

#[test]
fn new_keeps_first_position_and_last_value() {
    let g = Geometry::new(vec![
        (String::from("a"), data2(&[[1.0, 1.0]])),
        (String::from("b"), data3(&[[0.0, 0.0, 0.0]])),
        (String::from("a"), data2(&[[2.0, 2.0], [3.0, 3.0]])),
    ]);
    assert_eq!(names(&g), vec!["a", "b"]);
    assert_eq!(g.attribute("a").unwrap().count(), 2);
    assert_eq!(g.count_vertices(), 2);
}

#[test]
fn attribute_lookup_reports_missing_name() {
    let g = Geometry::new(vec![(String::from("vertexPosition"), data3(&[[0.0; 3]]))]);
    assert_eq!(g.attribute("vertexPosition").unwrap().kind(), DataKind::new(3, gl::FLOAT));
    match g.attribute("vertexColor") {
        Err(e) => assert_eq!(e, Error::MissingAttribute(String::from("vertexColor"))),
        Ok(_) => panic!("no color attribute"),
    }
}

#[test]
fn insert_replaces_or_appends() {
    let mut g = Geometry::empty();
    g.insert(String::from("x"), data2(&[[0.0; 2]]));
    g.insert(String::from("y"), data2(&[[0.0; 2]]));
    g.insert(String::from("x"), data2(&[[1.0; 2], [2.0; 2]]));
    assert_eq!(names(&g), vec!["x", "y"]);
    assert_eq!(g.attribute("x").unwrap().count(), 2);
}

#[test]
fn merge_appends_same_named_attributes() {
    let mut a = Geometry::new(vec![
        (String::from("p"), data3(&[[0.0; 3]])),
        (String::from("c"), data2(&[[0.5; 2]])),
    ]);
    let b = Geometry::new(vec![
        (String::from("c"), data2(&[[1.5; 2], [2.5; 2]])),
        (String::from("p"), data3(&[[1.0; 3], [2.0; 3]])),
        (String::from("extra"), data2(&[[9.0; 2]])),
    ]);
    assert_eq!(a.merge_mut(&b), Ok(()));
    assert_eq!(a.attribute("p").unwrap().count(), 3);
    assert_eq!(a.attribute("c").unwrap().data(), &[0.5, 0.5, 1.5, 1.5, 2.5, 2.5]);
    assert_eq!(names(&a), vec!["p", "c"]);
    assert_eq!(a.count_vertices(), 3);
}

#[test]
fn merge_stops_at_missing_attribute() {
    let mut a = Geometry::new(vec![
        (String::from("p"), data3(&[[0.0; 3]])),
        (String::from("n"), data3(&[[0.0; 3]])),
    ]);
    let b = Geometry::new(vec![(String::from("p"), data3(&[[1.0; 3]]))]);
    assert_eq!(a.merge_mut(&b), Err(Error::MissingAttribute(String::from("n"))));
    assert_eq!(a.attribute("p").unwrap().count(), 2);
    assert_eq!(a.attribute("n").unwrap().count(), 1);
}

#[test]
fn merge_stops_at_layout_mismatch() {
    let mut a = Geometry::new(vec![
        (String::from("c"), data2(&[[0.0; 2]])),
        (String::from("p"), data3(&[[0.0; 3]])),
    ]);
    let b = Geometry::new(vec![
        (String::from("p"), data3(&[[1.0; 3]])),
        (String::from("c"), data3(&[[1.0; 3]])),
    ]);
    assert_eq!(
        a.merge_mut(&b),
        Err(Error::IncompatibleAttributes(DataKind::new(2, gl::FLOAT), DataKind::new(3, gl::FLOAT)))
    );
    assert_eq!(a.attribute("c").unwrap().count(), 1);
    assert_eq!(a.attribute("p").unwrap().count(), 1);
}

#[test]
fn insert_reads_back_and_keeps_other_attributes() {
    let mut g = Geometry::new(vec![
        (String::from("p"), data3(&[[0.0; 3]])),
        (String::from("c"), data2(&[[0.5; 2]])),
    ]);
    g.insert(String::from("p"), data3(&[[1.0; 3], [2.0; 3], [3.0; 3]]));
    assert_eq!(g.attribute("p").unwrap().count(), 3);
    assert_eq!(g.attribute("c").unwrap().data(), &[0.5, 0.5]);
    g.insert(String::from("n"), data3(&[[0.0, 0.0, 1.0]]));
    assert_eq!(g.attribute("n").unwrap().data(), &[0.0, 0.0, 1.0]);
    assert_eq!(g.attribute("c").unwrap().count(), 1);
}
