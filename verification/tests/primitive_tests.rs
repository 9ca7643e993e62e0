use webgl_renderer::error::Error;
use webgl_renderer::gl;
use webgl_renderer::primitive::{
    attribute_to_variable_name, check_attributes, contains_name, effective_mode, get_vertex_count,
    is_triangle_based, variable_name, COLOR_0_ATTRIBUTE, MODES, NORMAL_ATTRIBUTE, POSITION_ATTRIBUTE,
    TEXCOORD_0_ATTRIBUTE,
};

fn names(list: &[&str]) -> Vec<String> {
    list.iter().map(|s| s.to_string()).collect()
}

#[test]
fn attribute_names() {
    assert_eq!(POSITION_ATTRIBUTE, "POSITION");
    assert_eq!(NORMAL_ATTRIBUTE, "NORMAL");
    assert_eq!(TEXCOORD_0_ATTRIBUTE, "TEXCOORD_0");
    assert_eq!(COLOR_0_ATTRIBUTE, "COLOR_0");
}

#[test]
fn variable_names_are_prefixed_and_lower_case() {
    assert_eq!(attribute_to_variable_name("TEXCOORD_0"), "a_texcoord_0");
    assert_eq!(attribute_to_variable_name("POSITION"), "a_position");
    assert_eq!(variable_name("normal"), "a_normal");
}

#[test]
fn modes_list_strip_twice_and_no_fan() {
    assert_eq!(MODES.len(), 7);
    assert!(!MODES.contains(&gl::TRIANGLE_FAN));
    assert_eq!(MODES[5], gl::TRIANGLE_STRIP);
    assert_eq!(MODES[6], gl::TRIANGLE_STRIP);
}

#[test]
fn check_attributes_accepts_known_mode_with_position() {
    assert_eq!(check_attributes(gl::TRIANGLES, &names(&["NORMAL", "POSITION"])), Ok(()));
    assert_eq!(check_attributes(gl::POINTS, &names(&["POSITION"])), Ok(()));
}

#[test]
fn check_attributes_rejects_fan_before_looking_at_names() {
    assert_eq!(check_attributes(gl::TRIANGLE_FAN, &names(&[])), Err(Error::UnknownMode(gl::TRIANGLE_FAN)));
    assert_eq!(check_attributes(42, &names(&["POSITION"])), Err(Error::UnknownMode(42)));
}

#[test]
fn check_attributes_requires_position() {
    assert_eq!(
        check_attributes(gl::LINES, &names(&["COLOR_0"])),
        Err(Error::MissingAttribute(String::from("POSITION")))
    );
}

#[test]
fn contains_name_searches_all() {
    let list = names(&["a", "b"]);
    assert!(contains_name(&list, "b"));
    assert!(!contains_name(&list, "c"));
}

#[test]
fn vertex_count_is_common_count() {
    assert_eq!(get_vertex_count(&[4, 4, 4]), Ok(4));
    assert_eq!(get_vertex_count(&[]), Err(Error::EmptyAttributes));
    assert_eq!(get_vertex_count(&[4, 3]), Err(Error::UnequalAttributeCounts));
}

#[test]
fn effective_mode_prefers_material() {
    assert_eq!(effective_mode(Some(gl::LINES), gl::TRIANGLES), gl::LINES);
    assert_eq!(effective_mode(None, gl::TRIANGLES), gl::TRIANGLES);
}

#[test]
fn triangle_based_modes() {
    assert!(is_triangle_based(gl::TRIANGLES));
    assert!(is_triangle_based(gl::TRIANGLE_STRIP));
    assert!(!is_triangle_based(gl::TRIANGLE_FAN));
    assert!(!is_triangle_based(gl::LINES));
}
