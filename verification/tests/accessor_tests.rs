use webgl_renderer::accessor::{
    float_vector_properties, Accessor, AccessorProperties, AccessorType, ViewKind, COMPONENT_TYPES,
};
use webgl_renderer::error::Error;
use webgl_renderer::gl;

fn properties(component_type: u32, count: i32, accessor_type: AccessorType) -> AccessorProperties<f32> {
    AccessorProperties {
        byte_offset: 8,
        component_type,
        count,
        accessor_type,
        min: Some(vec![0.0, -1.0]),
        max: None,
        normalized: true,
    }
}

#[test]
fn accessor_type_sizes() {
    assert_eq!(AccessorType::vec(3).size(), 3);
    assert_eq!(AccessorType::scalar().size(), 1);
    assert_eq!(AccessorType::vec(4), AccessorType::Vec { size: 4 });
}

#[test]
fn component_types_are_the_webgl_data_types() {
    assert_eq!(
        COMPONENT_TYPES,
        [gl::BYTE, gl::UNSIGNED_BYTE, gl::SHORT, gl::UNSIGNED_SHORT, gl::UNSIGNED_INT, gl::FLOAT]
    );
}

#[test]
fn initialize_keeps_properties() {
    let a = Accessor::initialize(properties(gl::FLOAT, 5, AccessorType::vec(3))).unwrap();
    assert_eq!(a.byte_offset(), 8);
    assert_eq!(a.component_type, gl::FLOAT);
    assert_eq!(a.count, 5);
    assert_eq!(a.accessor_type(), AccessorType::vec(3));
    assert!(a.normalized());
    assert_eq!(a.min(), &Some(vec![0.0, -1.0]));
    assert_eq!(a.max(), &None);
}

#[test]
fn initialize_rejects_unknown_component_type() {
    match Accessor::initialize(properties(5124, 1, AccessorType::scalar())) {
        Err(e) => assert_eq!(e, Error::UnknownComponentType(5124)),
        Ok(_) => panic!("signed int is not an accessor component type"),
    }
}

#[test]
fn component_byte_lengths() {
    let byte = Accessor::initialize(properties(gl::UNSIGNED_BYTE, 1, AccessorType::scalar())).unwrap();
    let short = Accessor::initialize(properties(gl::SHORT, 1, AccessorType::scalar())).unwrap();
    let float = Accessor::initialize(properties(gl::FLOAT, 1, AccessorType::scalar())).unwrap();
    assert_eq!(byte.component_byte_length(), 1);
    assert_eq!(short.component_byte_length(), 2);
    assert_eq!(float.component_byte_length(), 4);
}

#[test]
fn array_length_packed_and_strided() {
    let a = Accessor::initialize(properties(gl::FLOAT, 4, AccessorType::vec(3))).unwrap();
    assert_eq!(a.get_array_length(0), 12);
    // 20 bytes apart: 5 floats per element, the last element only needs its own 3.
    assert_eq!(a.get_array_length(20), 5 * 3 + 3);
}

#[test]
fn view_kinds() {
    let index = Accessor::initialize(properties(gl::UNSIGNED_SHORT, 3, AccessorType::scalar())).unwrap();
    let float = Accessor::initialize(properties(gl::FLOAT, 3, AccessorType::vec(2))).unwrap();
    let byte = Accessor::initialize(properties(gl::BYTE, 3, AccessorType::scalar())).unwrap();
    assert_eq!(index.view_kind(), Some(ViewKind::Uint16));
    assert_eq!(float.view_kind(), Some(ViewKind::Float32));
    assert_eq!(byte.view_kind(), None);
}

#[test]
fn float_vector_properties_describe_packed_floats() {
    let p: AccessorProperties<f32> = float_vector_properties(3, 10);
    assert_eq!(p.byte_offset, 0);
    assert_eq!(p.component_type, gl::FLOAT);
    assert_eq!(p.count, 10);
    assert_eq!(p.accessor_type, AccessorType::vec(3));
    assert!(p.min.is_none() && p.max.is_none());
    assert!(!p.normalized);
}
