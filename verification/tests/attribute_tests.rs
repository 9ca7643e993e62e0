use webgl_renderer::attribute::{extend_copied, flatten_arrays, AttributeData, DataKind};
use webgl_renderer::error::Error;
use webgl_renderer::gl;

#[test]
fn flatten_arrays_concatenates_in_order() {
    let data = [[1, 2, 3], [4, 5, 6]];
    assert_eq!(flatten_arrays(&data), vec![1, 2, 3, 4, 5, 6]);
    let empty: [[u8; 2]; 0] = [];
    assert!(flatten_arrays(&empty).is_empty());
}

#[test]
fn flat_layout_places_component_j_of_vertex_i_at_i_times_n_plus_j() {
    let data = [[10, 11], [20, 21], [30, 31]];
    let flat = flatten_arrays(&data);
    assert_eq!(flat.len(), 3 * 2);
    for i in 0..3 {
        for j in 0..2 {
            assert_eq!(flat[i * 2 + j], data[i][j]);
        }
    }
}

#[test]
fn extend_copied_appends() {
    let mut v = vec![1, 2];
    extend_copied(&mut v, &[3, 4]);
    assert_eq!(v, vec![1, 2, 3, 4]);
}

#[test]
fn data_kind_fields() {
    let k = DataKind::new(3, gl::FLOAT);
    assert_eq!(k.size(), 3);
    assert_eq!(k.gl_type(), gl::FLOAT);
    assert_eq!(k, DataKind::new(3, gl::FLOAT));
    assert_ne!(k, DataKind::new(2, gl::FLOAT));
}

#[test]
fn attribute_data_from_arrays() {
    let a = AttributeData::from_arrays(&[[0.0f32, 1.0, 2.0], [3.0, 4.0, 5.0]]);
    assert_eq!(a.data(), &[0.0, 1.0, 2.0, 3.0, 4.0, 5.0]);
    assert_eq!(a.kind(), DataKind::new(3, gl::FLOAT));
    assert_eq!(a.count(), 2);
}

#[test]
fn attribute_data_new_with_flat_array() {
    let a = AttributeData::new_with_flat_array(vec![1.0f32, 2.0, 3.0, 4.0], 2, 2);
    assert_eq!(a.kind(), DataKind::new(2, gl::FLOAT));
    assert_eq!(a.count(), 2);
}

#[test]
fn concat_mut_appends_same_layout() {
    let mut a = AttributeData::from_arrays(&[[1.0f32, 2.0]]);
    let b = AttributeData::from_arrays(&[[3.0f32, 4.0], [5.0, 6.0]]);
    assert_eq!(a.concat_mut(&b), Ok(()));
    assert_eq!(a.data(), &[1.0, 2.0, 3.0, 4.0, 5.0, 6.0]);
    assert_eq!(a.count(), 3);
    assert_eq!(a.kind(), DataKind::new(2, gl::FLOAT));
}

#[test]
fn concat_mut_refuses_other_layout_and_keeps_data() {
    let mut a = AttributeData::from_arrays(&[[1.0f32, 2.0]]);
    let b = AttributeData::from_arrays(&[[3.0f32, 4.0, 5.0]]);
    assert_eq!(
        a.concat_mut(&b),
        Err(Error::IncompatibleAttributes(DataKind::new(2, gl::FLOAT), DataKind::new(3, gl::FLOAT)))
    );
    assert_eq!(a.data(), &[1.0, 2.0]);
    assert_eq!(a.count(), 1);
}
