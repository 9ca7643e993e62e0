use webgl_renderer::gl;
use webgl_renderer::material::{
    cull_face, default_uniform_updater, AlphaMode, GenericMaterial, LineType, UpdateProgramUniforms, BLEND_VALUE,
    MASK_VALUE, OPAQUE_VALUE,
};

struct Flat;

impl GenericMaterial for Flat {
    fn vertex_shader(&self) -> &str {
        "void main() {}"
    }
    fn fragment_shader(&self) -> &str {
        "void main() {}"
    }
}

#[test]
fn generic_material_defaults() {
    let m = Flat;
    assert_eq!(m.preferred_mode(), None);
    assert!(!m.double_sided());
    assert_eq!(m.vertex_shader(), "void main() {}");
}

#[test]
fn line_types_map_to_draw_modes() {
    assert_eq!(LineType::Connected.draw_style(), gl::LINE_STRIP);
    assert_eq!(LineType::Loop.draw_style(), gl::LINE_LOOP);
    assert_eq!(LineType::Segments.draw_style(), gl::LINES);
}

#[test]
fn alpha_mode_values() {
    let opaque: AlphaMode<f32> = AlphaMode::default();
    assert_eq!(opaque.uniform_value(), OPAQUE_VALUE);
    assert!(!opaque.uses_blending());
    assert_eq!(opaque.cutoff(), None);
    let mask = AlphaMode::Mask { cutoff: 0.5f32 };
    assert_eq!(mask.uniform_value(), MASK_VALUE);
    assert_eq!(mask.cutoff(), Some(&0.5));
    let blend: AlphaMode<f32> = AlphaMode::Blend;
    assert_eq!(blend.uniform_value(), BLEND_VALUE);
    assert!(blend.uses_blending());
}

#[test]
fn only_one_sided_materials_cull() {
    assert!(cull_face(false));
    assert!(!cull_face(true));
}

#[test]
fn default_updater_sets_nothing() {
    let updater = default_uniform_updater::<u32, String>();
    let program = String::from("program");
    updater.update_program_uniforms(&7, &program);
    assert_eq!(program, "program");
}
