use webgl_renderer::light::{
    join_name, light_slots, Light, LightType, LightUniform, DIRECTIONAL_TYPE, NONE_TYPE, POINT_TYPE,
};
use webgl_renderer::shadow::{ShadowParameters, ShadowUniform};

type Vec3 = [f32; 3];

fn names<T>(plan: &[(String, T)]) -> Vec<&str> {
    plan.iter().map(|(n, _)| n.as_str()).collect()
}

#[test]
fn join_name_uses_a_dot() {
    assert_eq!(join_name("light0", "color"), "light0.color");
}

#[test]
fn light_kinds() {
    let d: Light<Vec3, Vec3, Vec3> = Light::new([1.0; 3], LightType::directional([0.0, -1.0, 0.0]), [1.0, 0.0, 0.0]);
    assert!(d.is_directional());
    assert_eq!(d.as_directional(), Some(&[0.0, -1.0, 0.0]));
    let p: Light<Vec3, Vec3, Vec3> = Light::new([1.0; 3], LightType::point([0.0, 2.0, 0.0]), [1.0, 0.0, 0.1]);
    assert!(!p.is_directional());
    assert_eq!(p.as_directional(), None);
}

#[test]
fn directional_light_plan() {
    let d: Light<Vec3, Vec3, Vec3> = Light::new([0.5; 3], LightType::directional([0.0, -1.0, 0.0]), [1.0, 0.0, 0.0]);
    let plan = d.uniform_plan("light0");
    assert_eq!(names(&plan), vec!["light0.lightType", "light0.direction", "light0.color", "light0.attenuation"]);
    assert!(matches!(plan[0].1, LightUniform::Int(DIRECTIONAL_TYPE)));
    assert!(matches!(plan[1].1, LightUniform::Vector(v) if v == [0.0, -1.0, 0.0]));
    assert!(matches!(plan[2].1, LightUniform::Color(c) if c == [0.5; 3]));
    assert!(matches!(plan[3].1, LightUniform::Attenuation(a) if a == [1.0, 0.0, 0.0]));
}

#[test]
fn point_light_plan() {
    let p: Light<Vec3, Vec3, Vec3> = Light::new([1.0; 3], LightType::point([0.0, 2.0, 0.0]), [1.0, 0.0, 0.1]);
    let plan = p.uniform_plan("light1");
    assert_eq!(names(&plan), vec!["light1.lightType", "light1.position", "light1.color", "light1.attenuation"]);
    assert!(matches!(plan[0].1, LightUniform::Int(POINT_TYPE)));
    assert!(matches!(plan[1].1, LightUniform::Vector(v) if v == [0.0, 2.0, 0.0]));
}

#[test]
fn placeholder_light_plan_sets_only_the_type() {
    let none: Light<Vec3, Vec3, Vec3> = Light { light_type: None, color: [0.0; 3], attenuation: [1.0, 0.0, 0.0] };
    let plan = none.uniform_plan("light3");
    assert_eq!(names(&plan), vec!["light3.lightType"]);
    assert!(matches!(plan[0].1, LightUniform::Int(NONE_TYPE)));
}

#[test]
fn light_slots_cut_or_pad() {
    assert_eq!(light_slots(&[1, 2, 3], 2, 0), vec![1, 2]);
    assert_eq!(light_slots(&[1], 4, 0), vec![1, 0, 0, 0]);
    assert_eq!(light_slots(&[1, 2], 2, 0), vec![1, 2]);
    assert!(light_slots(&[1, 2], 0, 0).is_empty());
}

#[test]
fn shadow_plan_lists_all_members_in_order() {
    let s = ShadowParameters {
        light_direction: [0.0f32, -1.0, 0.0],
        projection_matrix: 7u8,
        view_matrix: 8u8,
        depth_texture: 3u32,
        strength: 0.5f32,
        bias: 0.01f32,
    };
    let plan = s.uniform_plan("shadow0");
    assert_eq!(
        names(&plan),
        vec![
            "shadow0.lightDirection",
            "shadow0.projectionMatrix",
            "shadow0.viewMatrix",
            "shadow0.depthTexture",
            "shadow0.strength",
            "shadow0.bias"
        ]
    );
    assert!(matches!(plan[1].1, ShadowUniform::Matrix(7)));
    assert!(matches!(plan[2].1, ShadowUniform::Matrix(8)));
    assert!(matches!(plan[3].1, ShadowUniform::Sampler(3)));
    assert!(matches!(plan[4].1, ShadowUniform::Scalar(x) if x == 0.5));
    assert!(matches!(plan[5].1, ShadowUniform::Scalar(x) if x == 0.01));
}

#[test]
fn set_vector_follows_the_light_type() {
    let mut d: Light<Vec3, Vec3, Vec3> = Light::new([1.0; 3], LightType::directional([0.0, -1.0, 0.0]), [1.0, 0.0, 0.0]);
    d.set_vector([1.0, 0.0, 0.0]);
    assert_eq!(d.as_directional(), Some(&[1.0, 0.0, 0.0]));
    let mut p: Light<Vec3, Vec3, Vec3> = Light::new([1.0; 3], LightType::point([0.0, 2.0, 0.0]), [1.0, 0.0, 0.1]);
    p.set_vector([3.0, 3.0, 3.0]);
    assert!(matches!(p.light_type, Some(LightType::Point { position }) if position == [3.0, 3.0, 3.0]));
    let mut none: Light<Vec3, Vec3, Vec3> = Light { light_type: None, color: [0.0; 3], attenuation: [1.0, 0.0, 0.0] };
    none.set_vector([3.0, 3.0, 3.0]);
    assert!(none.light_type.is_none());
}
