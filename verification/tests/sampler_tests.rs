use webgl_renderer::error::Error;
use webgl_renderer::gl;
use webgl_renderer::sampler::{Sampler, TextureUnit, DEFAULT_MAG_FILTER, DEFAULT_MIN_FILTER};

#[test]
fn sampler_defaults() {
    let s = Sampler::default();
    assert_eq!(s.mag_filter(), gl::LINEAR as i32);
    assert_eq!(s.min_filter(), gl::LINEAR_MIPMAP_LINEAR as i32);
    assert_eq!(s.wrap_s(), gl::REPEAT as i32);
    assert_eq!(s.wrap_t(), gl::REPEAT as i32);
    assert!(s.has_mipmap_filter());
    assert_eq!(DEFAULT_MAG_FILTER, gl::LINEAR as i32);
    assert_eq!(DEFAULT_MIN_FILTER, gl::LINEAR_MIPMAP_LINEAR as i32);
}

#[test]
fn sampler_new_fills_missing_filters() {
    let s = Sampler::new(None, Some(gl::NEAREST as i32), gl::CLAMP_TO_EDGE as i32, gl::MIRRORED_REPEAT as i32)
        .unwrap();
    assert_eq!(s.mag_filter(), DEFAULT_MAG_FILTER);
    assert_eq!(s.min_filter(), gl::NEAREST as i32);
    assert_eq!(s.wrap_s(), gl::CLAMP_TO_EDGE as i32);
    assert_eq!(s.wrap_t(), gl::MIRRORED_REPEAT as i32);
    assert!(!s.has_mipmap_filter());
}

#[test]
fn sampler_errors_in_parameter_order() {
    let bad = 1;
    assert_eq!(Sampler::new(Some(bad), Some(bad), bad, bad), Err(Error::UnknownMagFilter(bad)));
    assert_eq!(
        Sampler::new(Some(gl::LINEAR as i32), Some(bad), bad, bad),
        Err(Error::UnknownMinFilter(bad))
    );
    assert_eq!(Sampler::new(None, None, bad, bad), Err(Error::UnknownWrapS(bad)));
    assert_eq!(Sampler::new(None, None, gl::REPEAT as i32, bad), Err(Error::UnknownWrapT(bad)));
}

#[test]
fn texture_units() {
    assert_eq!(TextureUnit(0).texture_enum(), gl::TEXTURE0);
    assert_eq!(TextureUnit(3).texture_enum(), gl::TEXTURE0 + 3);
    assert_eq!(TextureUnit(3).value_type(), gl::SAMPLER_2D);
}
