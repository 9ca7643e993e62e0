use web_sys::WebGl2RenderingContext as Gl;
use webgl_renderer::gl;

#[test]
fn draw_modes_match_webgl() {
    assert_eq!(gl::POINTS, Gl::POINTS);
    assert_eq!(gl::LINES, Gl::LINES);
    assert_eq!(gl::LINE_LOOP, Gl::LINE_LOOP);
    assert_eq!(gl::LINE_STRIP, Gl::LINE_STRIP);
    assert_eq!(gl::TRIANGLES, Gl::TRIANGLES);
    assert_eq!(gl::TRIANGLE_STRIP, Gl::TRIANGLE_STRIP);
    assert_eq!(gl::TRIANGLE_FAN, Gl::TRIANGLE_FAN);
}

#[test]
fn buffer_and_data_types_match_webgl() {
    assert_eq!(gl::ARRAY_BUFFER, Gl::ARRAY_BUFFER);
    assert_eq!(gl::ELEMENT_ARRAY_BUFFER, Gl::ELEMENT_ARRAY_BUFFER);
    assert_eq!(gl::BYTE, Gl::BYTE);
    assert_eq!(gl::UNSIGNED_BYTE, Gl::UNSIGNED_BYTE);
    assert_eq!(gl::SHORT, Gl::SHORT);
    assert_eq!(gl::UNSIGNED_SHORT, Gl::UNSIGNED_SHORT);
    assert_eq!(gl::UNSIGNED_INT, Gl::UNSIGNED_INT);
    assert_eq!(gl::FLOAT, Gl::FLOAT);
}

#[test]
fn texture_constants_match_webgl() {
    assert_eq!(gl::NEAREST, Gl::NEAREST);
    assert_eq!(gl::LINEAR, Gl::LINEAR);
    assert_eq!(gl::NEAREST_MIPMAP_NEAREST, Gl::NEAREST_MIPMAP_NEAREST);
    assert_eq!(gl::LINEAR_MIPMAP_NEAREST, Gl::LINEAR_MIPMAP_NEAREST);
    assert_eq!(gl::NEAREST_MIPMAP_LINEAR, Gl::NEAREST_MIPMAP_LINEAR);
    assert_eq!(gl::LINEAR_MIPMAP_LINEAR, Gl::LINEAR_MIPMAP_LINEAR);
    assert_eq!(gl::REPEAT, Gl::REPEAT);
    assert_eq!(gl::CLAMP_TO_EDGE, Gl::CLAMP_TO_EDGE);
    assert_eq!(gl::MIRRORED_REPEAT, Gl::MIRRORED_REPEAT);
    assert_eq!(gl::TEXTURE0, Gl::TEXTURE0);
    assert_eq!(gl::SAMPLER_2D, Gl::SAMPLER_2D);
}
