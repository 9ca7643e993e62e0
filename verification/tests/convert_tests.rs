use webgl_renderer::convert::{FromWithContext, IntoWithContext};
use webgl_renderer::resolution::Resolution;

struct Scale(i32);

struct Scaled(i32);

impl FromWithContext<Scale, i32, String> for Scaled {
    fn from_with_context(context: &Scale, value: i32) -> Result<Self, String> {
        if value < 0 {
            Err(String::from("negative"))
        } else {
            Ok(Scaled(value * context.0))
        }
    }
}

#[test]
fn into_with_context_goes_through_from_with_context() {
    let r: Result<Scaled, String> = 4.into_with_context(&Scale(3));
    assert_eq!(r.ok().map(|s| s.0), Some(12));
    let r: Result<Scaled, String> = (-1).into_with_context(&Scale(3));
    assert_eq!(r.err(), Some(String::from("negative")));
}

#[test]
fn resolution_new_keeps_sizes() {
    let r = Resolution::new(800, 600);
    assert_eq!(r.width, 800);
    assert_eq!(r.height, 600);
    assert_eq!(r, Resolution { width: 800, height: 600 });
}
