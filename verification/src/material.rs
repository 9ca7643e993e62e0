//! Material settings that decide how a mesh is drawn and blended.

use vstd::prelude::*;

use crate::gl;

verus! {

/// A material defined by its shaders; implemented by users of the engine.
pub trait GenericMaterial {
    fn vertex_shader(&self) -> &str;

    fn fragment_shader(&self) -> &str;

    /// The draw mode this material wants, if it wants a particular one.
    fn preferred_mode(&self) -> (r: Option<u32>)
        default_ensures
            r is None,
    {
        None
    }

    /// Whether both faces of a triangle are drawn.
    fn double_sided(&self) -> (r: bool)
        default_ensures
            !r,
    {
        false
    }
}

/// How the vertices of a line material are joined.
#[derive(Debug, Clone, Copy, PartialEq, Eq, Structural)]
pub enum LineType {
    Connected,
    Loop,
    Segments,
}

impl LineType {
    /// The GL draw mode of this line type.
    pub fn draw_style(&self) -> (r: u32)
        ensures
            r == match *self {
                LineType::Connected => gl::LINE_STRIP,
                LineType::Loop => gl::LINE_LOOP,
                LineType::Segments => gl::LINES,
            },
    {
        match self {
            LineType::Connected => gl::LINE_STRIP,
            LineType::Loop => gl::LINE_LOOP,
            LineType::Segments => gl::LINES,
        }
    }
}

/// How the alpha channel is used; `F` is the type of the mask cutoff.
#[derive(Debug, Clone, Copy)]
pub enum AlphaMode<F> {
    Opaque,
    Mask { cutoff: F },
    Blend,
}

pub const OPAQUE_VALUE: i32 = 0;
pub const MASK_VALUE: i32 = 1;
pub const BLEND_VALUE: i32 = 2;

impl<F> Default for AlphaMode<F> {
    fn default() -> (r: Self)
        ensures
            r is Opaque,
    {
        AlphaMode::Opaque
    }
}

impl<F> AlphaMode<F> {
    /// The value of the shader's alpha mode uniform.
    pub fn uniform_value(&self) -> (r: i32)
        ensures
            r == match *self {
                AlphaMode::Opaque => OPAQUE_VALUE,
                AlphaMode::Mask { .. } => MASK_VALUE,
                AlphaMode::Blend => BLEND_VALUE,
            },
    {
        match self {
            AlphaMode::Opaque => OPAQUE_VALUE,
            AlphaMode::Mask { .. } => MASK_VALUE,
            AlphaMode::Blend => BLEND_VALUE,
        }
    }

    /// Whether GL blending is switched on for this mode.
    pub fn uses_blending(&self) -> (r: bool)
        ensures
            r <==> *self is Blend,
    {
        match self {
            AlphaMode::Blend => true,
            _ => false,
        }
    }

    /// The mask cutoff, for the mask mode.
    pub fn cutoff(&self) -> (r: Option<&F>)
        ensures
            *self is Mask ==> (r matches Some(c) && *c == self->cutoff),
            !(*self is Mask) ==> r is None,
    {
        match self {
            AlphaMode::Mask { cutoff } => Some(cutoff),
            _ => None,
        }
    }
}

/// Whether face culling is on for a material: only for one-sided ones.
pub fn cull_face(double_sided: bool) -> (r: bool)
    ensures
        r == !double_sided,
{
    !double_sided
}

/// Sets the uniforms that all programs drawn in a pass share (such as the
/// camera's); `C` is the type of the GL context and `P` that of a program.
pub trait UpdateProgramUniforms<C, P> {
    fn update_program_uniforms(&self, context: &C, program: &P);
}

/// The updater of a renderer that shares no uniforms between programs.
pub struct DefaultGlobalUniformUpdater;

impl<C, P> UpdateProgramUniforms<C, P> for DefaultGlobalUniformUpdater {
    fn update_program_uniforms(&self, _context: &C, _program: &P) {
    }
}

/// An updater that sets nothing.
pub fn default_uniform_updater<C, P>() -> Box<dyn UpdateProgramUniforms<C, P>> {
    Box::new(DefaultGlobalUniformUpdater)
}

} // verus!
