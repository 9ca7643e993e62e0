//! The uniform structure through which a shader samples a directional
//! light's shadow map. `V` is the vector type, `M` the matrix type, `S` the
//! sampler type and `F` the scalar type of the values.

use vstd::prelude::*;

use crate::light::join_name;

verus! {

pub const LIGHT_DIRECTION_MEMBER: &'static str = "lightDirection";
pub const PROJECTION_MATRIX_MEMBER: &'static str = "projectionMatrix";
pub const VIEW_MATRIX_MEMBER: &'static str = "viewMatrix";
pub const DEPTH_TEXTURE_MEMBER: &'static str = "depthTexture";
pub const STRENGTH_MEMBER: &'static str = "strength";
pub const BIAS_MEMBER: &'static str = "bias";

/// A value to upload to one member of the shadow structure.
#[derive(Debug, Clone, Copy)]
pub enum ShadowUniform<V, M, S, F> {
    Vector(V),
    Matrix(M),
    Sampler(S),
    Scalar(F),
}

/// What a shadow hands to the shader: the direction of its light, the
/// projection and view matrices of the camera that renders the shadow map,
/// the sampler of that map, and the shadow's strength and depth bias.
#[derive(Debug, Clone, Copy)]
pub struct ShadowParameters<V, M, S, F> {
    pub light_direction: V,
    pub projection_matrix: M,
    pub view_matrix: M,
    pub depth_texture: S,
    pub strength: F,
    pub bias: F,
}

/// Member names with their values, as [`ShadowParameters::uniform_plan`] lists them.
pub open spec fn shadow_plan_view<V, M, S, F>(plan: Seq<(String, ShadowUniform<V, M, S, F>)>) -> Seq<
    (Seq<char>, ShadowUniform<V, M, S, F>),
> {
    plan.map_values(|p: (String, ShadowUniform<V, M, S, F>)| (p.0@, p.1))
}

/// The members of the structure `name` to set for `shadow`, in order.
pub open spec fn shadow_uniforms<V, M, S, F>(shadow: ShadowParameters<V, M, S, F>, name: Seq<char>) -> Seq<
    (Seq<char>, ShadowUniform<V, M, S, F>),
> {
    let member = |m: &str| name + "."@ + m@;
    seq![
        (member(LIGHT_DIRECTION_MEMBER), ShadowUniform::Vector(shadow.light_direction)),
        (member(PROJECTION_MATRIX_MEMBER), ShadowUniform::Matrix(shadow.projection_matrix)),
        (member(VIEW_MATRIX_MEMBER), ShadowUniform::Matrix(shadow.view_matrix)),
        (member(DEPTH_TEXTURE_MEMBER), ShadowUniform::Sampler(shadow.depth_texture)),
        (member(STRENGTH_MEMBER), ShadowUniform::Scalar(shadow.strength)),
        (member(BIAS_MEMBER), ShadowUniform::Scalar(shadow.bias)),
    ]
}

impl<V: Copy, M: Copy, S: Copy, F: Copy> ShadowParameters<V, M, S, F> {
    /// The uniform members to upload for this shadow under the structure `name`.
    pub fn uniform_plan(&self, name: &str) -> (r: Vec<(String, ShadowUniform<V, M, S, F>)>)
        ensures
            shadow_plan_view(r@) == shadow_uniforms(*self, name@),
    {
        let mut plan: Vec<(String, ShadowUniform<V, M, S, F>)> = Vec::new();
        plan.push((join_name(name, LIGHT_DIRECTION_MEMBER), ShadowUniform::Vector(self.light_direction)));
        plan.push(
            (join_name(name, PROJECTION_MATRIX_MEMBER), ShadowUniform::Matrix(self.projection_matrix)),
        );
        plan.push((join_name(name, VIEW_MATRIX_MEMBER), ShadowUniform::Matrix(self.view_matrix)));
        plan.push((join_name(name, DEPTH_TEXTURE_MEMBER), ShadowUniform::Sampler(self.depth_texture)));
        plan.push((join_name(name, STRENGTH_MEMBER), ShadowUniform::Scalar(self.strength)));
        plan.push((join_name(name, BIAS_MEMBER), ShadowUniform::Scalar(self.bias)));
        assert(shadow_plan_view(plan@) =~= shadow_uniforms(*self, name@));
        plan
    }
}

} // verus!
