//! Light sources and the uniform values through which a shader sees them.
//! `V` is the vector type of directions and positions, `C` the color type
//! and `A` the type of the attenuation coefficients.

use vstd::prelude::*;
use vstd::string::StringExecFns;

verus! {

/// Light arriving from one direction, or shining from one point.
#[derive(Debug, Clone, Copy)]
pub enum LightType<V> {
    Directional { direction: V },
    Point { position: V },
}

impl<V> LightType<V> {
    pub fn directional(direction: V) -> (r: Self)
        ensures
            r == (LightType::Directional { direction }),
    {
        LightType::Directional { direction }
    }

    pub fn point(position: V) -> (r: Self)
        ensures
            r == (LightType::Point { position }),
    {
        LightType::Point { position }
    }

    pub fn is_directional(&self) -> (r: bool)
        ensures
            r <==> *self is Directional,
    {
        match self {
            LightType::Directional { .. } => true,
            LightType::Point { .. } => false,
        }
    }

    pub fn as_directional(&self) -> (r: Option<&V>)
        ensures
            *self is Directional ==> (r matches Some(d) && *d == self->direction),
            *self is Point ==> r is None,
    {
        match self {
            LightType::Directional { direction } => Some(direction),
            LightType::Point { .. } => None,
        }
    }
}

/// A light of some type (none for a placeholder light), color and attenuation.
#[derive(Debug, Clone, Copy)]
pub struct Light<V, C, A> {
    pub light_type: Option<LightType<V>>,
    pub color: C,
    pub attenuation: A,
}

pub const NONE_TYPE: i32 = 0;
pub const DIRECTIONAL_TYPE: i32 = 1;
pub const POINT_TYPE: i32 = 2;

pub const LIGHT_TYPE_MEMBER: &'static str = "lightType";
pub const COLOR_MEMBER: &'static str = "color";
pub const DIRECTION_MEMBER: &'static str = "direction";
pub const POSITION_MEMBER: &'static str = "position";
pub const ATTENUATION_MEMBER: &'static str = "attenuation";

/// A value to upload to one member of a light's uniform structure.
#[derive(Debug, Clone, Copy)]
pub enum LightUniform<V, C, A> {
    Int(i32),
    Vector(V),
    Color(C),
    Attenuation(A),
}

/// The name of member `member` of the uniform structure `name`.
pub fn join_name(name: &str, member: &str) -> (r: String)
    ensures
        r@ == name@ + "."@ + member@,
{
    let mut joined = String::from_str(name);
    joined.append(".");
    joined.append(member);
    joined
}

/// Member names with their values, as [`uniform_plan`] lists them.
pub open spec fn plan_view<V, C, A>(plan: Seq<(String, LightUniform<V, C, A>)>) -> Seq<(Seq<char>, LightUniform<V, C, A>)> {
    plan.map_values(|p: (String, LightUniform<V, C, A>)| (p.0@, p.1))
}

/// The uniform members to set for `light` under the structure `name`, in
/// order: the type code and the direction or position, then the color and
/// the attenuation; a light without a type only sets its type code to zero.
pub open spec fn light_uniforms<V, C, A>(light: Light<V, C, A>, name: Seq<char>) -> Seq<(Seq<char>, LightUniform<V, C, A>)> {
    let member = |m: &str| name + "."@ + m@;
    match light.light_type {
        Some(LightType::Directional { direction }) => seq![
            (member(LIGHT_TYPE_MEMBER), LightUniform::Int(DIRECTIONAL_TYPE)),
            (member(DIRECTION_MEMBER), LightUniform::Vector(direction)),
            (member(COLOR_MEMBER), LightUniform::Color(light.color)),
            (member(ATTENUATION_MEMBER), LightUniform::Attenuation(light.attenuation)),
        ],
        Some(LightType::Point { position }) => seq![
            (member(LIGHT_TYPE_MEMBER), LightUniform::Int(POINT_TYPE)),
            (member(POSITION_MEMBER), LightUniform::Vector(position)),
            (member(COLOR_MEMBER), LightUniform::Color(light.color)),
            (member(ATTENUATION_MEMBER), LightUniform::Attenuation(light.attenuation)),
        ],
        None => seq![(member(LIGHT_TYPE_MEMBER), LightUniform::Int(NONE_TYPE))],
    }
}

impl<V: Copy, C: Copy, A: Copy> Light<V, C, A> {
    pub fn new(color: C, light_type: LightType<V>, attenuation: A) -> (r: Self)
        ensures
            r.light_type == Some(light_type),
            r.color == color,
            r.attenuation == attenuation,
    {
        Light { light_type: Some(light_type), color, attenuation }
    }

    pub fn is_directional(&self) -> (r: bool)
        ensures
            r <==> (self.light_type matches Some(t) && t is Directional),
    {
        match &self.light_type {
            Some(t) => t.is_directional(),
            None => false,
        }
    }

    pub fn as_directional(&self) -> (r: Option<&V>)
        ensures
            (self.light_type matches Some(t) && t is Directional) ==> (r matches Some(d) && *d
                == self.light_type->0->direction),
            !(self.light_type matches Some(t) && t is Directional) ==> r is None,
    {
        match &self.light_type {
            Some(t) => t.as_directional(),
            None => None,
        }
    }

    /// Takes `v` as the light's direction or position, according to its
    /// type (as when the light follows the node that carries it); a light
    /// without a type is left as it is.
    pub fn set_vector(&mut self, v: V)
        ensures
            final(self).color == old(self).color,
            final(self).attenuation == old(self).attenuation,
            final(self).light_type == match old(self).light_type {
                Some(LightType::Directional { .. }) => Some(LightType::Directional { direction: v }),
                Some(LightType::Point { .. }) => Some(LightType::Point { position: v }),
                None => None,
            },
    {
        match self.light_type {
            Some(LightType::Directional { .. }) => {
                self.light_type = Some(LightType::Directional { direction: v });
            },
            Some(LightType::Point { .. }) => {
                self.light_type = Some(LightType::Point { position: v });
            },
            None => {},
        }
    }

    /// The uniform members to upload for this light under the structure `name`.
    pub fn uniform_plan(&self, name: &str) -> (r: Vec<(String, LightUniform<V, C, A>)>)
        ensures
            plan_view(r@) == light_uniforms(*self, name@),
    {
        let mut plan: Vec<(String, LightUniform<V, C, A>)> = Vec::new();
        match self.light_type {
            Some(LightType::Directional { direction }) => {
                plan.push((join_name(name, LIGHT_TYPE_MEMBER), LightUniform::Int(DIRECTIONAL_TYPE)));
                plan.push((join_name(name, DIRECTION_MEMBER), LightUniform::Vector(direction)));
                plan.push((join_name(name, COLOR_MEMBER), LightUniform::Color(self.color)));
                plan.push((join_name(name, ATTENUATION_MEMBER), LightUniform::Attenuation(self.attenuation)));
            },
            Some(LightType::Point { position }) => {
                plan.push((join_name(name, LIGHT_TYPE_MEMBER), LightUniform::Int(POINT_TYPE)));
                plan.push((join_name(name, POSITION_MEMBER), LightUniform::Vector(position)));
                plan.push((join_name(name, COLOR_MEMBER), LightUniform::Color(self.color)));
                plan.push((join_name(name, ATTENUATION_MEMBER), LightUniform::Attenuation(self.attenuation)));
            },
            None => {
                plan.push((join_name(name, LIGHT_TYPE_MEMBER), LightUniform::Int(NONE_TYPE)));
            },
        }
        assert(plan_view(plan@) =~= light_uniforms(*self, name@));
        plan
    }
}

/// `count` light slots: the lights found, in order, cut to `count` or
/// padded with `placeholder`.
pub open spec fn fit_slots<T>(found: Seq<T>, count: nat, placeholder: T) -> Seq<T> {
    Seq::new(count, |i: int| if i < found.len() { found[i] } else { placeholder })
}

/// The lights to upload to a shader with `count` light slots: the lights
/// found in the scene, in order, cut or padded with `placeholder`.
pub fn light_slots<T: Copy>(found: &[T], count: usize, placeholder: T) -> (r: Vec<T>)
    ensures
        r@ == fit_slots(found@, count as nat, placeholder),
{
    let mut slots: Vec<T> = Vec::new();
    let mut i: usize = 0;
    while i < count
        invariant
            i <= count,
            slots@ == fit_slots(found@, i as nat, placeholder),
        decreases count - i,
    {
        if i < found.len() {
            slots.push(found[i]);
        } else {
            slots.push(placeholder);
        }
        assert(slots@ =~= fit_slots(found@, (i + 1) as nat, placeholder));
        i += 1;
    }
    slots
}

} // verus!
