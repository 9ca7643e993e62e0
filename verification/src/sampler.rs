//! Texture sampling parameters and texture units.

use vstd::prelude::*;

use crate::error::Error;
use crate::gl;

verus! {

/// Allowed magnification filters.
pub open spec fn is_mag_filter(f: i32) -> bool {
    f == gl::NEAREST || f == gl::LINEAR
}

/// Allowed minification filters.
pub open spec fn is_min_filter(f: i32) -> bool {
    f == gl::NEAREST || f == gl::LINEAR || f == gl::NEAREST_MIPMAP_NEAREST || f
        == gl::LINEAR_MIPMAP_NEAREST || f == gl::NEAREST_MIPMAP_LINEAR || f == gl::LINEAR_MIPMAP_LINEAR
}

/// Allowed wrap modes.
pub open spec fn is_wrap(w: i32) -> bool {
    w == gl::CLAMP_TO_EDGE || w == gl::MIRRORED_REPEAT || w == gl::REPEAT
}

/// Minification filters that read mipmaps.
pub open spec fn is_mipmap_filter(f: i32) -> bool {
    f == gl::NEAREST_MIPMAP_NEAREST || f == gl::LINEAR_MIPMAP_NEAREST || f == gl::NEAREST_MIPMAP_LINEAR
        || f == gl::LINEAR_MIPMAP_LINEAR
}

pub const DEFAULT_MAG_FILTER: i32 = 9729;
pub const DEFAULT_MIN_FILTER: i32 = 9987;

/// How a texture is filtered and wrapped; every field holds an allowed value.
#[derive(Debug, Clone, Copy, PartialEq, Eq, Structural)]
pub struct Sampler {
    mag_filter: i32,
    min_filter: i32,
    wrap_s: i32,
    wrap_t: i32,
}

impl Sampler {
    #[verifier::type_invariant]
    spec fn allowed(self) -> bool {
        &&& is_mag_filter(self.mag_filter)
        &&& is_min_filter(self.min_filter)
        &&& is_wrap(self.wrap_s)
        &&& is_wrap(self.wrap_t)
    }

    pub closed spec fn spec_mag_filter(self) -> i32 {
        self.mag_filter
    }

    pub closed spec fn spec_min_filter(self) -> i32 {
        self.min_filter
    }

    pub closed spec fn spec_wrap_s(self) -> i32 {
        self.wrap_s
    }

    pub closed spec fn spec_wrap_t(self) -> i32 {
        self.wrap_t
    }

    /// Checks the parameters, in the order magnification filter,
    /// minification filter, horizontal wrap, vertical wrap; absent filters
    /// take the defaults (linear, and linear between linear mipmaps).
    pub fn new(mag_filter: Option<i32>, min_filter: Option<i32>, wrap_s: i32, wrap_t: i32) -> (r:
        Result<Self, Error>)
        ensures
            r is Ok <==> {
                &&& (mag_filter matches Some(f) ==> is_mag_filter(f))
                &&& (min_filter matches Some(f) ==> is_min_filter(f))
                &&& is_wrap(wrap_s)
                &&& is_wrap(wrap_t)
            },
            r matches Err(e) ==> e == if mag_filter is Some && !is_mag_filter(mag_filter->0) {
                Error::UnknownMagFilter(mag_filter->0)
            } else if min_filter is Some && !is_min_filter(min_filter->0) {
                Error::UnknownMinFilter(min_filter->0)
            } else if !is_wrap(wrap_s) {
                Error::UnknownWrapS(wrap_s)
            } else {
                Error::UnknownWrapT(wrap_t)
            },
            r matches Ok(s) ==> {
                &&& s.spec_mag_filter() == match mag_filter {
                    Some(f) => f,
                    None => DEFAULT_MAG_FILTER,
                }
                &&& s.spec_min_filter() == match min_filter {
                    Some(f) => f,
                    None => DEFAULT_MIN_FILTER,
                }
                &&& s.spec_wrap_s() == wrap_s
                &&& s.spec_wrap_t() == wrap_t
            },
    {
        if let Some(f) = mag_filter {
            if !(f == gl::NEAREST as i32 || f == gl::LINEAR as i32) {
                return Err(Error::UnknownMagFilter(f));
            }
        }
        if let Some(f) = min_filter {
            if !(f == gl::NEAREST as i32 || f == gl::LINEAR as i32 || f == gl::NEAREST_MIPMAP_NEAREST as i32
                || f == gl::LINEAR_MIPMAP_NEAREST as i32 || f == gl::NEAREST_MIPMAP_LINEAR as i32 || f
                == gl::LINEAR_MIPMAP_LINEAR as i32) {
                return Err(Error::UnknownMinFilter(f));
            }
        }
        if !Self::wrap_allowed(wrap_s) {
            return Err(Error::UnknownWrapS(wrap_s));
        }
        if !Self::wrap_allowed(wrap_t) {
            return Err(Error::UnknownWrapT(wrap_t));
        }
        let mag = match mag_filter {
            Some(f) => f,
            None => DEFAULT_MAG_FILTER,
        };
        let min = match min_filter {
            Some(f) => f,
            None => DEFAULT_MIN_FILTER,
        };
        Ok(Sampler { mag_filter: mag, min_filter: min, wrap_s, wrap_t })
    }

    fn wrap_allowed(w: i32) -> (r: bool)
        ensures
            r == is_wrap(w),
    {
        w == gl::CLAMP_TO_EDGE as i32 || w == gl::MIRRORED_REPEAT as i32 || w == gl::REPEAT as i32
    }

    pub fn mag_filter(&self) -> (r: i32)
        ensures
            r == self.spec_mag_filter(),
            is_mag_filter(r),
    {
        proof {
            use_type_invariant(self);
        }
        self.mag_filter
    }

    pub fn min_filter(&self) -> (r: i32)
        ensures
            r == self.spec_min_filter(),
            is_min_filter(r),
    {
        proof {
            use_type_invariant(self);
        }
        self.min_filter
    }

    pub fn wrap_s(&self) -> (r: i32)
        ensures
            r == self.spec_wrap_s(),
            is_wrap(r),
    {
        proof {
            use_type_invariant(self);
        }
        self.wrap_s
    }

    pub fn wrap_t(&self) -> (r: i32)
        ensures
            r == self.spec_wrap_t(),
            is_wrap(r),
    {
        proof {
            use_type_invariant(self);
        }
        self.wrap_t
    }

    /// Whether the minification filter reads mipmaps, so that mipmaps have
    /// to be generated.
    pub fn has_mipmap_filter(&self) -> (r: bool)
        ensures
            r == is_mipmap_filter(self.spec_min_filter()),
            r <==> 9984 <= self.spec_min_filter() <= 9987,
    {
        proof {
            use_type_invariant(self);
        }
        let min_filter = self.min_filter as u32;
        min_filter == gl::NEAREST_MIPMAP_NEAREST || min_filter == gl::LINEAR_MIPMAP_NEAREST || min_filter
            == gl::NEAREST_MIPMAP_LINEAR || min_filter == gl::LINEAR_MIPMAP_LINEAR
    }
}

impl Default for Sampler {
    fn default() -> (r: Self)
        ensures
            r.spec_mag_filter() == DEFAULT_MAG_FILTER,
            r.spec_min_filter() == DEFAULT_MIN_FILTER,
            r.spec_wrap_s() == gl::REPEAT,
            r.spec_wrap_t() == gl::REPEAT,
    {
        Sampler {
            mag_filter: DEFAULT_MAG_FILTER,
            min_filter: DEFAULT_MIN_FILTER,
            wrap_s: gl::REPEAT as i32,
            wrap_t: gl::REPEAT as i32,
        }
    }
}

/// A texture unit, by its index from the first one.
#[derive(Debug, Clone, Copy, PartialEq, Eq, Structural)]
pub struct TextureUnit(pub u32);

impl TextureUnit {
    /// The GL name of this unit, to be made active.
    pub fn texture_enum(&self) -> (r: u32)
        requires
            self.0 <= u32::MAX - gl::TEXTURE0,
        ensures
            r == gl::TEXTURE0 + self.0,
    {
        gl::TEXTURE0 + self.0
    }

    /// Type of the uniform that receives the unit.
    pub fn value_type(&self) -> (r: u32)
        ensures
            r == gl::SAMPLER_2D,
    {
        gl::SAMPLER_2D
    }
}

/// The minification filters that sample mipmaps are exactly the four GL
/// mipmap filters, 9984 to 9987 (nearest or linear within a level, nearest
/// or linear between levels); plain nearest and linear filtering need none.
pub proof fn law_mipmap_filters(f: i32)
    ensures
        is_mipmap_filter(f) <==> 9984 <= f <= 9987,
        !is_mipmap_filter(9728),
        !is_mipmap_filter(9729),
        is_mipmap_filter(f) ==> is_min_filter(f),
{
}

} // verus!
