//! Checks and decisions for drawing a primitive: its draw mode, its vertex
//! attributes and the names of their shader variables.

use vstd::prelude::*;
use vstd::string::StringExecFns;

use crate::error::Error;
use crate::gl;

verus! {

pub const POSITION_ATTRIBUTE: &'static str = "POSITION";
pub const NORMAL_ATTRIBUTE: &'static str = "NORMAL";
pub const TEXCOORD_0_ATTRIBUTE: &'static str = "TEXCOORD_0";
pub const COLOR_0_ATTRIBUTE: &'static str = "COLOR_0";

/// The draw modes a primitive accepts (the strip mode is listed twice, so
/// triangle fans are not accepted).
pub const MODES: [u32; 7] = [
    gl::POINTS,
    gl::LINES,
    gl::LINE_LOOP,
    gl::LINE_STRIP,
    gl::TRIANGLES,
    gl::TRIANGLE_STRIP,
    gl::TRIANGLE_STRIP,
];

/// Whether `mode` is one of [`MODES`].
pub open spec fn is_mode(mode: u32) -> bool {
    mode == gl::POINTS || mode == gl::LINES || mode == gl::LINE_LOOP || mode == gl::LINE_STRIP
        || mode == gl::TRIANGLES || mode == gl::TRIANGLE_STRIP
}

/// The result of `str::to_lowercase` on `s`.
pub uninterp spec fn lowercase(s: Seq<char>) -> Seq<char>;

/// Calls `str::to_lowercase`; its result is named [`lowercase`].
#[verifier::external_body]
fn to_lowercase(s: &str) -> (r: String)
    ensures
        r@ == lowercase(s@),
{
    s.to_lowercase()
}

/// The shader variable bound to an attribute whose lower-cased name is
/// `lowercase_attribute`: the name with the prefix `a_`.
pub fn variable_name(lowercase_attribute: &str) -> (r: String)
    ensures
        r@ == "a_"@ + lowercase_attribute@,
{
    let mut name = String::from_str("a_");
    name.append(lowercase_attribute);
    name
}

/// The shader variable bound to the vertex attribute `attribute`.
pub fn attribute_to_variable_name(attribute: &str) -> (r: String)
    ensures
        r@ == "a_"@ + lowercase(attribute@),
{
    let lower = to_lowercase(attribute);
    variable_name(lower.as_str())
}


/// Whether some name in `names` is `name`.
pub open spec fn has_name(names: Seq<String>, name: Seq<char>) -> bool {
    exists|i: int| 0 <= i < names.len() && (#[trigger] names[i])@ == name
}

/// Whether `names` holds `name`.
pub fn contains_name(names: &[String], name: &str) -> (r: bool)
    ensures
        r == has_name(names@, name@),
{
    let wanted = String::from_str(name);
    let mut i: usize = 0;
    while i < names.len()
        invariant
            i <= names@.len(),
            wanted@ == name@,
            forall|j: int| 0 <= j < i ==> (#[trigger] names@[j])@ != name@,
        decreases names@.len() - i,
    {
        if names[i] == wanted {
            return true;
        }
        i += 1;
    }
    false
}

/// Checks the draw mode and that a position attribute is among the
/// attribute names, in that order.
pub fn check_attributes(mode: u32, attribute_names: &[String]) -> (r: Result<(), Error>)
    ensures
        r is Ok <==> is_mode(mode) && has_name(attribute_names@, POSITION_ATTRIBUTE@),
        r matches Err(e) ==> if !is_mode(mode) {
            e == Error::UnknownMode(mode)
        } else {
            e matches Error::MissingAttribute(n) && n@ == POSITION_ATTRIBUTE@
        },
{
    let mut i: usize = 0;
    let mut known = false;
    while i < 7
        invariant
            i <= 7,
            known <==> exists|j: int| 0 <= j < i && MODES@[j] == mode,
        decreases 7 - i,
    {
        if MODES[i] == mode {
            known = true;
        }
        i += 1;
    }
    assert(known <==> is_mode(mode)) by {
        if is_mode(mode) {
            if mode == gl::POINTS { assert(MODES@[0] == mode); }
            else if mode == gl::LINES { assert(MODES@[1] == mode); }
            else if mode == gl::LINE_LOOP { assert(MODES@[2] == mode); }
            else if mode == gl::LINE_STRIP { assert(MODES@[3] == mode); }
            else if mode == gl::TRIANGLES { assert(MODES@[4] == mode); }
            else { assert(MODES@[5] == mode); }
        }
    }
    if !known {
        return Err(Error::UnknownMode(mode));
    }
    if !contains_name(attribute_names, POSITION_ATTRIBUTE) {
        return Err(Error::MissingAttribute(String::from_str(POSITION_ATTRIBUTE)));
    }
    Ok(())
}

/// Whether every count equals the first.
pub open spec fn all_equal(counts: Seq<i32>) -> bool {
    forall|i: int| 0 <= i < counts.len() ==> #[trigger] counts[i] == counts[0]
}

/// The common vertex count of the attributes.
pub fn get_vertex_count(counts: &[i32]) -> (r: Result<i32, Error>)
    ensures
        counts@.len() == 0 ==> r == Err::<i32, Error>(Error::EmptyAttributes),
        counts@.len() != 0 && all_equal(counts@) ==> r == Ok::<i32, Error>(counts@[0]),
        counts@.len() != 0 && !all_equal(counts@) ==> r == Err::<i32, Error>(Error::UnequalAttributeCounts),
{
    if counts.len() == 0 {
        return Err(Error::EmptyAttributes);
    }
    let count = counts[0];
    let mut i: usize = 0;
    while i < counts.len()
        invariant
            counts@.len() != 0,
            count == counts@[0],
            i <= counts@.len(),
            forall|j: int| 0 <= j < i ==> #[trigger] counts@[j] == count,
        decreases counts@.len() - i,
    {
        if counts[i] != count {
            return Err(Error::UnequalAttributeCounts);
        }
        i += 1;
    }
    Ok(count)
}

/// The mode the material prefers, if any, else the requested one.
pub fn effective_mode(preferred_mode: Option<u32>, mode: u32) -> (r: u32)
    ensures
        r == match preferred_mode {
            Some(m) => m,
            None => mode,
        },
{
    match preferred_mode {
        Some(m) => m,
        None => mode,
    }
}

/// Whether the mode draws filled triangles.
pub fn is_triangle_based(mode: u32) -> (r: bool)
    ensures
        r <==> (mode == gl::TRIANGLES || mode == gl::TRIANGLE_STRIP),
{
    mode == gl::TRIANGLES || mode == gl::TRIANGLE_STRIP || mode == gl::TRIANGLE_STRIP
}

} // verus!
