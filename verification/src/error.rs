//! Errors reported by the engine's checks.

use vstd::prelude::*;

use crate::attribute::DataKind;

verus! {

/// Why a value was refused.
#[derive(Debug, PartialEq, Eq)]
pub enum Error {
    /// An accessor's component type is not a WebGL data type.
    UnknownComponentType(u32),
    /// An optional vertex attribute is not as long as the positions.
    VectorLengthMismatch,
    /// Two geometries to concatenate disagree on having texture coordinates.
    TexcoordMismatch,
    /// Two geometries to concatenate disagree on having normals.
    NormalMismatch,
    /// Two geometries to concatenate disagree on having colors.
    ColorMismatch,
    /// Two attribute buffers of different layouts cannot be concatenated.
    IncompatibleAttributes(DataKind, DataKind),
    /// A geometry lacks an attribute that another one has.
    MissingAttribute(String),
    /// A primitive's draw mode is not a WebGL draw mode.
    UnknownMode(u32),
    /// A primitive has no vertex attributes at all.
    EmptyAttributes,
    /// The vertex attributes of a primitive hold different numbers of vertices.
    UnequalAttributeCounts,
    /// A sampler's magnification filter is not allowed.
    UnknownMagFilter(i32),
    /// A sampler's minification filter is not allowed.
    UnknownMinFilter(i32),
    /// A sampler's horizontal wrap mode is not allowed.
    UnknownWrapS(i32),
    /// A sampler's vertical wrap mode is not allowed.
    UnknownWrapT(i32),
}

} // verus!
