//! How a vertex attribute is laid out in a GL buffer: component type,
//! element shape, count and stride.

use vstd::prelude::*;

use crate::error::Error;
use crate::gl;
use crate::validate;

verus! {

/// Shape of one element: a vector of `size` components, or a single scalar.
#[derive(Debug, Clone, Copy, PartialEq, Eq, Structural)]
pub enum AccessorType {
    Vec { size: i32 },
    Scalar,
}

impl AccessorType {
    /// Number of components of one element.
    pub open spec fn spec_size(self) -> i32 {
        match self {
            AccessorType::Vec { size } => size,
            AccessorType::Scalar => 1,
        }
    }

    pub fn vec(size: i32) -> (r: AccessorType)
        ensures
            r == (AccessorType::Vec { size }),
    {
        AccessorType::Vec { size }
    }

    pub fn scalar() -> (r: AccessorType)
        ensures
            r == AccessorType::Scalar,
    {
        AccessorType::Scalar
    }

    pub fn size(&self) -> (r: i32)
        ensures
            r == self.spec_size(),
    {
        match self {
            AccessorType::Vec { size } => *size,
            AccessorType::Scalar => 1,
        }
    }
}

/// The component types an accessor may have.
pub const COMPONENT_TYPES: [u32; 6] = [
    gl::BYTE,
    gl::UNSIGNED_BYTE,
    gl::SHORT,
    gl::UNSIGNED_SHORT,
    gl::UNSIGNED_INT,
    gl::FLOAT,
];

/// Whether `t` is one of [`COMPONENT_TYPES`].
pub open spec fn is_component_type(t: u32) -> bool {
    t == gl::BYTE || t == gl::UNSIGNED_BYTE || t == gl::SHORT || t == gl::UNSIGNED_SHORT
        || t == gl::UNSIGNED_INT || t == gl::FLOAT
}

/// Size in bytes of one component of type `t`.
pub open spec fn component_size(t: u32) -> int {
    if t == gl::BYTE || t == gl::UNSIGNED_BYTE {
        1
    } else if t == gl::SHORT || t == gl::UNSIGNED_SHORT {
        2
    } else {
        4
    }
}

/// Number of components that a view of `count` elements covers.
pub open spec fn array_length(accessor_type: AccessorType, component_type: u32, count: i32, byte_stride: i32) -> int {
    if byte_stride > 0 {
        (byte_stride as int / component_size(component_type)) * (count - 1) + accessor_type.spec_size()
    } else {
        count * accessor_type.spec_size()
    }
}

/// Whether [`array_length`] and every step of its computation fit in an `i32`.
pub open spec fn array_length_fits(accessor_type: AccessorType, component_type: u32, count: i32, byte_stride: i32) -> bool {
    if byte_stride > 0 {
        let step = byte_stride as int / component_size(component_type);
        &&& i32::MIN <= count - 1
        &&& i32::MIN <= step * (count - 1) <= i32::MAX
        &&& i32::MIN <= array_length(accessor_type, component_type, count, byte_stride) <= i32::MAX
    } else {
        i32::MIN <= array_length(accessor_type, component_type, count, byte_stride) <= i32::MAX
    }
}

/// The typed array through which the buffer of an accessor is read.
#[derive(Debug, Clone, Copy, PartialEq, Eq, Structural)]
pub enum ViewKind {
    Uint16,
    Float32,
}

/// Everything that describes an accessor before it is checked; `F` is the
/// type of the optional bounds.
pub struct AccessorProperties<F> {
    pub byte_offset: u32,
    pub component_type: u32,
    pub count: i32,
    pub accessor_type: AccessorType,
    pub min: Option<Vec<F>>,
    pub max: Option<Vec<F>>,
    pub normalized: bool,
}

/// Properties of a tightly packed float buffer of `count` vectors of `size`
/// components, read from its start, without bounds, not normalized.
pub fn float_vector_properties<F>(size: i32, count: i32) -> (r: AccessorProperties<F>)
    ensures
        r.byte_offset == 0,
        r.component_type == gl::FLOAT,
        r.count == count,
        r.accessor_type == (AccessorType::Vec { size }),
        r.min is None,
        r.max is None,
        !r.normalized,
{
    AccessorProperties {
        byte_offset: 0,
        component_type: gl::FLOAT,
        count,
        accessor_type: AccessorType::vec(size),
        min: None,
        max: None,
        normalized: false,
    }
}

fn unknown_component_type(value: &u32) -> (e: Error)
    ensures
        e == Error::UnknownComponentType(*value),
{
    Error::UnknownComponentType(*value)
}

/// A checked accessor layout.
pub struct Accessor<F> {
    byte_offset: u32,
    pub component_type: u32,
    pub count: i32,
    accessor_type: AccessorType,
    min: Option<Vec<F>>,
    max: Option<Vec<F>>,
    normalized: bool,
}

impl<F> Accessor<F> {
    pub closed spec fn spec_byte_offset(&self) -> u32 {
        self.byte_offset
    }

    pub closed spec fn spec_component_type(&self) -> u32 {
        self.component_type
    }

    pub closed spec fn spec_count(&self) -> i32 {
        self.count
    }

    pub closed spec fn spec_accessor_type(&self) -> AccessorType {
        self.accessor_type
    }

    pub closed spec fn spec_normalized(&self) -> bool {
        self.normalized
    }

    pub closed spec fn spec_min(&self) -> Option<Vec<F>> {
        self.min
    }

    pub closed spec fn spec_max(&self) -> Option<Vec<F>> {
        self.max
    }

    /// Checks the component type and keeps the properties.
    pub fn initialize(properties: AccessorProperties<F>) -> (r: Result<Self, Error>)
        ensures
            r is Ok <==> is_component_type(properties.component_type),
            r matches Err(e) ==> e == Error::UnknownComponentType(properties.component_type),
            r matches Ok(a) ==> {
                &&& a.spec_byte_offset() == properties.byte_offset
                &&& a.spec_component_type() == properties.component_type
                &&& a.spec_count() == properties.count
                &&& a.spec_accessor_type() == properties.accessor_type
                &&& a.spec_min() == properties.min
                &&& a.spec_max() == properties.max
                &&& a.spec_normalized() == properties.normalized
            },
    {
        let component_types = COMPONENT_TYPES;
        assert(validate::spec_contains(component_types@, properties.component_type)
            <==> is_component_type(properties.component_type)) by {
            if is_component_type(properties.component_type) {
                let t = properties.component_type;
                if t == gl::BYTE { assert(component_types@[0] == t); }
                else if t == gl::UNSIGNED_BYTE { assert(component_types@[1] == t); }
                else if t == gl::SHORT { assert(component_types@[2] == t); }
                else if t == gl::UNSIGNED_SHORT { assert(component_types@[3] == t); }
                else if t == gl::UNSIGNED_INT { assert(component_types@[4] == t); }
                else { assert(component_types@[5] == t); }
            }
        }
        let checked = validate::contains(
            &properties.component_type,
            &component_types,
            unknown_component_type,
        );
        match checked {
            Err(e) => Err(e),
            Ok(()) => Ok(Accessor {
                byte_offset: properties.byte_offset,
                component_type: properties.component_type,
                count: properties.count,
                accessor_type: properties.accessor_type,
                min: properties.min,
                max: properties.max,
                normalized: properties.normalized,
            }),
        }
    }

    pub fn byte_offset(&self) -> (r: u32)
        ensures
            r == self.spec_byte_offset(),
    {
        self.byte_offset
    }

    pub fn accessor_type(&self) -> (r: AccessorType)
        ensures
            r == self.spec_accessor_type(),
    {
        self.accessor_type
    }

    pub fn normalized(&self) -> (r: bool)
        ensures
            r == self.spec_normalized(),
    {
        self.normalized
    }

    pub fn min(&self) -> (r: &Option<Vec<F>>)
        ensures
            *r == self.spec_min(),
    {
        &self.min
    }

    pub fn max(&self) -> (r: &Option<Vec<F>>)
        ensures
            *r == self.spec_max(),
    {
        &self.max
    }

    /// Size in bytes of one component.
    pub fn component_byte_length(&self) -> (r: usize)
        requires
            is_component_type(self.spec_component_type()),
        ensures
            r == component_size(self.spec_component_type()),
            self.spec_component_type() == 5120 || self.spec_component_type() == 5121 ==> r == 1,
            self.spec_component_type() == 5122 || self.spec_component_type() == 5123 ==> r == 2,
            self.spec_component_type() == 5125 || self.spec_component_type() == 5126 ==> r == 4,
    {
        let t = self.component_type;
        if t == gl::BYTE || t == gl::UNSIGNED_BYTE {
            1
        } else if t == gl::SHORT || t == gl::UNSIGNED_SHORT {
            2
        } else {
            4
        }
    }

    /// Number of components to read from a buffer whose elements lie
    /// `byte_stride` bytes apart (0 for tightly packed).
    pub fn get_array_length(&self, byte_stride: i32) -> (r: i32)
        requires
            is_component_type(self.spec_component_type()),
            array_length_fits(self.spec_accessor_type(), self.spec_component_type(), self.spec_count(), byte_stride),
        ensures
            r == array_length(self.spec_accessor_type(), self.spec_component_type(), self.spec_count(), byte_stride),
    {
        let size = self.accessor_type.size();
        if byte_stride > 0 {
            let component = self.component_byte_length();
            let step = byte_stride / (component as i32);
            step * (self.count - 1) + size
        } else {
            self.count * size
        }
    }

    /// The typed array kind for reading the buffer; `None` for component
    /// types that cannot be read.
    pub fn view_kind(&self) -> (r: Option<ViewKind>)
        ensures
            self.spec_component_type() == gl::UNSIGNED_SHORT ==> r == Some(ViewKind::Uint16),
            self.spec_component_type() == gl::FLOAT ==> r == Some(ViewKind::Float32),
            self.spec_component_type() != gl::UNSIGNED_SHORT && self.spec_component_type() != gl::FLOAT ==> r is None,
    {
        if self.component_type == gl::UNSIGNED_SHORT {
            Some(ViewKind::Uint16)
        } else if self.component_type == gl::FLOAT {
            Some(ViewKind::Float32)
        } else {
            None
        }
    }
}

/// A component takes the byte size of its GL type: one byte for (unsigned)
/// bytes, two for (unsigned) shorts, four for unsigned ints and floats; a
/// strided read steps over `stride / size` components per element.
pub proof fn law_component_sizes(accessor_type: AccessorType, count: i32, byte_stride: i32)
    ensures
        component_size(5120) == 1,
        component_size(5121) == 1,
        component_size(5122) == 2,
        component_size(5123) == 2,
        component_size(5125) == 4,
        component_size(5126) == 4,
        byte_stride > 0 ==> array_length(accessor_type, 5123, count, byte_stride) == (byte_stride as int / 2)
            * (count - 1) + accessor_type.spec_size(),
        byte_stride > 0 ==> array_length(accessor_type, 5126, count, byte_stride) == (byte_stride as int / 4)
            * (count - 1) + accessor_type.spec_size(),
        byte_stride > 0 ==> array_length(accessor_type, 5121, count, byte_stride) == byte_stride as int
            * (count - 1) + accessor_type.spec_size(),
{
}

} // verus!
