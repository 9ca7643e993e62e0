//! Vertex attribute data kept on the CPU side: a flat buffer of components,
//! its layout and the number of vertices it holds.

use vstd::prelude::*;

use crate::error::Error;
use crate::gl;

verus! {

broadcast use vstd::seq::Seq::lemma_flatten_push;

/// Layout of one vertex in an attribute buffer: number of components and
/// their GL type.
#[derive(Debug, Clone, Copy, PartialEq, Eq, Structural)]
pub struct DataKind {
    size: i32,
    gl_type: u32,
}

impl DataKind {
    pub closed spec fn spec_size(self) -> i32 {
        self.size
    }

    pub closed spec fn spec_gl_type(self) -> u32 {
        self.gl_type
    }

    pub fn new(size: i32, gl_type: u32) -> (r: DataKind)
        ensures
            r.spec_size() == size,
            r.spec_gl_type() == gl_type,
    {
        DataKind { size, gl_type }
    }

    pub fn size(&self) -> (r: i32)
        ensures
            r == self.spec_size(),
    {
        self.size
    }

    pub fn gl_type(&self) -> (r: u32)
        ensures
            r == self.spec_gl_type(),
    {
        self.gl_type
    }

    /// Two layouts are the same exactly when their sizes and types are.
    pub proof fn lemma_eq(self, other: DataKind)
        ensures
            (self == other) <==> (self.spec_size() == other.spec_size() && self.spec_gl_type()
                == other.spec_gl_type()),
    {
    }
}

/// The concatenation of the arrays in `data`, in order.
pub open spec fn flat<T, const N: usize>(data: Seq<[T; N]>) -> Seq<T> {
    data.map_values(|a: [T; N]| a@).flatten()
}

/// The components of all arrays of `data`, one array after the other.
pub fn flatten_arrays<T: Copy, const N: usize>(data: &[[T; N]]) -> (r: Vec<T>)
    ensures
        r@ == flat(data@),
{
    let mut result: Vec<T> = Vec::new();
    let mut i: usize = 0;
    while i < data.len()
        invariant
            i <= data@.len(),
            result@ == flat(data@.take(i as int)),
        decreases data@.len() - i,
    {
        let item: &[T; N] = &data[i];
        let mut j: usize = 0;
        while j < N
            invariant
                i < data@.len(),
                *item == data@[i as int],
                j <= N,
                item@.len() == N,
                result@ == flat(data@.take(i as int)) + item@.take(j as int),
            decreases N - j,
        {
            result.push(item[j]);
            assert(item@.take(j as int).push(item@[j as int]) =~= item@.take(j + 1));
            j += 1;
        }
        proof {
            assert(item@.take(N as int) =~= item@);
            assert(data@.take(i + 1).map_values(|a: [T; N]| a@) =~= data@.take(i as int).map_values(
                |a: [T; N]| a@,
            ).push(item@));
        }
        i += 1;
    }
    assert(data@.take(data@.len() as int) =~= data@);
    result
}

/// Appends copies of the elements of `other` to `v`.
pub fn extend_copied<T: Copy>(v: &mut Vec<T>, other: &[T])
    ensures
        final(v)@ == old(v)@ + other@,
{
    let mut i: usize = 0;
    while i < other.len()
        invariant
            i <= other@.len(),
            v@ == old(v)@ + other@.take(i as int),
        decreases other@.len() - i,
    {
        v.push(other[i]);
        assert(other@.take(i as int).push(other@[i as int]) =~= other@.take(i + 1));
        i += 1;
    }
    assert(other@.take(other@.len() as int) =~= other@);
}

/// Attribute components of type `T` with their layout and vertex count.
pub struct AttributeData<T> {
    data: Vec<T>,
    kind: DataKind,
    count: i32,
}

impl<T> AttributeData<T> {
    pub closed spec fn elements(&self) -> Seq<T> {
        self.data@
    }

    pub closed spec fn layout(&self) -> DataKind {
        self.kind
    }

    pub closed spec fn vertex_count(&self) -> i32 {
        self.count
    }

    pub fn new(data: Vec<T>, kind: DataKind, count: i32) -> (r: Self)
        ensures
            r.elements() == data@,
            r.layout() == kind,
            r.vertex_count() == count,
    {
        Self { data, kind, count }
    }

    /// Attribute data of `length` vertices of `size` float components each.
    pub fn new_with_flat_array(data: Vec<T>, size: usize, length: usize) -> (r: Self)
        requires
            size <= i32::MAX,
            length <= i32::MAX,
        ensures
            r.elements() == data@,
            r.layout().spec_size() == size,
            r.layout().spec_gl_type() == gl::FLOAT,
            r.vertex_count() == length,
    {
        Self::new(data, DataKind::new(size as i32, gl::FLOAT), length as i32)
    }

    pub fn data(&self) -> (r: &[T])
        ensures
            r@ == self.elements(),
    {
        self.data.as_slice()
    }

    pub fn kind(&self) -> (r: DataKind)
        ensures
            r == self.layout(),
    {
        self.kind
    }

    pub fn count(&self) -> (r: i32)
        ensures
            r == self.vertex_count(),
    {
        self.count
    }
}

impl<T: Copy> AttributeData<T> {
    /// Attribute data with one vertex per array of `data`.
    pub fn from_arrays<const N: usize>(data: &[[T; N]]) -> (r: Self)
        requires
            N <= i32::MAX,
            data@.len() <= i32::MAX,
        ensures
            r.elements() == flat(data@),
            r.layout().spec_size() == N,
            r.layout().spec_gl_type() == gl::FLOAT,
            r.vertex_count() == data@.len(),
    {
        Self::new_with_flat_array(flatten_arrays(data), N, data.len())
    }

    /// Appends the vertices of `other` when both have the same layout.
    pub fn concat_mut(&mut self, other: &AttributeData<T>) -> (r: Result<(), Error>)
        requires
            old(self).layout() == other.layout() ==> i32::MIN <= old(self).vertex_count()
                + other.vertex_count() <= i32::MAX,
        ensures
            r is Ok <==> old(self).layout() == other.layout(),
            r is Ok ==> {
                &&& final(self).elements() == old(self).elements() + other.elements()
                &&& final(self).layout() == old(self).layout()
                &&& final(self).vertex_count() == old(self).vertex_count() + other.vertex_count()
            },
            r matches Err(e) ==> {
                &&& e == Error::IncompatibleAttributes(old(self).layout(), other.layout())
                &&& *final(self) == *old(self)
            },
    {
        if self.kind == other.kind {
            extend_copied(&mut self.data, other.data.as_slice());
            self.count = self.count + other.count;
            Ok(())
        } else {
            Err(Error::IncompatibleAttributes(self.kind, other.kind))
        }
    }
}


/// Flattening `k` arrays of `N` components gives `k * N` components, the
/// `j`-th component of the `i`-th array at position `i * N + j`.
pub proof fn law_flat_layout<T, const N: usize>(data: Seq<[T; N]>, i: int, j: int)
    requires
        0 <= i < data.len(),
        0 <= j < N,
    ensures
        flat(data).len() == data.len() * N,
        flat(data)[i * N + j] == data[i]@[j],
    decreases data.len(),
{
    let views = data.map_values(|a: [T; N]| a@);
    lemma_flat_len(data);
    if i < data.len() - 1 {
        let init = data.drop_last();
        assert(views =~= init.map_values(|a: [T; N]| a@).push(data.last()@));
        assert(flat(data) == init.map_values(|a: [T; N]| a@).push(data.last()@).flatten());
        law_flat_layout(init, i, j);
        lemma_flat_len(init);
        assert(flat(data) == flat(init) + data.last()@);
        assert(i * N + j < init.len() * N) by (nonlinear_arith)
            requires
                0 <= i < init.len(),
                0 <= j < N,
        ;
    } else {
        let init = data.drop_last();
        assert(views =~= init.map_values(|a: [T; N]| a@).push(data.last()@));
        assert(flat(data) == init.map_values(|a: [T; N]| a@).push(data.last()@).flatten());
        lemma_flat_len(init);
        assert(flat(data) == flat(init) + data.last()@);
        assert(i * N == init.len() * N);
    }
}

proof fn lemma_flat_len<T, const N: usize>(data: Seq<[T; N]>)
    ensures
        flat(data).len() == data.len() * N,
    decreases data.len(),
{
    if data.len() > 0 {
        let init = data.drop_last();
        assert(data.map_values(|a: [T; N]| a@) =~= init.map_values(|a: [T; N]| a@).push(data.last()@));
        assert(flat(data) == init.map_values(|a: [T; N]| a@).push(data.last()@).flatten());
        lemma_flat_len(init);
        assert(data.last()@.len() == N);
        assert(data.len() * N == init.len() * N + N) by (nonlinear_arith)
            requires
                data.len() == init.len() + 1,
        ;
    } else {
        assert(data.map_values(|a: [T; N]| a@) =~= Seq::<Seq<T>>::empty());
        assert(Seq::<Seq<T>>::empty().flatten() =~= Seq::<T>::empty());
    }
}

} // verus!
