//! Geometry given per vertex: positions, and optionally texture
//! coordinates, normals and colors, one of each per position.

use vstd::prelude::*;
use vstd::string::StringExecFns;

use crate::attribute::{extend_copied, flat, AttributeData};
use crate::buffer_geometry::{has_name, insert_entry, Geometry};
use crate::gl;
use crate::primitive::{COLOR_0_ATTRIBUTE, NORMAL_ATTRIBUTE, POSITION_ATTRIBUTE, TEXCOORD_0_ATTRIBUTE};
use crate::error::Error;

verus! {

/// The elements of an optional vector; `None` when there is no vector.
pub open spec fn optional_view<A>(o: Option<Vec<A>>) -> Option<Seq<A>> {
    match o {
        Some(v) => Some(v@),
        None => None,
    }
}

/// An optional vector is either absent or exactly `n` long.
pub open spec fn has_len_or_none<A>(o: Option<Vec<A>>, n: nat) -> bool {
    o matches Some(v) ==> v@.len() == n
}

/// The concatenation of two optional sequences that are both present or both absent.
pub open spec fn optional_concat<A>(a: Option<Seq<A>>, b: Option<Seq<A>>) -> Option<Seq<A>> {
    match (a, b) {
        (Some(x), Some(y)) => Some(x + y),
        _ => a,
    }
}

/// Vertex data of a geometry; `V2`, `V3` and `V4` are the vector types of
/// texture coordinates, positions and normals, and colors.
pub struct TypedGeometry<V2, V3, V4> {
    position: Vec<V3>,
    texcoord_0: Option<Vec<V2>>,
    normal: Option<Vec<V3>>,
    color_0: Option<Vec<V4>>,
}

fn length_mismatch() -> (e: Error)
    ensures
        e == Error::VectorLengthMismatch,
{
    Error::VectorLengthMismatch
}

fn optional_has_len<A>(o: &Option<Vec<A>>, n: usize) -> (r: bool)
    ensures
        r == has_len_or_none(*o, n as nat),
{
    match o {
        Some(v) => v.len() == n,
        None => true,
    }
}

fn extend_optional<A: Copy>(dst: &mut Option<Vec<A>>, src: &Option<Vec<A>>)
    requires
        *old(dst) is Some <==> *src is Some,
    ensures
        optional_view(*final(dst)) == optional_concat(optional_view(*old(dst)), optional_view(*src)),
{
    match dst {
        Some(d) => {
            match src {
                Some(s) => extend_copied(d, s.as_slice()),
                None => {},
            }
        },
        None => {},
    }
}

impl<V2, V3, V4> TypedGeometry<V2, V3, V4> {
    pub closed spec fn positions(&self) -> Seq<V3> {
        self.position@
    }

    pub closed spec fn texcoords(&self) -> Option<Seq<V2>> {
        optional_view(self.texcoord_0)
    }

    pub closed spec fn normals(&self) -> Option<Seq<V3>> {
        optional_view(self.normal)
    }

    pub closed spec fn colors(&self) -> Option<Seq<V4>> {
        optional_view(self.color_0)
    }

    /// Every present optional attribute has one entry per position.
    pub open spec fn wf(&self) -> bool {
        &&& (self.texcoords() matches Some(t) ==> t.len() == self.positions().len())
        &&& (self.normals() matches Some(n) ==> n.len() == self.positions().len())
        &&& (self.colors() matches Some(c) ==> c.len() == self.positions().len())
    }

    /// Keeps the vertex data when every optional attribute is as long as
    /// the positions. (An empty position list is accepted.)
    pub fn new(
        position: Vec<V3>,
        texcoord_0: Option<Vec<V2>>,
        normal: Option<Vec<V3>>,
        color_0: Option<Vec<V4>>,
    ) -> (r: Result<Self, Error>)
        ensures
            r is Ok <==> {
                &&& has_len_or_none(texcoord_0, position@.len())
                &&& has_len_or_none(normal, position@.len())
                &&& has_len_or_none(color_0, position@.len())
            },
            r matches Err(e) ==> e == Error::VectorLengthMismatch,
            r matches Ok(g) ==> {
                &&& g.positions() == position@
                &&& g.texcoords() == optional_view(texcoord_0)
                &&& g.normals() == optional_view(normal)
                &&& g.colors() == optional_view(color_0)
                &&& g.wf()
            },
    {
        let n = position.len();
        if !optional_has_len(&texcoord_0, n) {
            return Err(length_mismatch());
        }
        if !optional_has_len(&normal, n) {
            return Err(length_mismatch());
        }
        if !optional_has_len(&color_0, n) {
            return Err(length_mismatch());
        }
        Ok(Self { position, texcoord_0, normal, color_0 })
    }

    pub fn has_texcoord(&self) -> (r: bool)
        ensures
            r == self.texcoords() is Some,
    {
        self.texcoord_0.is_some()
    }

    pub fn has_normal(&self) -> (r: bool)
        ensures
            r == self.normals() is Some,
    {
        self.normal.is_some()
    }

    pub fn has_color(&self) -> (r: bool)
        ensures
            r == self.colors() is Some,
    {
        self.color_0.is_some()
    }

    pub fn position(&self) -> (r: &[V3])
        ensures
            r@ == self.positions(),
    {
        self.position.as_slice()
    }

    pub fn texcoord_0(&self) -> (r: &Option<Vec<V2>>)
        ensures
            optional_view(*r) == self.texcoords(),
    {
        &self.texcoord_0
    }

    pub fn normal(&self) -> (r: &Option<Vec<V3>>)
        ensures
            optional_view(*r) == self.normals(),
    {
        &self.normal
    }

    pub fn color_0(&self) -> (r: &Option<Vec<V4>>)
        ensures
            optional_view(*r) == self.colors(),
    {
        &self.color_0
    }
}

impl<V2, V3, V4> TypedGeometry<V2, V3, V4> {
    /// Replaces the positions by as many new ones (the positions after a
    /// transform), keeping the other attributes.
    pub fn set_position(&mut self, position: Vec<V3>)
        requires
            position@.len() == old(self).positions().len(),
        ensures
            final(self).positions() == position@,
            final(self).texcoords() == old(self).texcoords(),
            final(self).normals() == old(self).normals(),
            final(self).colors() == old(self).colors(),
            old(self).wf() ==> final(self).wf(),
    {
        self.position = position;
    }
}

impl<V2: Copy, V3: Copy, V4: Copy> TypedGeometry<V2, V3, V4> {
    /// Appends the vertices of `other`; both must agree on which optional
    /// attributes they carry.
    pub fn concat_mut(&mut self, other: &TypedGeometry<V2, V3, V4>) -> (r: Result<(), Error>)
        ensures
            r is Ok <==> {
                &&& (old(self).texcoords() is Some <==> other.texcoords() is Some)
                &&& (old(self).normals() is Some <==> other.normals() is Some)
                &&& (old(self).colors() is Some <==> other.colors() is Some)
            },
            r matches Err(e) ==> {
                &&& *final(self) == *old(self)
                &&& e == if (old(self).texcoords() is Some) != (other.texcoords() is Some) {
                    Error::TexcoordMismatch
                } else if (old(self).normals() is Some) != (other.normals() is Some) {
                    Error::NormalMismatch
                } else {
                    Error::ColorMismatch
                }
            },
            r is Ok ==> {
                &&& final(self).positions() == old(self).positions() + other.positions()
                &&& final(self).texcoords() == optional_concat(old(self).texcoords(), other.texcoords())
                &&& final(self).normals() == optional_concat(old(self).normals(), other.normals())
                &&& final(self).colors() == optional_concat(old(self).colors(), other.colors())
            },
            old(self).wf() && other.wf() ==> final(self).wf(),
    {
        if self.has_texcoord() != other.has_texcoord() {
            return Err(Error::TexcoordMismatch);
        }
        if self.has_normal() != other.has_normal() {
            return Err(Error::NormalMismatch);
        }
        if self.has_color() != other.has_color() {
            return Err(Error::ColorMismatch);
        }
        extend_copied(&mut self.position, other.position.as_slice());
        extend_optional(&mut self.texcoord_0, &other.texcoord_0);
        extend_optional(&mut self.normal, &other.normal);
        extend_optional(&mut self.color_0, &other.color_0);
        Ok(())
    }
}

/// `a` as a one-element sequence when `present`, else empty.
pub open spec fn when_present<A>(present: bool, a: A) -> Seq<A> {
    if present {
        seq![a]
    } else {
        Seq::empty()
    }
}

/// For each attribute of a typed geometry, in order (positions, then the
/// texture coordinates, normals and colors that are present): its name,
/// its components and the number of components per vertex.
pub open spec fn typed_attributes<T>(g: TypedGeometry<[T; 2], [T; 3], [T; 4]>) -> Seq<(Seq<char>, Seq<T>, int)> {
    seq![(POSITION_ATTRIBUTE@, flat(g.positions()), 3int)] + when_present(
        g.texcoords() is Some,
        (TEXCOORD_0_ATTRIBUTE@, flat(g.texcoords()->0), 2int),
    ) + when_present(g.normals() is Some, (NORMAL_ATTRIBUTE@, flat(g.normals()->0), 3int))
        + when_present(g.colors() is Some, (COLOR_0_ATTRIBUTE@, flat(g.colors()->0), 4int))
}

/// The named float attributes `entries` hold the attributes `expected`,
/// in order, each of `count` vertices.
pub open spec fn holds_attributes<T>(
    entries: Seq<(Seq<char>, AttributeData<T>)>,
    expected: Seq<(Seq<char>, Seq<T>, int)>,
    count: int,
) -> bool {
    &&& entries.len() == expected.len()
    &&& forall|i: int|
        0 <= i < entries.len() ==> {
            &&& (#[trigger] entries[i]).0 == expected[i].0
            &&& entries[i].1.elements() == expected[i].1
            &&& entries[i].1.layout().spec_size() == expected[i].2
            &&& entries[i].1.layout().spec_gl_type() == gl::FLOAT
            &&& entries[i].1.vertex_count() == count
        }
}

/// Some entry is named `name` and holds `elements`, `size` components per
/// vertex, `count` vertices.
pub open spec fn has_entry<T>(
    entries: Seq<(Seq<char>, AttributeData<T>)>,
    name: Seq<char>,
    elements: Seq<T>,
    size: int,
    count: int,
) -> bool {
    exists|i: int|
        0 <= i < entries.len() && (#[trigger] entries[i]).0 == name && entries[i].1.elements() == elements
            && entries[i].1.layout().spec_size() == size && entries[i].1.vertex_count() == count
}

/// Some entry is named `name`.
pub open spec fn has_entry_named<T>(entries: Seq<(Seq<char>, AttributeData<T>)>, name: Seq<char>) -> bool {
    exists|i: int| 0 <= i < entries.len() && (#[trigger] entries[i]).0 == name
}

/// Number of the optional attributes that are present.
pub open spec fn present_count(texcoords: bool, normals: bool, colors: bool) -> int {
    (if texcoords { 1int } else { 0int }) + (if normals { 1int } else { 0int }) + (if colors { 1int } else { 0int })
}

/// The named buffers made from a typed geometry keep every attribute it
/// carries and add none: the positions come first, of three components,
/// and each optional attribute that is present (texture coordinates of
/// two components, normals of three, colors of four) has an entry of its
/// name holding its flattened data, one vertex per position; an absent one
/// has no entry.
pub proof fn law_typed_attributes_kept<T>(
    g: TypedGeometry<[T; 2], [T; 3], [T; 4]>,
    entries: Seq<(Seq<char>, AttributeData<T>)>,
)
    requires
        holds_attributes(entries, typed_attributes(g), g.positions().len() as int),
    ensures
        entries.len() == 1 + present_count(g.texcoords() is Some, g.normals() is Some, g.colors() is Some),
        entries[0].0 == POSITION_ATTRIBUTE@,
        entries[0].1.elements() == flat(g.positions()),
        entries[0].1.layout().spec_size() == 3,
        g.texcoords() matches Some(t) ==> has_entry(entries, TEXCOORD_0_ATTRIBUTE@, flat(t), 2, g.positions().len() as int),
        g.normals() matches Some(n) ==> has_entry(entries, NORMAL_ATTRIBUTE@, flat(n), 3, g.positions().len() as int),
        g.colors() matches Some(c) ==> has_entry(entries, COLOR_0_ATTRIBUTE@, flat(c), 4, g.positions().len() as int),
        g.texcoords() is None ==> !has_entry_named(entries, TEXCOORD_0_ATTRIBUTE@),
        g.normals() is None ==> !has_entry_named(entries, NORMAL_ATTRIBUTE@),
        g.colors() is None ==> !has_entry_named(entries, COLOR_0_ATTRIBUTE@),
{
    reveal_strlit("POSITION");
    reveal_strlit("TEXCOORD_0");
    reveal_strlit("NORMAL");
    reveal_strlit("COLOR_0");
    assert(POSITION_ATTRIBUTE@.len() == 8 && TEXCOORD_0_ATTRIBUTE@.len() == 10);
    assert(NORMAL_ATTRIBUTE@.len() == 6 && COLOR_0_ATTRIBUTE@.len() == 7);
    let count = g.positions().len() as int;
    let p = (POSITION_ATTRIBUTE@, flat(g.positions()), 3int);
    let wt = when_present(g.texcoords() is Some, (TEXCOORD_0_ATTRIBUTE@, flat(g.texcoords()->0), 2int));
    let wn = when_present(g.normals() is Some, (NORMAL_ATTRIBUTE@, flat(g.normals()->0), 3int));
    let wc = when_present(g.colors() is Some, (COLOR_0_ATTRIBUTE@, flat(g.colors()->0), 4int));
    let e = typed_attributes(g);
    assert(e == seq![p] + wt + wn + wc);
    let it = 1int;
    let in_: int = 1 + wt.len() as int;
    let ic: int = 1 + wt.len() as int + wn.len() as int;
    assert(e.len() == 1 + wt.len() + wn.len() + wc.len());
    assert(e[0] == p);
    assert(entries[0] == entries[0]);
    if g.texcoords() is Some {
        assert(e[it] == wt[0]);
        assert(entries[it].0 == e[it].0);
    }
    if g.normals() is Some {
        assert(e[in_] == wn[0]);
        assert(entries[in_].0 == e[in_].0);
    }
    if g.colors() is Some {
        assert(e[ic] == wc[0]);
        assert(entries[ic].0 == e[ic].0);
    }
    assert forall|i: int| 0 <= i < entries.len() implies (#[trigger] entries[i]).0.len() == if i == 0 {
        8int
    } else if i < in_ {
        10int
    } else if i < ic {
        6int
    } else {
        7int
    } by {
        assert(entries[i].0 == e[i].0);
        if i == 0 {
        } else if i < in_ {
            assert(e[i] == wt[i - 1]);
        } else if i < ic {
            assert(e[i] == wn[i - in_]);
        } else {
            assert(e[i] == wc[i - ic]);
        }
    }
    if g.texcoords() is None {
        assert(in_ == 1);
    }
    if g.normals() is None {
        assert(ic == in_);
    }
    if g.colors() is None {
        assert(entries.len() == ic);
    }
}

impl<T: Copy> TypedGeometry<[T; 2], [T; 3], [T; 4]> {
    fn push_attribute<const N: usize>(
        g: &mut Geometry<T>,
        name: &str,
        data: &Vec<[T; N]>,
        Ghost(expected): Ghost<Seq<(Seq<char>, Seq<T>, int)>>,
        Ghost(count): Ghost<int>,
    )
        requires
            old(g).wf(),
            N <= i32::MAX,
            data@.len() == count,
            count <= i32::MAX,
            holds_attributes(old(g).entries(), expected, count),
            forall|i: int| 0 <= i < expected.len() ==> (#[trigger] expected[i]).0 != name@,
        ensures
            final(g).wf(),
            holds_attributes(final(g).entries(), expected.push((name@, flat(data@), N as int)), count),
    {
        let ghost before = g.entries();
        let d = AttributeData::from_arrays(data.as_slice());
        let key = String::from_str(name);
        proof {
            if has_name(before, name@) {
                let k = choose|k: int| 0 <= k < before.len() && (#[trigger] before[k]).0 == name@;
                assert(expected[k].0 == before[k].0);
            }
        }
        g.insert(key, d);
        proof {
            assert(g.entries() == before.push((name@, d)));
            let e2 = expected.push((name@, flat(data@), N as int));
            assert forall|i: int| 0 <= i < g.entries().len() implies {
                &&& (#[trigger] g.entries()[i]).0 == e2[i].0
                &&& g.entries()[i].1.elements() == e2[i].1
                &&& g.entries()[i].1.layout().spec_size() == e2[i].2
                &&& g.entries()[i].1.layout().spec_gl_type() == gl::FLOAT
                &&& g.entries()[i].1.vertex_count() == count
            } by {
                if i < before.len() {
                    assert(g.entries()[i] == before[i]);
                    assert(e2[i] == expected[i]);
                }
            }
        }
    }

    /// The attributes of the geometry as named float buffers: positions
    /// under `POSITION`, then texture coordinates under `TEXCOORD_0`,
    /// normals under `NORMAL` and colors under `COLOR_0` where present.
    pub fn to_geometry(&self) -> (r: Geometry<T>)
        requires
            self.wf(),
            self.positions().len() <= i32::MAX,
        ensures
            r.wf(),
            holds_attributes(r.entries(), typed_attributes(*self), self.positions().len() as int),
            self.texcoords() matches Some(t) ==> has_entry(r.entries(), TEXCOORD_0_ATTRIBUTE@, flat(t), 2, self.positions().len() as int),
            self.normals() matches Some(n) ==> has_entry(r.entries(), NORMAL_ATTRIBUTE@, flat(n), 3, self.positions().len() as int),
            self.colors() matches Some(c) ==> has_entry(r.entries(), COLOR_0_ATTRIBUTE@, flat(c), 4, self.positions().len() as int),
            r.entries().len() == 1 + present_count(self.texcoords() is Some, self.normals() is Some, self.colors() is Some),
    {
        proof {
            reveal_strlit("POSITION");
            reveal_strlit("TEXCOORD_0");
            reveal_strlit("NORMAL");
            reveal_strlit("COLOR_0");
        }
        let ghost count = self.positions().len() as int;
        let ghost e0 = Seq::<(Seq<char>, Seq<T>, int)>::empty();
        let mut g = Geometry::empty();
        Self::push_attribute(&mut g, POSITION_ATTRIBUTE, &self.position, Ghost(e0), Ghost(count));
        let ghost e1 = e0.push((POSITION_ATTRIBUTE@, flat(self.positions()), 3int));
        let ghost mut e = e1;
        proof {
            assert(POSITION_ATTRIBUTE@.len() == 8 && TEXCOORD_0_ATTRIBUTE@.len() == 10);
            assert(NORMAL_ATTRIBUTE@.len() == 6 && COLOR_0_ATTRIBUTE@.len() == 7);
            assert(e[0].0 == POSITION_ATTRIBUTE@);
        }
        if let Some(t) = &self.texcoord_0 {
            Self::push_attribute(&mut g, TEXCOORD_0_ATTRIBUTE, t, Ghost(e), Ghost(count));
            proof {
                e = e.push((TEXCOORD_0_ATTRIBUTE@, flat(t@), 2int));
            }
        }
        let ghost e2 = e;
        assert forall|i: int| 0 <= i < e.len() implies (#[trigger] e[i]).0.len() == 8 || e[i].0.len() == 10 by {
            if i > 0 {
                assert(e[i].0 == TEXCOORD_0_ATTRIBUTE@);
            }
        }
        if let Some(n) = &self.normal {
            Self::push_attribute(&mut g, NORMAL_ATTRIBUTE, n, Ghost(e), Ghost(count));
            proof {
                e = e.push((NORMAL_ATTRIBUTE@, flat(n@), 3int));
            }
        }
        let ghost e3 = e;
        assert forall|i: int| 0 <= i < e.len() implies (#[trigger] e[i]).0.len() == 8 || e[i].0.len() == 10
            || e[i].0.len() == 6 by {
            if i < e2.len() {
                assert(e[i] == e2[i]);
            } else {
                assert(e[i].0 == NORMAL_ATTRIBUTE@);
            }
        }
        if let Some(c) = &self.color_0 {
            Self::push_attribute(&mut g, COLOR_0_ATTRIBUTE, c, Ghost(e), Ghost(count));
            proof {
                e = e.push((COLOR_0_ATTRIBUTE@, flat(c@), 4int));
            }
        }
        proof {
            assert(e1 =~= seq![(POSITION_ATTRIBUTE@, flat(self.positions()), 3int)]);
            assert(e2 =~= e1 + when_present(
                self.texcoords() is Some,
                (TEXCOORD_0_ATTRIBUTE@, flat(self.texcoords()->0), 2int),
            ));
            assert(e3 =~= e2 + when_present(self.normals() is Some, (NORMAL_ATTRIBUTE@, flat(self.normals()->0), 3int)));
            assert(e =~= e3 + when_present(self.colors() is Some, (COLOR_0_ATTRIBUTE@, flat(self.colors()->0), 4int)));
        }
        proof {
            law_typed_attributes_kept(*self, g.entries());
        }
        g
    }
}

} // verus!
