//! A geometry as a set of named attribute buffers (`vertexPosition`,
//! `vertexColor`, ...), each with its own layout and vertex count.
//! Attributes keep the order in which their names were first inserted.

use vstd::prelude::*;
use vstd::string::StringExecFns;

use crate::attribute::{AttributeData, DataKind};
use crate::error::Error;

verus! {

/// No two entries carry the same name.
pub open spec fn distinct_names<T>(entries: Seq<(Seq<char>, AttributeData<T>)>) -> bool {
    forall|i: int, j: int|
        0 <= i < entries.len() && 0 <= j < entries.len() && i != j ==> (#[trigger] entries[i]).0
            != (#[trigger] entries[j]).0
}

/// Some entry carries the name `name`.
pub open spec fn has_name<T>(entries: Seq<(Seq<char>, AttributeData<T>)>, name: Seq<char>) -> bool {
    exists|i: int| 0 <= i < entries.len() && (#[trigger] entries[i]).0 == name
}

/// The position of the entry named `name` (meaningful when there is one).
pub open spec fn name_index<T>(entries: Seq<(Seq<char>, AttributeData<T>)>, name: Seq<char>) -> int {
    choose|i: int| 0 <= i < entries.len() && (#[trigger] entries[i]).0 == name
}

/// The entries after setting `name` to `data`: an entry of that name is
/// replaced in place, otherwise a new entry goes last.
pub open spec fn insert_entry<T>(
    entries: Seq<(Seq<char>, AttributeData<T>)>,
    name: Seq<char>,
    data: AttributeData<T>,
) -> Seq<(Seq<char>, AttributeData<T>)> {
    if has_name(entries, name) {
        entries.update(name_index(entries, name), (name, data))
    } else {
        entries.push((name, data))
    }
}

/// The entries after inserting each of `list`, in order.
pub open spec fn insert_all<T>(
    entries: Seq<(Seq<char>, AttributeData<T>)>,
    list: Seq<(Seq<char>, AttributeData<T>)>,
) -> Seq<(Seq<char>, AttributeData<T>)>
    decreases list.len(),
{
    if list.len() == 0 {
        entries
    } else {
        insert_entry(insert_all(entries, list.drop_last()), list.last().0, list.last().1)
    }
}

/// `other` has an attribute of the same name and layout as `entry`.
pub open spec fn merges_with<T>(
    entry: (Seq<char>, AttributeData<T>),
    other: Seq<(Seq<char>, AttributeData<T>)>,
) -> bool {
    exists|k: int|
        0 <= k < other.len() && (#[trigger] other[k]).0 == entry.0 && other[k].1.layout()
            == entry.1.layout()
}

/// `after` is `before` with the vertices of `other`'s attribute of the same
/// name appended.
pub open spec fn merged<T>(
    before: (Seq<char>, AttributeData<T>),
    after: (Seq<char>, AttributeData<T>),
    other: Seq<(Seq<char>, AttributeData<T>)>,
) -> bool {
    exists|k: int|
        0 <= k < other.len() && (#[trigger] other[k]).0 == before.0 && after.0 == before.0
            && after.1.elements() == before.1.elements() + other[k].1.elements()
            && after.1.layout() == before.1.layout() && after.1.vertex_count()
            == before.1.vertex_count() + other[k].1.vertex_count()
}

/// The error with which merging stops at `entry`: its name is missing from
/// `other`, or the attribute of that name there has another layout.
pub open spec fn merge_error<T>(
    entry: (Seq<char>, AttributeData<T>),
    other: Seq<(Seq<char>, AttributeData<T>)>,
    e: Error,
) -> bool {
    if has_name(other, entry.0) {
        e == Error::IncompatibleAttributes(entry.1.layout(), other[name_index(other, entry.0)].1.layout())
    } else {
        e matches Error::MissingAttribute(n) && n@ == entry.0
    }
}

/// Named vertex attributes of component type `T`.
pub struct Geometry<T> {
    attributes: Vec<(String, AttributeData<T>)>,
}

impl<T> Geometry<T> {
    /// The attributes with their names, in order.
    pub closed spec fn entries(&self) -> Seq<(Seq<char>, AttributeData<T>)> {
        self.attributes@.map_values(|e: (String, AttributeData<T>)| (e.0@, e.1))
    }

    /// Names are unique.
    pub open spec fn wf(&self) -> bool {
        distinct_names(self.entries())
    }

    /// A geometry without attributes.
    pub fn empty() -> (r: Self)
        ensures
            r.entries() == Seq::<(Seq<char>, AttributeData<T>)>::empty(),
            r.wf(),
    {
        let r = Geometry { attributes: Vec::new() };
        assert(r.entries() =~= Seq::<(Seq<char>, AttributeData<T>)>::empty());
        r
    }

    /// Position of the attribute named `name`.
    fn find(&self, name: &String) -> (r: Option<usize>)
        requires
            self.wf(),
        ensures
            r matches Some(i) ==> i < self.entries().len() && self.entries()[i as int].0 == name@
                && i == name_index(self.entries(), name@),
            r is None <==> !has_name(self.entries(), name@),
    {
        let ghost entries = self.entries();
        let mut i: usize = 0;
        while i < self.attributes.len()
            invariant
                i <= self.attributes@.len(),
                entries == self.entries(),
                distinct_names(entries),
                entries.len() == self.attributes@.len(),
                forall|j: int| 0 <= j < i ==> (#[trigger] entries[j]).0 != name@,
            decreases self.attributes@.len() - i,
        {
            if self.attributes[i].0 == *name {
                proof {
                    assert(entries[i as int].0 == name@);
                    let k = name_index(entries, name@);
                    assert(0 <= k < entries.len() && entries[k].0 == name@);
                    if k != i {
                        assert(entries[k].0 != entries[i as int].0);
                    }
                }
                return Some(i);
            }
            assert(entries[i as int].0 != name@);
            i += 1;
        }
        None
    }

    /// Sets the attribute `name` to `data`: an attribute of that name is
    /// replaced, otherwise the new one goes last.
    pub fn insert(&mut self, name: String, data: AttributeData<T>)
        requires
            old(self).wf(),
        ensures
            final(self).entries() == insert_entry(old(self).entries(), name@, data),
            final(self).wf(),
    {
        let ghost before = self.entries();
        match self.find(&name) {
            Some(i) => {
                let ghost n = name@;
                self.attributes.set(i, (name, data));
                proof {
                    assert(self.entries() =~= before.update(i as int, (n, data)));
                    assert forall|a: int, b: int|
                        0 <= a < self.entries().len() && 0 <= b < self.entries().len() && a != b
                            implies (#[trigger] self.entries()[a]).0 != (#[trigger] self.entries()[b]).0 by {
                        if a != i && b != i {
                            assert(before[a].0 != before[b].0);
                        } else if a == i {
                            assert(before[b].0 != before[a].0);
                        } else {
                            assert(before[a].0 != before[b].0);
                        }
                    }
                }
            },
            None => {
                let ghost n = name@;
                self.attributes.push((name, data));
                proof {
                    assert(self.entries() =~= before.push((n, data)));
                    assert forall|a: int, b: int|
                        0 <= a < self.entries().len() && 0 <= b < self.entries().len() && a != b
                            implies (#[trigger] self.entries()[a]).0 != (#[trigger] self.entries()[b]).0 by {
                        if a < before.len() && b < before.len() {
                            assert(before[a].0 != before[b].0);
                        } else if a < before.len() {
                            assert(self.entries()[a] == before[a]);
                        } else {
                            assert(self.entries()[b] == before[b]);
                        }
                    }
                }
            },
        }
    }

    /// A geometry of the named attributes `attributes`; of two attributes
    /// with the same name the later one stays, at the place of the first.
    pub fn new(attributes: Vec<(String, AttributeData<T>)>) -> (r: Self)
        ensures
            r.entries() == insert_all(
                Seq::<(Seq<char>, AttributeData<T>)>::empty(),
                attributes@.map_values(|e: (String, AttributeData<T>)| (e.0@, e.1)),
            ),
            r.wf(),
    {
        let ghost list = attributes@.map_values(|e: (String, AttributeData<T>)| (e.0@, e.1));
        let mut rest = attributes;
        let mut g = Self::empty();
        let mut i: usize = 0;
        let n: usize = rest.len();
        assert(list.len() == n);
        while rest.len() > 0
            invariant
                i <= list.len(),
                list.len() == n,
                rest@.len() == list.len() - i,
                forall|k: int| 0 <= k < rest@.len() ==> (#[trigger] rest@[k]).0@ == list[i + k].0 && rest@[k].1
                    == list[i + k].1,
                g.wf(),
                g.entries() == insert_all(Seq::<(Seq<char>, AttributeData<T>)>::empty(), list.take(i as int)),
            decreases rest@.len(),
        {
            let ghost old_rest = rest@;
            let (name, data) = rest.remove(0);
            proof {
                assert(name@ == list[i as int].0 && data == list[i as int].1) by {
                    assert(old_rest[0].0@ == list[i + 0].0);
                }
                assert forall|k: int| 0 <= k < rest@.len() implies (#[trigger] rest@[k]).0@ == list[i + 1
                    + k].0 && rest@[k].1 == list[i + 1 + k].1 by {
                    assert(rest@[k] == old_rest[k + 1]);
                }
                assert(list.take(i + 1).drop_last() =~= list.take(i as int));
            }
            g.insert(name, data);
            i += 1;
        }
        assert(list.take(i as int) =~= list);
        g
    }

    /// The attributes with their names, in order.
    pub fn attributes(&self) -> (r: &[(String, AttributeData<T>)])
        ensures
            r@.map_values(|e: (String, AttributeData<T>)| (e.0@, e.1)) == self.entries(),
    {
        self.attributes.as_slice()
    }

    /// The vertex count of the first attribute.
    pub fn count_vertices(&self) -> (r: i32)
        requires
            self.entries().len() > 0,
        ensures
            r == self.entries()[0].1.vertex_count(),
    {
        self.attributes[0].1.count()
    }

    /// The attribute named `name`, or an error naming the missing attribute.
    pub fn attribute(&self, name: &str) -> (r: Result<&AttributeData<T>, Error>)
        requires
            self.wf(),
        ensures
            r is Ok <==> has_name(self.entries(), name@),
            r matches Ok(d) ==> *d == self.entries()[name_index(self.entries(), name@)].1,
            r matches Err(e) ==> e matches Error::MissingAttribute(n) && n@ == name@,
    {
        let key = String::from_str(name);
        match self.find(&key) {
            Some(i) => Ok(&self.attributes[i].1),
            None => Err(Error::MissingAttribute(key)),
        }
    }
}

/// After setting `name` to `data`, looking `name` up gives `data`, and every
/// other name keeps its attribute; names stay unique.
pub proof fn law_insert_read_back<T>(
    entries: Seq<(Seq<char>, AttributeData<T>)>,
    name: Seq<char>,
    data: AttributeData<T>,
    other: Seq<char>,
)
    requires
        distinct_names(entries),
        other != name,
    ensures
        distinct_names(insert_entry(entries, name, data)),
        has_name(insert_entry(entries, name, data), name),
        insert_entry(entries, name, data)[name_index(insert_entry(entries, name, data), name)].1 == data,
        has_name(insert_entry(entries, name, data), other) == has_name(entries, other),
        has_name(entries, other) ==> insert_entry(entries, name, data)[name_index(
            insert_entry(entries, name, data),
            other,
        )].1 == entries[name_index(entries, other)].1,
{
    let after = insert_entry(entries, name, data);
    if has_name(entries, name) {
        let i = name_index(entries, name);
        assert(after == entries.update(i, (name, data)));
        assert forall|a: int, b: int|
            0 <= a < after.len() && 0 <= b < after.len() && a != b implies (#[trigger] after[a]).0
                != (#[trigger] after[b]).0 by {
            assert(entries[a].0 != entries[b].0);
        }
        assert(after[i].0 == name);
    } else {
        assert(after == entries.push((name, data)));
        assert forall|a: int, b: int|
            0 <= a < after.len() && 0 <= b < after.len() && a != b implies (#[trigger] after[a]).0
                != (#[trigger] after[b]).0 by {
            if a < entries.len() && b < entries.len() {
                assert(entries[a].0 != entries[b].0);
            } else if a < entries.len() {
                assert(after[a] == entries[a]);
                assert(after[b].0 == name);
                assert(has_name(entries, entries[a].0));
            } else {
                assert(after[b] == entries[b]);
                assert(after[a].0 == name);
                assert(has_name(entries, entries[b].0));
            }
        }
        assert(after[entries.len() as int].0 == name);
    }
    let k = name_index(after, name);
    assert(after[k].0 == name);
    if has_name(entries, name) {
        let i = name_index(entries, name);
        if k != i {
            assert(after[k].0 != after[i].0);
        }
    } else {
        if k != entries.len() {
            assert(after[k] == entries[k]);
            assert(has_name(entries, name));
        }
    }
    if has_name(entries, other) {
        let j = name_index(entries, other);
        assert(after[j] == entries[j]);
        assert(has_name(after, other));
        let j2 = name_index(after, other);
        if j2 != j {
            assert(after[j2].0 != after[j].0);
        }
    } else if has_name(after, other) {
        let j2 = name_index(after, other);
        if j2 < entries.len() {
            assert(after[j2] == entries[j2] || after[j2].0 == name);
            assert(has_name(entries, other));
        }
    }
}

impl<T: Copy> Geometry<T> {
    /// Appends to each attribute the vertices of the attribute of the same
    /// name in `other`, in order. It stops at the first attribute that
    /// `other` lacks or holds in another layout, and reports it; the
    /// attributes before it are merged, the others left as they were.
    pub fn merge_mut(&mut self, other: &Geometry<T>) -> (r: Result<(), Error>)
        requires
            old(self).wf(),
            other.wf(),
            forall|i: int, k: int|
                0 <= i < old(self).entries().len() && 0 <= k < other.entries().len() && (#[trigger] old(
                    self,
                ).entries()[i]).0 == (#[trigger] other.entries()[k]).0 && old(self).entries()[i].1.layout()
                    == other.entries()[k].1.layout() ==> i32::MIN <= old(self).entries()[i].1.vertex_count()
                    + other.entries()[k].1.vertex_count() <= i32::MAX,
        ensures
            final(self).wf(),
            final(self).entries().len() == old(self).entries().len(),
            r is Ok <==> forall|i: int|
                0 <= i < old(self).entries().len() ==> merges_with(#[trigger] old(self).entries()[i], other.entries()),
            r is Ok ==> forall|i: int|
                0 <= i < old(self).entries().len() ==> merged(
                    #[trigger] old(self).entries()[i],
                    final(self).entries()[i],
                    other.entries(),
                ),
            r matches Err(e) ==> exists|f: int|
                0 <= f < old(self).entries().len() && !merges_with(#[trigger] old(self).entries()[f], other.entries())
                    && merge_error(old(self).entries()[f], other.entries(), e) && (forall|i: int|
                    0 <= i < f ==> merges_with(#[trigger] old(self).entries()[i], other.entries()) && merged(
                        old(self).entries()[i],
                        final(self).entries()[i],
                        other.entries(),
                    )) && (forall|i: int|
                    f <= i < old(self).entries().len() ==> #[trigger] final(self).entries()[i] == old(
                        self,
                    ).entries()[i]),
    {
        let ghost before = self.entries();
        let ghost others = other.entries();
        let mut i: usize = 0;
        while i < self.attributes.len()
            invariant
                i <= self.attributes@.len(),
                before.len() == self.attributes@.len(),
                before == old(self).entries(),
                others == other.entries(),
                other.wf(),
                distinct_names(before),
                self.entries().len() == before.len(),
                forall|j: int| 0 <= j < before.len() ==> (#[trigger] self.entries()[j]).0 == before[j].0,
                forall|j: int| 0 <= j < i ==> merges_with(#[trigger] before[j], others),
                forall|j: int| 0 <= j < i ==> merged(#[trigger] before[j], self.entries()[j], others),
                forall|j: int| i <= j < before.len() ==> #[trigger] self.entries()[j] == before[j],
                forall|a: int, k: int|
                    0 <= a < before.len() && 0 <= k < others.len() && (#[trigger] before[a]).0
                        == (#[trigger] others[k]).0 && before[a].1.layout() == others[k].1.layout()
                        ==> i32::MIN <= before[a].1.vertex_count() + others[k].1.vertex_count() <= i32::MAX,
            decreases self.attributes@.len() - i,
        {
            assert(self.entries()[i as int] == before[i as int]);
            match other.find(&self.attributes[i].0) {
                None => {
                    proof {
                        self.lemma_names_kept(before);
                        assert(!merges_with(before[i as int], others)) by {
                            if merges_with(before[i as int], others) {
                                let k = choose|k: int|
                                    0 <= k < others.len() && (#[trigger] others[k]).0 == before[i as int].0
                                        && others[k].1.layout() == before[i as int].1.layout();
                                assert(has_name(others, before[i as int].0));
                            }
                        }
                    }
                    return Err(Error::MissingAttribute(self.attributes[i].0.clone()));
                },
                Some(k) => {
                    let ghost entry = before[i as int];
                    let ghost prev = self.attributes@;
                    let ghost prev_entries = self.entries();
                    let res = self.attributes[i].1.concat_mut(&other.attributes[k].1);
                    proof {
                        assert(self.attributes@.len() == prev.len());
                        assert(self.entries().len() == prev_entries.len());
                        assert forall|j: int| 0 <= j < prev.len() && j != i implies #[trigger] self.entries()[j]
                            == prev_entries[j] by {
                            assert(self.attributes@[j] == prev[j]);
                        }
                        assert(self.attributes@[i as int].0 == prev[i as int].0);
                        assert(self.entries()[i as int].0 == entry.0);
                    }
                    match res {
                        Err(e) => {
                            proof {
                                assert(self.entries() =~= self.entries());
                                assert(self.entries()[i as int] == before[i as int]);
                                self.lemma_names_kept(before);
                                assert(!merges_with(entry, others)) by {
                                    if merges_with(entry, others) {
                                        let k2 = choose|k2: int|
                                            0 <= k2 < others.len() && (#[trigger] others[k2]).0 == entry.0
                                                && others[k2].1.layout() == entry.1.layout();
                                        if k2 != k {
                                            assert(others[k2].0 != others[k as int].0);
                                        }
                                    }
                                }
                                assert(has_name(others, entry.0));
                            }
                            return Err(e);
                        },
                        Ok(()) => {
                            proof {
                                assert(others[k as int].0 == entry.0);
                                assert(merges_with(entry, others));
                                assert(merged(entry, self.entries()[i as int], others));
                            }
                        },
                    }
                },
            }
            i += 1;
        }
        proof {
            self.lemma_names_kept(before);
        }
        Ok(())
    }
}

impl<T> Geometry<T> {
    proof fn lemma_names_kept(&self, before: Seq<(Seq<char>, AttributeData<T>)>)
        requires
            distinct_names(before),
            self.entries().len() == before.len(),
            forall|j: int| 0 <= j < before.len() ==> (#[trigger] self.entries()[j]).0 == before[j].0,
        ensures
            self.wf(),
    {
        assert forall|a: int, b: int|
            0 <= a < self.entries().len() && 0 <= b < self.entries().len() && a != b implies (
            #[trigger] self.entries()[a]).0 != (#[trigger] self.entries()[b]).0 by {
            assert(before[a].0 != before[b].0);
        }
    }
}

} // verus!
