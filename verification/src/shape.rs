//! Shapes (hidden classes) and the manager that interns them.
//!
//! A shape is an ordered, structurally comparable sequence of named property
//! descriptors, shared by every object with the same layout. The manager owns
//! the canonical table of interned shapes and addresses each by a dense,
//! monotonically assigned integer identity; structurally equal shapes always
//! receive the same identity, so identity comparison decides structural
//! equality in constant time. Shapes are immutable once interned: extending a
//! layout interns a different shape rather than mutating a shared one.

use vstd::prelude::*;

use crate::names::{ns_sets_intersect, ns_sets_intersect_exec, Multiname, Name, Namespace};
use crate::property::{clone_property_info, property_info_eq, PropertyInfo, PropertyInfoV};

verus! {

/// The property sequence of one shape.
#[derive(Debug, Clone)]
pub struct ShapeData {
    /// Entries in declaration order; the order encodes override precedence.
    pub properties: Vec<PropertyInfo>,
}

/// An interned, immutable property layout.
#[derive(Debug, Clone)]
pub struct Shape {
    pub data: ShapeData,
}

/// The mathematical value of a sequence of shape entries.
pub open spec fn props_view(s: Seq<PropertyInfo>) -> Seq<PropertyInfoV> {
    s.map_values(|p: PropertyInfo| p@)
}

impl View for ShapeData {
    type V = Seq<PropertyInfoV>;

    open spec fn view(&self) -> Seq<PropertyInfoV> {
        props_view(self.properties@)
    }
}

impl View for Shape {
    type V = Seq<PropertyInfoV>;

    open spec fn view(&self) -> Seq<PropertyInfoV> {
        self.data@
    }
}

impl Shape {
    /// Wraps a property sequence as a shape.
    pub fn new_with_properties(properties: Vec<PropertyInfo>) -> (r: Shape)
        ensures
            r@ == props_view(properties@),
    {
        Shape { data: ShapeData { properties } }
    }
}

/// Structural equality of two shapes, as the interner decides it.
impl PartialEq for Shape {
    fn eq(&self, other: &Shape) -> (r: bool) {
        props_eq(&self.data.properties, &other.data.properties)
    }
}

impl vstd::std_specs::cmp::PartialEqSpecImpl for Shape {
    open spec fn obeys_eq_spec() -> bool {
        true
    }

    open spec fn eq_spec(&self, other: &Shape) -> bool {
        self@ == other@
    }
}

/// Decides structural equality of two property sequences.
pub fn props_eq(a: &Vec<PropertyInfo>, b: &Vec<PropertyInfo>) -> (r: bool)
    ensures
        r == (props_view(a@) == props_view(b@)),
{
    if a.len() != b.len() {
        proof {
            assert(props_view(a@).len() != props_view(b@).len());
        }
        return false;
    }
    let mut i: usize = 0;
    while i < a.len()
        invariant
            a@.len() == b@.len(),
            i <= a@.len(),
            forall|k: int| 0 <= k < i ==> a@[k]@ == b@[k]@,
        decreases a@.len() - i,
    {
        if !property_info_eq(&a[i], &b[i]) {
            proof {
                assert(props_view(a@)[i as int] != props_view(b@)[i as int]);
            }
            return false;
        }
        i = i + 1;
    }
    proof {
        assert(props_view(a@) =~= props_view(b@));
    }
    true
}

/// Copies a property sequence entry by entry; the copy has the same
/// mathematical value.
pub fn clone_properties(props: &Vec<PropertyInfo>) -> (r: Vec<PropertyInfo>)
    ensures
        props_view(r@) == props_view(props@),
{
    let mut r: Vec<PropertyInfo> = Vec::new();
    let mut i: usize = 0;
    while i < props.len()
        invariant
            i <= props@.len(),
            r@.len() == i,
            forall|k: int| 0 <= k < i ==> r@[k]@ == props@[k]@,
        decreases props@.len() - i,
    {
        r.push(clone_property_info(&props[i]));
        i = i + 1;
    }
    proof {
        assert(props_view(r@) =~= props_view(props@));
    }
    r
}

/// No two entries of one shape share a name: namespace-qualified overloads
/// are folded into one entry's namespace set, never declared as two entries.
pub open spec fn distinct_names(props: Seq<PropertyInfoV>) -> bool {
    forall|i: int, j: int|
        0 <= i < j < props.len() ==> props[i].name != props[j].name
}

/// Whether some entry of `props` carries `name`.
pub open spec fn has_name(props: Seq<PropertyInfoV>, name: Name) -> bool {
    exists|i: int| 0 <= i < props.len() && props[i].name == name
}

/// Decides whether some entry of `props` carries `name`.
pub fn has_property_name(props: &Vec<PropertyInfo>, name: Name) -> (r: bool)
    ensures
        r == has_name(props_view(props@), name),
{
    let mut i: usize = 0;
    while i < props.len()
        invariant
            i <= props@.len(),
            forall|k: int| 0 <= k < i ==> props@[k]@.name != name,
        decreases props@.len() - i,
    {
        if props[i].name == name {
            proof {
                assert(props_view(props@)[i as int].name == name);
            }
            return true;
        }
        i = i + 1;
    }
    proof {
        assert(forall|k: int|
            0 <= k < props@.len() ==> props_view(props@)[k].name != name);
    }
    false
}

/// The first index at or after `i` whose shape equals `props`, if any.
pub open spec fn spec_find_shape(
    shapes: Seq<Seq<PropertyInfoV>>,
    props: Seq<PropertyInfoV>,
    i: int,
) -> Option<int>
    decreases shapes.len() - i,
{
    if i < 0 || i >= shapes.len() {
        None
    } else if shapes[i] == props {
        Some(i)
    } else {
        spec_find_shape(shapes, props, i + 1)
    }
}

/// What interning `props` into a table of shapes returns: the first existing
/// structurally equal identity, or the next fresh one.
pub open spec fn spec_intern_id(shapes: Seq<Seq<PropertyInfoV>>, props: Seq<PropertyInfoV>) -> int {
    match spec_find_shape(shapes, props, 0) {
        Some(i) => i,
        None => shapes.len() as int,
    }
}

/// What the table of shapes holds after interning `props`: unchanged when a
/// structurally equal shape exists, extended by `props` otherwise.
pub open spec fn spec_intern_shapes(
    shapes: Seq<Seq<PropertyInfoV>>,
    props: Seq<PropertyInfoV>,
) -> Seq<Seq<PropertyInfoV>> {
    match spec_find_shape(shapes, props, 0) {
        Some(_) => shapes,
        None => shapes.push(props),
    }
}

/// What `spec_find_shape` says of the entries it passed over and of the one
/// it returns.
pub proof fn lemma_find_shape_props(
    shapes: Seq<Seq<PropertyInfoV>>,
    props: Seq<PropertyInfoV>,
    i: int,
)
    requires
        0 <= i <= shapes.len(),
    ensures
        match spec_find_shape(shapes, props, i) {
            Some(j) => i <= j < shapes.len() && shapes[j] == props && (forall|k: int|
                i <= k < j ==> shapes[k] != props),
            None => forall|k: int| i <= k < shapes.len() ==> shapes[k] != props,
        },
    decreases shapes.len() - i,
{
    if i < shapes.len() && shapes[i] != props {
        lemma_find_shape_props(shapes, props, i + 1);
    }
}

/// A search that already passed over `i` non-equal entries finds the same
/// shape as one started at the beginning.
pub proof fn lemma_find_shape_skip(
    shapes: Seq<Seq<PropertyInfoV>>,
    props: Seq<PropertyInfoV>,
    i: int,
)
    requires
        0 <= i <= shapes.len(),
        forall|k: int| 0 <= k < i ==> shapes[k] != props,
    ensures
        spec_find_shape(shapes, props, 0) == spec_find_shape(shapes, props, i),
    decreases i,
{
    if i > 0 {
        lemma_find_shape_skip(shapes, props, i - 1);
        assert(spec_find_shape(shapes, props, i - 1) == spec_find_shape(shapes, props, i));
    }
}

/// Whether a shape entry answers a lookup for `name` in the candidate
/// namespaces `lookup_ns`: the names are equal and the namespace sets
/// intersect.
pub open spec fn entry_matches(p: PropertyInfoV, name: Name, lookup_ns: Seq<Namespace>) -> bool {
    p.name == name && ns_sets_intersect(p.ns, lookup_ns)
}

/// The first entry at or after `i` that answers the lookup, if any. The first
/// match in declaration order wins: declaration order encodes override and
/// shadow precedence.
pub open spec fn spec_first_match(
    props: Seq<PropertyInfoV>,
    name: Name,
    lookup_ns: Seq<Namespace>,
    i: int,
) -> Option<PropertyInfoV>
    decreases props.len() - i,
{
    if i < 0 || i >= props.len() {
        None
    } else if entry_matches(props[i], name, lookup_ns) {
        Some(props[i])
    } else {
        spec_first_match(props, name, lookup_ns, i + 1)
    }
}

/// A search that already passed over `i` non-matching entries finds the same
/// entry as one started at the beginning.
pub proof fn lemma_first_match_skip(
    props: Seq<PropertyInfoV>,
    name: Name,
    lookup_ns: Seq<Namespace>,
    i: int,
)
    requires
        0 <= i <= props.len(),
        forall|k: int| 0 <= k < i ==> !entry_matches(props[k], name, lookup_ns),
    ensures
        spec_first_match(props, name, lookup_ns, 0) == spec_first_match(props, name, lookup_ns, i),
    decreases i,
{
    if i > 0 {
        lemma_first_match_skip(props, name, lookup_ns, i - 1);
    }
}

/// Declaration order encodes override and shadow precedence: when exactly
/// one entry of a shape answers a lookup — in particular in a shape whose
/// entries share no name, however their namespace sets overlap — the lookup
/// returns that entry, wherever in the shape it stands.
pub proof fn lemma_lookup_precedence(
    props: Seq<PropertyInfoV>,
    name: Name,
    lookup_ns: Seq<Namespace>,
    w: int,
)
    requires
        0 <= w < props.len(),
        entry_matches(props[w], name, lookup_ns),
        forall|k: int|
            0 <= k < props.len() && k != w ==> !entry_matches(#[trigger] props[k], name, lookup_ns),
    ensures
        spec_first_match(props, name, lookup_ns, 0) == Some(props[w]),
{
    lemma_first_match_skip(props, name, lookup_ns, w);
}

/// Interns shapes, assigns each a stable integer identity, and implements
/// structural transitions. Exclusively owns every interned shape; objects and
/// inline caches refer to shapes by identity only.
#[derive(Debug, Clone)]
pub struct ShapeManager {
    /// The canonical table: the shape with identity `i` is `shapes[i]`.
    pub shapes: Vec<Shape>,
    /// The identity the next newly interned shape will receive.
    pub next_id: usize,
}

impl View for ShapeManager {
    type V = Seq<Seq<PropertyInfoV>>;

    open spec fn view(&self) -> Seq<Seq<PropertyInfoV>> {
        self.shapes@.map_values(|s: Shape| s@)
    }
}

impl ShapeManager {
    /// The table invariant: identities are dense (`next_id` is the table
    /// length), equal identities mean structurally equal shapes and
    /// conversely (no two interned shapes are structurally equal), and no
    /// shape declares one name twice.
    pub open spec fn wf(&self) -> bool {
        &&& self.next_id == self.shapes@.len()
        &&& forall|i: int, j: int| 0 <= i < j < self@.len() ==> self@[i] != self@[j]
        &&& forall|i: int| 0 <= i < self@.len() ==> distinct_names(#[trigger] self@[i])
    }

    /// An empty manager: no shapes interned yet.
    pub fn new() -> (r: ShapeManager)
        ensures
            r@ == Seq::<Seq<PropertyInfoV>>::empty(),
            r.wf(),
    {
        let r = ShapeManager { shapes: Vec::new(), next_id: 0 };
        proof {
            assert(r@ =~= Seq::<Seq<PropertyInfoV>>::empty());
        }
        r
    }

    /// The first identity whose shape is structurally equal to `properties`,
    /// if one is interned.
    fn find_shape(&self, properties: &Vec<PropertyInfo>) -> (r: Option<usize>)
        ensures
            match r {
                Some(i) => spec_find_shape(self@, props_view(properties@), 0) == Some(i as int),
                None => spec_find_shape(self@, props_view(properties@), 0).is_none(),
            },
    {
        let ghost pv = props_view(properties@);
        let mut i: usize = 0;
        while i < self.shapes.len()
            invariant
                i <= self@.len(),
                self@.len() == self.shapes@.len(),
                pv == props_view(properties@),
                forall|k: int| 0 <= k < i ==> self@[k] != pv,
            decreases self@.len() - i,
        {
            if props_eq(&self.shapes[i].data.properties, properties) {
                proof {
                    lemma_find_shape_skip(self@, pv, i as int);
                }
                return Some(i);
            }
            i = i + 1;
        }
        proof {
            lemma_find_shape_skip(self@, pv, i as int);
        }
        None
    }

    /// Appends a shape to the table under the next fresh identity.
    fn add_shape(&mut self, shape: Shape) -> (id: usize)
        requires
            old(self).next_id == old(self).shapes@.len(),
        ensures
            final(self)@ == old(self)@.push(shape@),
            id == old(self)@.len(),
            final(self).next_id == final(self).shapes@.len(),
    {
        let id = self.shapes.len();
        self.shapes.push(shape);
        self.next_id = self.shapes.len();
        proof {
            assert(self@ =~= old(self)@.push(shape@));
        }
        id
    }

    /// Intern-or-find: returns the identity of the shape whose property
    /// sequence equals `properties`, interning it first if it is new.
    ///
    /// Interning the same property sequence twice yields the same identity;
    /// structurally distinct sequences always yield distinct identities
    /// (see [`lemma_shape_dedup`]).
    pub fn get_shape_id(&mut self, properties: Vec<PropertyInfo>) -> (id: usize)
        requires
            old(self).wf(),
            distinct_names(props_view(properties@)),
        ensures
            final(self).wf(),
            id == spec_intern_id(old(self)@, props_view(properties@)),
            final(self)@ == spec_intern_shapes(old(self)@, props_view(properties@)),
            id < final(self)@.len(),
            final(self)@[id as int] == props_view(properties@),
            // Interned shapes are immutable: every existing identity keeps
            // its shape, and identities are never reused.
            old(self)@.len() <= final(self)@.len(),
            forall|i: int| 0 <= i < old(self)@.len() ==> final(self)@[i] == old(self)@[i],
    {
        let ghost pv = props_view(properties@);
        proof {
            lemma_find_shape_props(self@, pv, 0);
        }
        match self.find_shape(&properties) {
            Some(id) => id,
            None => self.add_shape(Shape::new_with_properties(properties)),
        }
    }

    /// Structural transition: if the shape already declares a property named
    /// `property.name`, the transition is a no-op returning `shape_id`
    /// unchanged (first-writer-wins: a later add under an already-declared
    /// name never changes the shape, whatever its namespaces or descriptor).
    /// Otherwise the extended property sequence is interned and its identity
    /// returned.
    pub fn add_property(&mut self, shape_id: usize, property: PropertyInfo) -> (id: usize)
        requires
            old(self).wf(),
            shape_id < old(self)@.len(),
        ensures
            final(self).wf(),
            has_name(old(self)@[shape_id as int], property@.name) ==> {
                &&& id == shape_id
                &&& final(self)@ == old(self)@
            },
            !has_name(old(self)@[shape_id as int], property@.name) ==> {
                &&& id == spec_intern_id(old(self)@, old(self)@[shape_id as int].push(property@))
                &&& final(self)@ == spec_intern_shapes(
                    old(self)@,
                    old(self)@[shape_id as int].push(property@),
                )
                &&& final(self)@[id as int] == old(self)@[shape_id as int].push(property@)
            },
            id < final(self)@.len(),
            // A transition never mutates an interned shape in place: every
            // existing identity keeps its shape.
            old(self)@.len() <= final(self)@.len(),
            forall|i: int| 0 <= i < old(self)@.len() ==> final(self)@[i] == old(self)@[i],
    {
        let ghost pv = property@;
        if has_property_name(&self.shapes[shape_id].data.properties, property.name()) {
            // The name slot is already taken: the add is a no-op.
            return shape_id;
        }

        let mut new_properties = clone_properties(&self.shapes[shape_id].data.properties);
        new_properties.push(property);
        proof {
            let base = old(self)@[shape_id as int];
            assert(props_view(new_properties@) =~= base.push(pv));
            assert forall|i: int, j: int|
                0 <= i < j < base.push(pv).len() implies base.push(pv)[i].name != base.push(
                pv,
            )[j].name by {
                if j == base.len() {
                    assert(base[i].name != pv.name);
                }
            }
        }
        self.get_shape_id(new_properties)
    }

    /// Resolves a qualified name against the shape `shape_id`: the first
    /// entry in declaration order whose name equals the multiname's local
    /// name and whose namespace set intersects the multiname's. A multiname
    /// with no local name is a caller error, excluded by precondition.
    pub fn get_for_multiname(&self, shape_id: usize, multiname: &Multiname) -> (r: Option<
        PropertyInfo,
    >)
        requires
            self.wf(),
            shape_id < self@.len(),
            multiname.local_name is Some,
        ensures
            match r {
                Some(p) => spec_first_match(
                    self@[shape_id as int],
                    multiname.local_name->0,
                    multiname.ns_set@,
                    0,
                ) == Some(p@),
                None => spec_first_match(
                    self@[shape_id as int],
                    multiname.local_name->0,
                    multiname.ns_set@,
                    0,
                ) is None,
            },
    {
        let name = match multiname.local_name() {
            Some(n) => n,
            // The precondition guarantees a local name.
            None => vstd::pervasive::unreached(),
        };
        let ghost sprops = self@[shape_id as int];
        let properties = &self.shapes[shape_id].data.properties;
        let mut i: usize = 0;
        while i < properties.len()
            invariant
                i <= properties@.len(),
                shape_id < self@.len(),
                sprops == self@[shape_id as int],
                sprops == props_view(properties@),
                multiname.local_name is Some,
                name == multiname.local_name->0,
                forall|k: int| 0 <= k < i ==> !entry_matches(sprops[k], name, multiname.ns_set@),
            decreases properties@.len() - i,
        {
            if properties[i].name == name {
                if ns_sets_intersect_exec(&properties[i].ns, &multiname.ns_set) {
                    proof {
                        assert(sprops[i as int] == properties@[i as int]@);
                        assert(entry_matches(sprops[i as int], name, multiname.ns_set@));
                        lemma_first_match_skip(sprops, name, multiname.ns_set@, i as int);
                        assert(spec_first_match(sprops, name, multiname.ns_set@, i as int)
                            == Some(sprops[i as int]));
                    }
                    return Some(clone_property_info(&properties[i]));
                }
            }
            i = i + 1;
        }
        proof {
            lemma_first_match_skip(sprops, name, multiname.ns_set@, i as int);
        }
        None
    }
}

/// Interning deduplicates: interning the same property sequence twice yields
/// the same identity and leaves the table unchanged, while interning a
/// structurally distinct sequence afterwards always yields a different
/// identity.
pub proof fn lemma_shape_dedup(
    shapes: Seq<Seq<PropertyInfoV>>,
    p1: Seq<PropertyInfoV>,
    p2: Seq<PropertyInfoV>,
)
    ensures
        spec_intern_shapes(spec_intern_shapes(shapes, p1), p1) == spec_intern_shapes(shapes, p1),
        spec_intern_id(spec_intern_shapes(shapes, p1), p1) == spec_intern_id(shapes, p1),
        p1 != p2 ==> spec_intern_id(spec_intern_shapes(shapes, p1), p2) != spec_intern_id(
            shapes,
            p1,
        ),
{
    let s1 = spec_intern_shapes(shapes, p1);
    let id1 = spec_intern_id(shapes, p1);
    lemma_find_shape_props(shapes, p1, 0);
    match spec_find_shape(shapes, p1, 0) {
        Some(i) => {
            assert(s1 == shapes);
        },
        None => {
            assert(s1 == shapes.push(p1));
            assert(forall|k: int| 0 <= k < shapes.len() ==> s1[k] != p1);
            lemma_find_shape_skip(s1, p1, shapes.len() as int);
            assert(spec_find_shape(s1, p1, shapes.len() as int) == Some(shapes.len() as int));
        },
    }
    assert(s1[id1] == p1);
    if p1 != p2 {
        lemma_find_shape_props(s1, p2, 0);
        match spec_find_shape(s1, p2, 0) {
            Some(j) => {
                assert(s1[j] == p2);
                assert(j != id1);
            },
            None => {
                assert(spec_intern_id(s1, p2) == s1.len());
            },
        }
    }
}

} // verus!
