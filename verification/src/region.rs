//! Declarative regions: the declarations made in a package, a component, a
//! protected type, and so on, by designator.

use vstd::prelude::*;

use crate::formal_region::generic_class;
use crate::formal_region::GpkgInterfaceEnt;
use crate::formal_region::GpkgRegion;
use crate::named_entity::is_overloaded_kind;
use crate::named_entity::EntRef;
use crate::named_entity::OverloadedEnt;
use crate::syntax::Designator;

verus! {

#[derive(Clone, Copy, PartialEq, Eq, Structural, Debug)]
pub enum RegionKind {
    PackageDeclaration,
    PackageBody,
    Other,
}

/// The overloaded declarations that share one designator.
#[derive(Debug)]
pub struct OverloadedName {
    pub entities: Vec<OverloadedEnt>,
}

/// What a designator names in a region: one declaration, or a set of overloads.
#[derive(Debug)]
pub enum NamedEntities {
    Single(EntRef),
    Overloaded(OverloadedName),
}

/// The abstract value of `NamedEntities`.
pub ghost enum NamedView {
    Single(EntRef),
    Overloaded(Seq<EntRef>),
}

impl OverloadedName {
    pub open spec fn ents(&self) -> Seq<EntRef> {
        self.entities@.map_values(|o: OverloadedEnt| o.0)
    }

    pub fn entities(&self) -> (r: &Vec<OverloadedEnt>)
        ensures
            r@ == self.entities@,
    {
        &self.entities
    }

    pub fn duplicate(&self) -> (r: OverloadedName)
        ensures
            r.ents() == self.ents(),
    {
        let mut v: Vec<OverloadedEnt> = Vec::new();
        let mut i: usize = 0;
        while i < self.entities.len()
            invariant
                i <= self.entities@.len(),
                v@.len() == i,
                forall|j: int| 0 <= j < i ==> v@[j].0 == #[trigger] self.entities@[j].0,
            decreases self.entities@.len() - i,
        {
            v.push(OverloadedEnt(self.entities[i].0.clone()));
            i += 1;
        }
        let r = OverloadedName { entities: v };
        assert(r.ents() =~= self.ents());
        r
    }
}

impl View for NamedEntities {
    type V = NamedView;

    open spec fn view(&self) -> NamedView {
        match self {
            NamedEntities::Single(e) => NamedView::Single(*e),
            NamedEntities::Overloaded(o) => NamedView::Overloaded(o.ents()),
        }
    }
}

impl NamedEntities {
    pub fn duplicate(&self) -> (r: NamedEntities)
        ensures
            r@ == self@,
    {
        match self {
            NamedEntities::Single(e) => NamedEntities::Single(e.clone()),
            NamedEntities::Overloaded(o) => NamedEntities::Overloaded(o.duplicate()),
        }
    }
}

/// The abstract value of a region's declarations, in the order they were made.
pub type RegionEntries = Seq<(Designator, NamedView)>;

/// A declarative region.
#[derive(Debug)]
pub struct Region {
    pub entities: Vec<(Designator, NamedEntities)>,
    pub kind: RegionKind,
}

/// The index of the entry for designator `d`, or -1 where there is none.
pub open spec fn key_index(s: RegionEntries, d: Designator) -> int
    decreases s.len(),
{
    if s.len() == 0 {
        -1
    } else {
        let k = key_index(s.drop_last(), d);
        if k >= 0 {
            k
        } else if s.last().0 == d {
            s.len() - 1
        } else {
            -1
        }
    }
}

/// What `d` names in a region, if anything.
pub open spec fn lookup_spec(s: RegionEntries, d: Designator) -> Option<NamedView> {
    let k = key_index(s, d);
    if k >= 0 {
        Some(s[k].1)
    } else {
        None
    }
}

/// The declarations of a region after `e` was added to it: a new designator gets an
/// entry of its own; an overloaded declaration joins the overloads already there;
/// any other declaration of a designator that is already declared is dropped.
pub open spec fn add_spec(s: RegionEntries, e: EntRef) -> RegionEntries {
    let k = key_index(s, e.designator);
    if k < 0 {
        if is_overloaded_kind(e.kind) {
            s.push((e.designator, NamedView::Overloaded(seq![e])))
        } else {
            s.push((e.designator, NamedView::Single(e)))
        }
    } else {
        match s[k].1 {
            NamedView::Overloaded(l) => if is_overloaded_kind(e.kind) {
                s.update(k, (e.designator, NamedView::Overloaded(l.push(e))))
            } else {
                s
            },
            NamedView::Single(_) => s,
        }
    }
}

/// The declarations of a region after each of `es` was added in turn.
pub open spec fn add_all_spec(s: RegionEntries, es: Seq<EntRef>) -> RegionEntries
    decreases es.len(),
{
    if es.len() == 0 {
        s
    } else {
        add_spec(add_all_spec(s, es.drop_last()), es.last())
    }
}

/// Adding the declarations of `a` and then those of `b` is adding those of `a + b`.
pub proof fn lemma_add_all_concat(s: RegionEntries, a: Seq<EntRef>, b: Seq<EntRef>)
    ensures
        add_all_spec(s, a + b) == add_all_spec(add_all_spec(s, a), b),
    decreases b.len(),
{
    if b.len() == 0 {
        assert(a + b =~= a);
    } else {
        lemma_add_all_concat(s, a, b.drop_last());
        assert((a + b).drop_last() =~= a + b.drop_last());
        assert((a + b).last() == b.last());
    }
}

/// The declarations that an entry names.
pub open spec fn named_ents(n: NamedView) -> Seq<EntRef> {
    match n {
        NamedView::Single(e) => seq![e],
        NamedView::Overloaded(l) => l,
    }
}

/// The declarations of a region, entry by entry.
pub open spec fn declarations(s: RegionEntries) -> Seq<EntRef>
    decreases s.len(),
{
    if s.len() == 0 {
        Seq::empty()
    } else {
        declarations(s.drop_last()) + named_ents(s.last().1)
    }
}

/// The generics among some declarations, in order.
pub open spec fn generics_of(ds: Seq<EntRef>) -> Seq<GpkgInterfaceEnt>
    decreases ds.len(),
{
    if ds.len() == 0 {
        Seq::empty()
    } else {
        match generic_class(ds.last()) {
            Some(g) => generics_of(ds.drop_last()).push(g),
            None => generics_of(ds.drop_last()),
        }
    }
}

/// The declarations among some declarations that are not generics, in order.
pub open spec fn others_of(ds: Seq<EntRef>) -> Seq<EntRef>
    decreases ds.len(),
{
    if ds.len() == 0 {
        Seq::empty()
    } else {
        match generic_class(ds.last()) {
            Some(_) => others_of(ds.drop_last()),
            None => others_of(ds.drop_last()).push(ds.last()),
        }
    }
}

pub proof fn lemma_key_index(s: RegionEntries, d: Designator)
    ensures
        -1 <= key_index(s, d) < s.len(),
        key_index(s, d) >= 0 ==> s[key_index(s, d)].0 == d,
        key_index(s, d) >= 0 ==> forall|j: int| 0 <= j < key_index(s, d) ==> s[j].0 != d,
        key_index(s, d) < 0 ==> forall|j: int| 0 <= j < s.len() ==> s[j].0 != d,
    decreases s.len(),
{
    if s.len() > 0 {
        let t = s.drop_last();
        lemma_key_index(t, d);
        assert forall|j: int| 0 <= j < t.len() implies t[j] == s[j] by {}
    }
}

impl Region {
    pub open spec fn entries(&self) -> RegionEntries {
        self.entities@.map_values(|p: (Designator, NamedEntities)| (p.0, p.1@))
    }

    /// An empty region of the given kind.
    pub fn with_kind(kind: RegionKind) -> (r: Region)
        ensures
            r.entries() == RegionEntries::empty(),
            r.entities@.len() == 0,
            r.kind == kind,
    {
        let r = Region { entities: Vec::new(), kind };
        assert(r.entries() =~= RegionEntries::empty());
        r
    }

    /// The index of the entry for `d`, if any.
    fn find(&self, d: &Designator) -> (r: Option<usize>)
        ensures
            key_index(self.entries(), *d) < 0 ==> r is None,
            key_index(self.entries(), *d) >= 0 ==> r is Some,
            r matches Some(i) ==> i == key_index(self.entries(), *d) && i < self.entities@.len(),
    {
        let mut i: usize = 0;
        while i < self.entities.len()
            invariant
                i <= self.entities@.len(),
                self.entries().len() == self.entities@.len(),
                forall|j: int| 0 <= j < i ==> self.entries()[j].0 != *d,
            decreases self.entities@.len() - i,
        {
            assert(self.entries()[i as int].0 == self.entities@[i as int].0);
            if self.entities[i].0 == *d {
                proof {
                    lemma_key_index(self.entries(), *d);
                }
                return Some(i);
            }
            i += 1;
        }
        proof {
            lemma_key_index(self.entries(), *d);
        }
        None
    }

    /// What `designator` names in this region itself (not in enclosing ones).
    pub fn lookup_immediate(&self, designator: &Designator) -> (r: Option<&NamedEntities>)
        ensures
            lookup_spec(self.entries(), *designator) is None ==> r is None,
            lookup_spec(self.entries(), *designator) matches Some(v) ==> (r matches Some(n) && n@ == v),
    {
        proof {
            lemma_key_index(self.entries(), *designator);
        }
        match self.find(designator) {
            Some(i) => {
                assert(key_index(self.entries(), *designator) == i);
                assert(self.entries()[i as int].1 == self.entities@[i as int].1@);
                assert(lookup_spec(self.entries(), *designator) == Some(self.entities@[i as int].1@));
                Some(&self.entities[i].1)
            },
            None => None,
        }
    }

    /// Adds a declaration to this region. Returns `false` where it was dropped
    /// because its designator was already declared by something it cannot overload.
    pub fn add(&mut self, ent: EntRef) -> (added: bool)
        ensures
            final(self).kind == old(self).kind,
            final(self).entries() == add_spec(old(self).entries(), ent),
            added <==> final(self).entries() != old(self).entries(),
    {
        let ghost s = self.entries();
        proof {
            lemma_key_index(s, ent.designator);
        }
        let is_overloaded = match ent.kind {
            crate::named_entity::AnyEntKind::Overloaded(_) => true,
            _ => false,
        };
        match self.find(&ent.designator) {
            None => {
                let d = ent.designator;
                if is_overloaded {
                    let mut v: Vec<OverloadedEnt> = Vec::new();
                    v.push(OverloadedEnt(ent));
                    let o = OverloadedName { entities: v };
                    assert(o.ents() =~= seq![ent]);
                    self.entities.push((d, NamedEntities::Overloaded(o)));
                } else {
                    self.entities.push((d, NamedEntities::Single(ent)));
                }
                assert(self.entries() =~= add_spec(s, ent));
                assert(self.entries().len() != s.len());
                true
            },
            Some(i) => {
                assert(s[i as int] == (self.entities@[i as int].0, self.entities@[i as int].1@));
                if is_overloaded && matches!(self.entities[i].1, NamedEntities::Overloaded(_)) {
                    let ghost before_vec = self.entities@;
                    let (d, named) = self.entities.remove(i);
                    match named {
                        NamedEntities::Overloaded(mut o) => {
                            let ghost before = o.ents();
                            assert(s[i as int].1 == NamedView::Overloaded(before));
                            o.entities.push(OverloadedEnt(ent));
                            assert(o.ents() =~= before.push(ent));
                            let ghost entry = (d, NamedEntities::Overloaded(o));
                            self.entities.insert(i, (d, NamedEntities::Overloaded(o)));
                            assert(self.entities@ =~= before_vec.update(i as int, entry));
                            assert(self.entries() =~= s.update(i as int, (d, NamedView::Overloaded(before.push(ent)))));
                        },
                        NamedEntities::Single(e) => {
                            self.entities.insert(i, (d, NamedEntities::Single(e)));
                            assert(self.entities@ =~= before_vec);
                        },
                    }
                    assert(self.entries() =~= add_spec(s, ent));
                    assert(self.entries()[i as int] != s[i as int]);
                    true
                } else {
                    assert(self.entries() =~= add_spec(s, ent));
                    false
                }
            },
        }
    }

    /// Splits the declarations of an uninstantiated package into its generics and
    /// the rest, each in the order of the entries.
    pub fn to_package_generic(&self) -> (r: (GpkgRegion, Vec<EntRef>))
        ensures
            r.0.entities@ == generics_of(declarations(self.entries())),
            r.1@ == others_of(declarations(self.entries())),
            r.0.wf(),
    {
        let mut generics: Vec<GpkgInterfaceEnt> = Vec::new();
        let mut other: Vec<EntRef> = Vec::new();
        let ghost mut done: Seq<EntRef> = Seq::empty();
        let mut i: usize = 0;
        while i < self.entities.len()
            invariant
                i <= self.entities@.len(),
                done == declarations(self.entries().take(i as int)),
                generics@ == generics_of(done),
                other@ == others_of(done),
                forall|k: int| 0 <= k < generics@.len() ==> (#[trigger] generics@[k]).wf(),
            decreases self.entities@.len() - i,
        {
            let ghost before = done;
            match &self.entities[i].1 {
                NamedEntities::Single(e) => {
                    let g = GpkgInterfaceEnt::from_any(e);
                    proof {
                        lemma_generic_class_wf(*e);
                    }
                    match g {
                        Some(g) => generics.push(g),
                        None => other.push(e.clone()),
                    }
                    proof {
                        assert(done.push(*e).drop_last() =~= done);
                        done = done.push(*e);
                    }
                },
                NamedEntities::Overloaded(o) => {
                    let mut j: usize = 0;
                    while j < o.entities.len()
                        invariant
                            j <= o.entities@.len(),
                            done == before + o.ents().take(j as int),
                            generics@ == generics_of(done),
                            other@ == others_of(done),
                            forall|k: int| 0 <= k < generics@.len() ==> (#[trigger] generics@[k]).wf(),
                        decreases o.entities@.len() - j,
                    {
                        let e = &o.entities[j].0;
                        let g = GpkgInterfaceEnt::from_any(e);
                        proof {
                            lemma_generic_class_wf(*e);
                        }
                        match g {
                            Some(g) => generics.push(g),
                            None => other.push(e.clone()),
                        }
                        proof {
                            assert(done.push(*e).drop_last() =~= done);
                            assert(o.ents().take(j + 1) =~= o.ents().take(j as int).push(*e));
                            done = done.push(*e);
                        }
                        j += 1;
                    }
                    assert(o.ents().take(j as int) =~= o.ents());
                },
            }
            proof {
                let t = self.entries().take(i + 1);
                assert(t.drop_last() =~= self.entries().take(i as int));
                assert(t.last() == self.entries()[i as int]);
                assert(done =~= declarations(t));
            }
            i += 1;
        }
        assert(self.entries().take(i as int) =~= self.entries());
        (GpkgRegion { entities: generics }, other)
    }
}

/// The entry at `i` is the first for `d`, so it is the one that `key_index` finds.
proof fn lemma_key_index_unique(s: RegionEntries, d: Designator, i: int)
    requires
        0 <= i < s.len(),
        s[i].0 == d,
        forall|j: int| 0 <= j < i ==> s[j].0 != d,
    ensures
        key_index(s, d) == i,
{
    lemma_key_index(s, d);
}

/// Adding a declaration whose designator a region does not declare yet makes
/// that designator name it, alone.
pub proof fn lemma_lookup_after_add(s: RegionEntries, e: EntRef)
    requires
        lookup_spec(s, e.designator) is None,
    ensures
        lookup_spec(add_spec(s, e), e.designator) == Some(
            if is_overloaded_kind(e.kind) {
                NamedView::Overloaded(seq![e])
            } else {
                NamedView::Single(e)
            },
        ),
{
    lemma_key_index(s, e.designator);
    let t = add_spec(s, e);
    assert(t.len() == s.len() + 1);
    lemma_key_index_unique(t, e.designator, s.len() as int);
}

/// Adding an overloaded declaration where its designator already names overloads
/// adds it to them.
pub proof fn lemma_overload_after_add(s: RegionEntries, e: EntRef, l: Seq<EntRef>)
    requires
        lookup_spec(s, e.designator) == Some(NamedView::Overloaded(l)),
        is_overloaded_kind(e.kind),
    ensures
        lookup_spec(add_spec(s, e), e.designator) == Some(NamedView::Overloaded(l.push(e))),
{
    let d = e.designator;
    lemma_key_index(s, d);
    let k = key_index(s, d);
    let t = add_spec(s, e);
    assert(t == s.update(k, (d, NamedView::Overloaded(l.push(e)))));
    lemma_key_index_unique(t, d, k);
}

/// Adding a declaration changes nothing that the other designators name.
pub proof fn lemma_lookup_other_after_add(s: RegionEntries, e: EntRef, d: Designator)
    requires
        d != e.designator,
    ensures
        lookup_spec(add_spec(s, e), d) == lookup_spec(s, d),
{
    lemma_key_index(s, d);
    lemma_key_index(s, e.designator);
    let t = add_spec(s, e);
    assert(forall|j: int| 0 <= j < s.len() ==> t[j].0 == s[j].0);
    lemma_key_index(t, d);
    let k = key_index(s, d);
    if k >= 0 {
        lemma_key_index_unique(t, d, k);
        assert(t[k] == s[k]);
    } else {
        assert(t.len() == s.len() ==> forall|j: int| 0 <= j < t.len() ==> t[j].0 != d);
    }
}

/// Every declaration of a package is either one of its generics or one of the others.
pub proof fn lemma_generics_partition(ds: Seq<EntRef>)
    ensures
        generics_of(ds).len() + others_of(ds).len() == ds.len(),
    decreases ds.len(),
{
    if ds.len() > 0 {
        lemma_generics_partition(ds.drop_last());
    }
}

/// A generic that a declaration is wraps a declaration of its own kind.
pub proof fn lemma_generic_class_wf(e: EntRef)
    ensures
        generic_class(e) matches Some(g) ==> g.wf() && g.ent_spec() == e,
{
}


/// Whether the entry `n` of a region names the declaration `e`, alone or as
/// one of its overloads.
pub open spec fn entry_names(n: NamedView, e: EntRef) -> bool {
    match n {
        NamedView::Single(x) => x == e,
        NamedView::Overloaded(l) => l.contains(e),
    }
}

/// The number of declarations that the entries of a region name, each overload
/// counted.
pub open spec fn entity_count(s: RegionEntries) -> nat
    decreases s.len(),
{
    if s.len() == 0 {
        0
    } else {
        entity_count(s.drop_last()) + match s.last().1 {
            NamedView::Single(_) => 1nat,
            NamedView::Overloaded(l) => l.len(),
        }
    }
}

proof fn lemma_declarations_len(s: RegionEntries)
    ensures
        declarations(s).len() == entity_count(s),
    decreases s.len(),
{
    if s.len() > 0 {
        lemma_declarations_len(s.drop_last());
    }
}

proof fn lemma_declarations_contain(s: RegionEntries, k: int, e: EntRef)
    requires
        0 <= k < s.len(),
        entry_names(s[k].1, e),
    ensures
        declarations(s).contains(e),
    decreases s.len(),
{
    let t = s.drop_last();
    let last = named_ents(s.last().1);
    assert(declarations(s) == declarations(t) + last);
    if k < s.len() - 1 {
        assert(t[k] == s[k]);
        lemma_declarations_contain(t, k, e);
        let x = choose|x: int| 0 <= x < declarations(t).len() && declarations(t)[x] == e;
        assert((declarations(t) + last)[x] == e);
    } else {
        let x = match s.last().1 {
            NamedView::Single(_) => 0int,
            NamedView::Overloaded(l) => choose|x: int| 0 <= x < l.len() && l[x] == e,
        };
        assert(last[x] == e);
        assert((declarations(t) + last)[declarations(t).len() + x] == e);
    }
}

proof fn lemma_placed(ds: Seq<EntRef>, e: EntRef)
    requires
        ds.contains(e),
    ensures
        generic_class(e) matches Some(g) ==> generics_of(ds).contains(g),
        generic_class(e) is None ==> others_of(ds).contains(e),
    decreases ds.len(),
{
    let t = ds.drop_last();
    if ds.last() == e {
        match generic_class(e) {
            Some(g) => {
                assert(generics_of(ds) == generics_of(t).push(g));
                assert(generics_of(ds)[generics_of(t).len() as int] == g);
            },
            None => {
                assert(others_of(ds) == others_of(t).push(e));
                assert(others_of(ds)[others_of(t).len() as int] == e);
            },
        }
    } else {
        let x = choose|x: int| 0 <= x < ds.len() && ds[x] == e;
        assert(x < ds.len() - 1);
        assert(t[x] == e);
        lemma_placed(t, e);
        match generic_class(e) {
            Some(g) => {
                let y = choose|y: int| 0 <= y < generics_of(t).len() && generics_of(t)[y] == g;
                match generic_class(ds.last()) {
                    Some(h) => assert(generics_of(ds)[y] == g),
                    None => assert(generics_of(ds)[y] == g),
                }
            },
            None => {
                let y = choose|y: int| 0 <= y < others_of(t).len() && others_of(t)[y] == e;
                match generic_class(ds.last()) {
                    Some(_) => assert(others_of(ds)[y] == e),
                    None => assert(others_of(ds)[y] == e),
                }
            },
        }
    }
}

/// Splitting the declarations of a package into its generics and the others
/// keeps every declaration that its entries name, each overload included: the
/// two lists together are as long as the number of those declarations.
pub proof fn lemma_package_split_counts_every_overload(s: RegionEntries)
    ensures
        generics_of(declarations(s)).len() + others_of(declarations(s)).len() == entity_count(s),
{
    lemma_generics_partition(declarations(s));
    lemma_declarations_len(s);
}

/// Every declaration that an entry of a package names, each overload included,
/// is one of its generics or one of the others.
pub proof fn lemma_every_declaration_is_placed(s: RegionEntries, k: int, e: EntRef)
    requires
        0 <= k < s.len(),
        entry_names(s[k].1, e),
    ensures
        generic_class(e) matches Some(g) ==> generics_of(declarations(s)).contains(g),
        generic_class(e) is None ==> others_of(declarations(s)).contains(e),
{
    lemma_declarations_contain(s, k, e);
    lemma_placed(declarations(s), e);
}

} // verus!
