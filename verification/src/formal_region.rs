//! The generics of an uninstantiated package.

use vstd::prelude::*;

use crate::design::Design;
use crate::diagnostic::Diagnostic;
use crate::diagnostic::Message;
use crate::named_entity::is_object_kind;
use crate::named_entity::is_overloaded_kind;
use crate::named_entity::is_type_kind;
use crate::named_entity::AnyEntKind;
use crate::named_entity::EntRef;
use crate::named_entity::EntityId;
use crate::named_entity::ObjectEnt;
use crate::named_entity::Overloaded;
use crate::named_entity::OverloadedEnt;
use crate::named_entity::Type;
use crate::named_entity::TypeEnt;
use crate::syntax::Designator;
use crate::syntax::SrcPos;

verus! {

/// A generic of a package: a type, a constant, a subprogram or a package.
#[derive(Debug)]
pub enum GpkgInterfaceEnt {
    Type(TypeEnt),
    Constant(ObjectEnt),
    Subprogram(OverloadedEnt),
    Package(EntRef),
}

/// The generic that a declaration is, if it is one: an interface type, an
/// interface object, an interface subprogram or a package instance.
pub open spec fn generic_class(e: EntRef) -> Option<GpkgInterfaceEnt> {
    match e.kind {
        AnyEntKind::Type(Type::Interface) => Some(GpkgInterfaceEnt::Type(TypeEnt(e))),
        AnyEntKind::Object(o) => if o.mode is Some {
            Some(GpkgInterfaceEnt::Constant(ObjectEnt(e)))
        } else {
            None
        },
        AnyEntKind::Overloaded(Overloaded::InterfaceSubprogram(_)) => Some(
            GpkgInterfaceEnt::Subprogram(OverloadedEnt(e)),
        ),
        AnyEntKind::Design(Design::PackageInstance(_)) => Some(GpkgInterfaceEnt::Package(e)),
        _ => None,
    }
}

impl GpkgInterfaceEnt {
    /// The declaration of the generic.
    pub open spec fn ent_spec(&self) -> EntRef {
        match self {
            GpkgInterfaceEnt::Type(t) => t.0,
            GpkgInterfaceEnt::Constant(o) => o.0,
            GpkgInterfaceEnt::Subprogram(o) => o.0,
            GpkgInterfaceEnt::Package(e) => *e,
        }
    }

    /// Each kind of generic wraps a declaration of that kind.
    pub open spec fn wf(&self) -> bool {
        match self {
            GpkgInterfaceEnt::Type(t) => is_type_kind(t.0.kind),
            GpkgInterfaceEnt::Constant(o) => is_object_kind(o.0.kind),
            GpkgInterfaceEnt::Subprogram(o) => is_overloaded_kind(o.0.kind),
            GpkgInterfaceEnt::Package(_) => true,
        }
    }

    pub fn from_any(ent: &EntRef) -> (r: Option<GpkgInterfaceEnt>)
        ensures
            r == generic_class(*ent),
    {
        match &ent.kind {
            AnyEntKind::Type(Type::Interface) => Some(GpkgInterfaceEnt::Type(TypeEnt(ent.clone()))),
            AnyEntKind::Object(o) => {
                if o.mode.is_some() {
                    Some(GpkgInterfaceEnt::Constant(ObjectEnt(ent.clone())))
                } else {
                    None
                }
            },
            AnyEntKind::Overloaded(Overloaded::InterfaceSubprogram(_)) => Some(
                GpkgInterfaceEnt::Subprogram(OverloadedEnt(ent.clone())),
            ),
            AnyEntKind::Design(Design::PackageInstance(_)) => Some(GpkgInterfaceEnt::Package(ent.clone())),
            _ => None,
        }
    }

    pub fn ent(&self) -> (r: &EntRef)
        ensures
            *r == self.ent_spec(),
    {
        match self {
            GpkgInterfaceEnt::Type(t) => &t.0,
            GpkgInterfaceEnt::Constant(o) => &o.0,
            GpkgInterfaceEnt::Subprogram(o) => &o.0,
            GpkgInterfaceEnt::Package(e) => e,
        }
    }

    pub fn id(&self) -> (r: EntityId)
        ensures
            r == self.ent_spec().id,
    {
        self.ent().id
    }

    pub fn duplicate(&self) -> (r: GpkgInterfaceEnt)
        ensures
            r == *self,
    {
        match self {
            GpkgInterfaceEnt::Type(t) => GpkgInterfaceEnt::Type(t.duplicate()),
            GpkgInterfaceEnt::Constant(o) => GpkgInterfaceEnt::Constant(ObjectEnt(o.0.clone())),
            GpkgInterfaceEnt::Subprogram(o) => GpkgInterfaceEnt::Subprogram(OverloadedEnt(o.0.clone())),
            GpkgInterfaceEnt::Package(e) => GpkgInterfaceEnt::Package(e.clone()),
        }
    }
}

/// The generics of a package, in the order they were declared.
#[derive(Debug)]
pub struct GpkgRegion {
    pub entities: Vec<GpkgInterfaceEnt>,
}

/// The index of the first generic named `d`, or -1 where there is none.
pub open spec fn generic_index(s: Seq<GpkgInterfaceEnt>, d: Designator) -> int
    decreases s.len(),
{
    if s.len() == 0 {
        -1
    } else {
        let k = generic_index(s.drop_last(), d);
        if k >= 0 {
            k
        } else if s.last().ent_spec().designator == d {
            s.len() - 1
        } else {
            -1
        }
    }
}

pub proof fn lemma_generic_index(s: Seq<GpkgInterfaceEnt>, d: Designator)
    ensures
        -1 <= generic_index(s, d) < s.len(),
        generic_index(s, d) >= 0 ==> s[generic_index(s, d)].ent_spec().designator == d,
        generic_index(s, d) >= 0 ==> forall|j: int|
            0 <= j < generic_index(s, d) ==> s[j].ent_spec().designator != d,
        generic_index(s, d) < 0 ==> forall|j: int| 0 <= j < s.len() ==> s[j].ent_spec().designator != d,
    decreases s.len(),
{
    if s.len() > 0 {
        let t = s.drop_last();
        lemma_generic_index(t, d);
        assert forall|j: int| 0 <= j < t.len() implies t[j] == s[j] by {}
    }
}

impl GpkgRegion {
    pub open spec fn wf(&self) -> bool {
        forall|i: int| 0 <= i < self.entities@.len() ==> (#[trigger] self.entities@[i]).wf()
    }

    /// The generic named `designator`, with its position among the generics.
    pub fn lookup(&self, pos: &SrcPos, designator: &Designator) -> (r: Result<(usize, GpkgInterfaceEnt), Diagnostic>)
        ensures
            generic_index(self.entities@, *designator) >= 0 ==> (r matches Ok((i, g)) && i
                == generic_index(self.entities@, *designator) && i < self.entities@.len() && g
                == self.entities@[i as int]),
            generic_index(self.entities@, *designator) < 0 ==> (r matches Err(d) && d.pos == *pos
                && d.message == (Message::NoDeclaration { designator: *designator })
                && d.related@.len() == 0),
    {
        proof {
            lemma_generic_index(self.entities@, *designator);
        }
        let mut i: usize = 0;
        while i < self.entities.len()
            invariant
                i <= self.entities@.len(),
                forall|j: int| 0 <= j < i ==> self.entities@[j].ent_spec().designator != *designator,
                -1 <= generic_index(self.entities@, *designator) < self.entities@.len(),
                generic_index(self.entities@, *designator) >= 0 ==> self.entities@[generic_index(
                    self.entities@,
                    *designator,
                )].ent_spec().designator == *designator,
                generic_index(self.entities@, *designator) >= 0 ==> forall|j: int|
                    0 <= j < generic_index(self.entities@, *designator)
                        ==> self.entities@[j].ent_spec().designator != *designator,
                generic_index(self.entities@, *designator) < 0 ==> forall|j: int|
                    0 <= j < self.entities@.len() ==> self.entities@[j].ent_spec().designator != *designator,
            decreases self.entities@.len() - i,
        {
            if self.entities[i].ent().designator == *designator {
                return Ok((i, self.entities[i].duplicate()));
            }
            i += 1;
        }
        Err(Diagnostic::error(pos, Message::NoDeclaration { designator: *designator }))
    }

    /// The generic at position `idx`, if there are that many.
    pub fn nth(&self, idx: usize) -> (r: Option<GpkgInterfaceEnt>)
        ensures
            idx < self.entities@.len() ==> r == Some(self.entities@[idx as int]),
            idx >= self.entities@.len() ==> r is None,
    {
        if idx < self.entities.len() {
            Some(self.entities[idx].duplicate())
        } else {
            None
        }
    }
}

} // verus!
