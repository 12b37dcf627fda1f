//! Design units as named entities: entities, configurations, packages,
//! package instances and contexts.

use vstd::prelude::*;
use std::ops::Deref;

use crate::diagnostic::Diagnostic;
use crate::diagnostic::Message;
use crate::named_entity::AnyEnt;
use crate::named_entity::AnyEntKind;
use crate::named_entity::EntRef;
use crate::region::lookup_spec;
use crate::region::NamedEntities;
use crate::region::Region;
use crate::syntax::Designator;
use crate::syntax::SrcPos;
use crate::syntax::WithPos;
use crate::syntax::WithRef;

verus! {

/// The declarations made visible by use clauses and context items.
#[derive(Debug)]
pub struct Visibility {
    pub visible: Vec<EntRef>,
}

#[derive(Debug)]
pub enum Design {
    Entity(Visibility, Region),
    Configuration,
    Package(Visibility, Region),
    UninstPackage(Visibility, Region),
    PackageInstance(Region),
    Context(Region),
}

/// The words that describe each kind of design unit.
pub open spec fn describe_spec(d: Design) -> Seq<char> {
    match d {
        Design::Entity(..) => "entity"@,
        Design::Configuration => "configuration"@,
        Design::Package(..) => "package"@,
        Design::UninstPackage(..) => "uninstantiated package"@,
        Design::PackageInstance(..) => "package instance"@,
        Design::Context(..) => "context"@,
    }
}

impl Design {
    pub fn describe(&self) -> (r: &'static str)
        ensures
            r@ == describe_spec(*self),
    {
        match self {
            Design::Entity(..) => {
                proof {
                    reveal_strlit("entity");
                }
                "entity"
            },
            Design::Configuration => {
                proof {
                    reveal_strlit("configuration");
                }
                "configuration"
            },
            Design::Package(..) => {
                proof {
                    reveal_strlit("package");
                }
                "package"
            },
            Design::UninstPackage(..) => {
                proof {
                    reveal_strlit("uninstantiated package");
                }
                "uninstantiated package"
            },
            Design::PackageInstance(..) => {
                proof {
                    reveal_strlit("package instance");
                }
                "package instance"
            },
            Design::Context(..) => {
                proof {
                    reveal_strlit("context");
                }
                "context"
            },
        }
    }
}

/// A named entity that is known to be a design unit.
#[derive(Clone, Debug)]
pub struct DesignEnt(pub EntRef);

/// Two design units are equal where they are the same entity, by identity.
impl PartialEq for DesignEnt {
    fn eq(&self, other: &Self) -> (r: bool) {
        self.0.id == other.0.id
    }
}

impl vstd::std_specs::cmp::PartialEqSpecImpl for DesignEnt {
    open spec fn obeys_eq_spec() -> bool {
        true
    }

    open spec fn eq_spec(&self, other: &Self) -> bool {
        self.0.id == other.0.id
    }
}

impl Eq for DesignEnt {
}

/// The design unit that an entity of kind `Design` is.
pub open spec fn design_of(e: AnyEnt) -> Design
    recommends
        e.kind is Design,
{
    match e.kind {
        AnyEntKind::Design(d) => d,
        _ => arbitrary(),
    }
}

/// What `selected` returns for a design unit `ent` and a suffix.
pub open spec fn selected_ok(ent: EntRef, suffix: Designator) -> Option<crate::region::NamedView> {
    match design_of(*ent) {
        Design::Package(_, region) => lookup_spec(region.entries(), suffix),
        Design::PackageInstance(region) => lookup_spec(region.entries(), suffix),
        _ => None,
    }
}

/// Whether a selected name may have the design unit as its prefix.
pub open spec fn may_be_selected_prefix(d: Design) -> bool {
    d is Package || d is PackageInstance
}

impl DesignEnt {
    /// The entity as a design unit, or the entity itself where it is not one.
    pub fn from_any(ent: &EntRef) -> (r: Result<DesignEnt, EntRef>)
        ensures
            r is Ok <==> ent.kind is Design,
            r matches Ok(d) ==> d.0 == *ent,
            r matches Err(e) ==> e == *ent,
    {
        if matches!(ent.kind, AnyEntKind::Design(..)) {
            Ok(DesignEnt(ent.clone()))
        } else {
            Err(ent.clone())
        }
    }

    pub fn kind(&self) -> (d: &Design)
        requires
            self.0.kind is Design,
        ensures
            *d == design_of(*self.0),
    {
        match &self.0.kind {
            AnyEntKind::Design(typ) => typ,
            _ => vstd::pervasive::unreached(),
        }
    }

    /// Resolves the selected name `prefix.suffix`, where the prefix is this design unit.
    pub fn selected(&self, prefix_pos: &SrcPos, suffix: &WithPos<WithRef<Designator>>) -> (r:
        Result<NamedEntities, Diagnostic>)
        requires
            self.0.kind is Design,
        ensures
            !may_be_selected_prefix(design_of(*self.0)) ==> (r matches Err(d) && d.pos == *prefix_pos
                && d.message == (Message::InvalidSelectedNamePrefix { prefix: self.0 })
                && d.related@.len() == 0),
            may_be_selected_prefix(design_of(*self.0)) ==> match selected_ok(self.0, suffix.item.item) {
                Some(v) => r matches Ok(n) && n@ == v,
                None => r matches Err(d) && d.pos == suffix.pos && d.message == (
                Message::NoDeclarationWithin { prefix: self.0, suffix: suffix.item.item })
                    && d.related@.len() == 0,
            },
    {
        match self.kind() {
            Design::Package(_, region) | Design::PackageInstance(region) => {
                if let Some(decl) = region.lookup_immediate(suffix.designator()) {
                    Ok(decl.duplicate())
                } else {
                    Err(Diagnostic::no_declaration_within(&self.0, &suffix.pos, &suffix.item.item))
                }
            },
            _ => Err(Diagnostic::invalid_selected_name_prefix(&self.0, prefix_pos)),
        }
    }
}

impl From<DesignEnt> for EntRef {
    fn from(ent: DesignEnt) -> (r: EntRef) {
        ent.0
    }
}

impl Deref for DesignEnt {
    type Target = AnyEnt;

    fn deref(&self) -> (r: &AnyEnt)
        ensures
            *r == *self.0,
    {
        &self.0
    }
}

impl vstd::std_specs::convert::FromSpecImpl<DesignEnt> for EntRef {
    open spec fn obeys_from_spec() -> bool {
        true
    }

    open spec fn from_spec(ent: DesignEnt) -> EntRef {
        ent.0
    }
}

} // verus!
