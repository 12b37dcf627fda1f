//! Instantiation of generic packages: the declarations of an uninstantiated
//! package are copied into the instance, with each generic type replaced by the
//! actual that the generic map gives for it.

use vstd::prelude::*;
use vstd::string::StringExecFns;
use fnv::FnvHashMap;

use crate::design::describe_spec;
use crate::diagnostic::as_fatal;
use crate::diagnostic::AnalysisError;
use crate::diagnostic::Diagnostic;
use crate::diagnostic::EvalError;
use crate::diagnostic::Message;
use crate::formal_region::GpkgInterfaceEnt;
use crate::formal_region::GpkgRegion;
use crate::formal_region::generic_index;
use crate::formal_region::lemma_generic_index;
use crate::region::add_all_spec;
use crate::region::lemma_add_all_concat;
use crate::region::declarations;
use crate::region::RegionEntries;
use crate::region::RegionKind;
use crate::syntax::PackageInstantiation;
use crate::region::generics_of;
use crate::region::others_of;
use crate::syntax::ActualPart;
use crate::syntax::AssociationElement;
use crate::syntax::Expression;
use crate::syntax::Literal;
use crate::syntax::Name;
use crate::syntax::Operator;
use crate::syntax::SrcPos;
use crate::syntax::WithPos;
use crate::syntax::WithRef;
use crate::syntax::lowercase;
use crate::syntax::could_be_indexed_spec;
use crate::design::Design;
use crate::fnv_map::mapping_get;
use crate::named_entity::base_of;
use crate::named_entity::is_interface_kind;
use crate::named_entity::is_object_kind;
use crate::named_entity::is_overloaded_kind;
use crate::named_entity::is_record_element_kind;
use crate::named_entity::is_type_kind;
use crate::named_entity::kind_describe_spec;
use crate::named_entity::AnyEnt;
use crate::named_entity::AnyEntKind;
use crate::named_entity::Arena;
use crate::named_entity::BaseType;
use crate::named_entity::EntRef;
use crate::named_entity::EntityId;
use crate::named_entity::FormalRegion;
use crate::named_entity::InterfaceEnt;
use crate::named_entity::Object;
use crate::named_entity::ObjectEnt;
use crate::named_entity::Overloaded;
use crate::named_entity::OverloadedEnt;
use crate::named_entity::RecordElement;
use crate::named_entity::RecordRegion;
use crate::named_entity::Related;
use crate::named_entity::Signature;
use crate::named_entity::Subtype;
use crate::named_entity::Type;
use crate::named_entity::TypeEnt;
use crate::protected::empty_protected_body;
use crate::protected::protected_body_contents;
use crate::region::NamedEntities;
use crate::resolution::Resolution;
use crate::region::OverloadedName;
use crate::region::Region;
use crate::syntax::Designator;

verus! {

/// Why a declaration could not be instantiated.
#[derive(Debug)]
pub enum InstantiationError {
    /// The instance of the base object of an object alias is not an object.
    ExpectedObject,
    /// The instance of an alias of an overloaded entity is not overloaded.
    ExpectedOverloaded,
    /// The instance of a formal of a signature is not an interface declaration.
    ExpectedInterface,
    /// The instance of an element of a record is not a record element.
    ExpectedRecordElement,
    /// A design unit other than a package instance was met; it is described by the text.
    UnexpectedDesign(&'static str),
    /// A generic type was mapped to an entity that is not a type.
    ExpectedType(EntRef),
    /// The arena has handed out every identity it has.
    ArenaExhausted,
}

/// The abstract value of an `InstantiationError`.
pub ghost enum InstantiationErrorView {
    ExpectedObject,
    ExpectedOverloaded,
    ExpectedInterface,
    ExpectedRecordElement,
    UnexpectedDesign(Seq<char>),
    ExpectedType(EntRef),
    ArenaExhausted,
}

impl View for InstantiationError {
    type V = InstantiationErrorView;

    open spec fn view(&self) -> InstantiationErrorView {
        match self {
            InstantiationError::ExpectedObject => InstantiationErrorView::ExpectedObject,
            InstantiationError::ExpectedOverloaded => InstantiationErrorView::ExpectedOverloaded,
            InstantiationError::ExpectedInterface => InstantiationErrorView::ExpectedInterface,
            InstantiationError::ExpectedRecordElement => InstantiationErrorView::ExpectedRecordElement,
            InstantiationError::UnexpectedDesign(s) => InstantiationErrorView::UnexpectedDesign(s@),
            InstantiationError::ExpectedType(e) => InstantiationErrorView::ExpectedType(*e),
            InstantiationError::ArenaExhausted => InstantiationErrorView::ArenaExhausted,
        }
    }
}

impl InstantiationError {
    /// The text that the error is reported with.
    pub fn text(&self) -> (s: String)
        ensures
            match self@ {
                InstantiationErrorView::ExpectedObject => s@
                    == "Internal error, expected instantiated object to be object"@,
                InstantiationErrorView::ExpectedOverloaded => s@
                    == "Internal error, expected overloaded when instantiating overloaded entity"@,
                InstantiationErrorView::ExpectedInterface => s@
                    == "Internal error, expected interface to be instantiated as interface"@,
                InstantiationErrorView::ExpectedRecordElement => s@
                    == "Internal error, expected instantiated record element to be record element"@,
                InstantiationErrorView::UnexpectedDesign(d) => s@ == "Internal error, did not expect to instantiate "@
                    + d,
                InstantiationErrorView::ExpectedType(e) => s@
                    == "Internal error when mapping type, expected type got "@ + kind_describe_spec(e.kind),
                InstantiationErrorView::ArenaExhausted => s@
                    == "Internal error, no entity identities are left"@,
            },
    {
        match self {
            InstantiationError::ExpectedObject => "Internal error, expected instantiated object to be object".to_owned(),
            InstantiationError::ExpectedOverloaded => "Internal error, expected overloaded when instantiating overloaded entity".to_owned(),
            InstantiationError::ExpectedInterface => "Internal error, expected interface to be instantiated as interface".to_owned(),
            InstantiationError::ExpectedRecordElement => "Internal error, expected instantiated record element to be record element".to_owned(),
            InstantiationError::UnexpectedDesign(d) => "Internal error, did not expect to instantiate ".to_owned().concat(d),
            InstantiationError::ExpectedType(e) => "Internal error when mapping type, expected type got ".to_owned().concat(
                e.kind.describe(),
            ),
            InstantiationError::ArenaExhausted => "Internal error, no entity identities are left".to_owned(),
        }
    }
}

/// The map from the identity of each generic of a package to its actual.
pub type GenericMapping = FnvHashMap<EntityId, EntRef>;

/// The abstract value of a generic mapping.
pub type MappingView = Map<EntityId, EntRef>;

pub type ErrView = InstantiationErrorView;

/// A result, with its error taken by its view.
pub open spec fn rv<T>(r: Result<T, InstantiationError>) -> Result<T, ErrView> {
    match r {
        Ok(v) => Ok(v),
        Err(e) => Err(e@),
    }
}

// ---------------------------------------------------------------------------
// Mapping of type marks.
// ---------------------------------------------------------------------------

/// A type mark after instantiation: the actual of the generic type, where the
/// mapping has one, which must then be a type; the type mark itself otherwise.
pub open spec fn map_type_spec(m: MappingView, t: TypeEnt) -> Result<TypeEnt, ErrView> {
    if m.contains_key(t.0.id) {
        let ent = m[t.0.id];
        if is_type_kind(ent.kind) {
            Ok(TypeEnt(ent))
        } else {
            Err(InstantiationErrorView::ExpectedType(ent))
        }
    } else {
        Ok(t)
    }
}

pub open spec fn mapped_type(m: MappingView, t: TypeEnt) -> TypeEnt {
    match map_type_spec(m, t) {
        Ok(r) => r,
        Err(_) => t,
    }
}

pub open spec fn type_error(m: MappingView, t: TypeEnt) -> Option<ErrView> {
    match map_type_spec(m, t) {
        Ok(_) => None,
        Err(e) => Some(e),
    }
}

pub open spec fn map_subtype_spec(m: MappingView, s: Subtype) -> Result<Subtype, ErrView> {
    match map_type_spec(m, s.type_mark) {
        Ok(t) => Ok(Subtype { type_mark: t }),
        Err(e) => Err(e),
    }
}

pub open spec fn mapped_subtype(m: MappingView, s: Subtype) -> Subtype {
    Subtype { type_mark: mapped_type(m, s.type_mark) }
}

pub open spec fn map_object_spec(m: MappingView, o: Object) -> Result<Object, ErrView> {
    match map_subtype_spec(m, o.subtype) {
        Ok(s) => Ok(Object { class: o.class, mode: o.mode, subtype: s, has_default: o.has_default }),
        Err(e) => Err(e),
    }
}

/// An optional base type after instantiation: the base of the mapped type.
pub open spec fn mapped_base(m: MappingView, b: Option<BaseType>) -> Option<BaseType> {
    match b {
        Some(b) => Some(BaseType(base_of(mapped_type(m, b.0)))),
        None => None,
    }
}

pub open spec fn base_error(m: MappingView, b: Option<BaseType>) -> Option<ErrView> {
    match b {
        Some(b) => type_error(m, b.0),
        None => None,
    }
}

/// The first error among the mapped base types from index `j` on.
pub open spec fn indexes_error_from(m: MappingView, xs: Seq<Option<BaseType>>, j: int) -> Option<ErrView>
    decreases xs.len() - j,
{
    if 0 <= j < xs.len() {
        match base_error(m, xs[j]) {
            Some(e) => Some(e),
            None => indexes_error_from(m, xs, j + 1),
        }
    } else {
        None
    }
}

// ---------------------------------------------------------------------------
// The first error that instantiation meets, in the order it visits declarations:
// the kind of an entity first, then its implicit declarations.
// ---------------------------------------------------------------------------

pub open spec fn inst_error(m: MappingView, u: EntRef) -> Option<ErrView>
    decreases u, 0int,
{
    match kind_error(m, u.kind) {
        Some(e) => Some(e),
        None => ents_error_from(m, u.implicits@, 0),
    }
}

pub open spec fn ents_error_from(m: MappingView, s: Seq<EntRef>, j: int) -> Option<ErrView>
    decreases s, s.len() - j,
{
    if 0 <= j < s.len() {
        match inst_error(m, s[j]) {
            Some(e) => Some(e),
            None => ents_error_from(m, s, j + 1),
        }
    } else {
        None
    }
}

pub open spec fn kind_error(m: MappingView, k: AnyEntKind) -> Option<ErrView>
    decreases k, 0int,
{
    match k {
        AnyEntKind::ExternalAlias { type_mark, .. } => type_error(m, type_mark),
        AnyEntKind::ObjectAlias { base_object, type_mark } => match inst_error(m, base_object.0) {
            Some(e) => Some(e),
            None => if !is_object_kind(base_object.0.kind) {
                Some(InstantiationErrorView::ExpectedObject)
            } else {
                type_error(m, type_mark)
            },
        },
        AnyEntKind::File(s) => type_error(m, s.type_mark),
        AnyEntKind::InterfaceFile(t) => type_error(m, t),
        AnyEntKind::Component(r) => region_error(m, r),
        AnyEntKind::Attribute(t) => type_error(m, t),
        AnyEntKind::Overloaded(o) => overloaded_error(m, o),
        AnyEntKind::Type(t) => type_kind_error(m, t),
        AnyEntKind::ElementDeclaration(s) => type_error(m, s.type_mark),
        AnyEntKind::Label => None,
        AnyEntKind::Object(o) => type_error(m, o.subtype.type_mark),
        AnyEntKind::LoopParameter(b) => base_error(m, b),
        AnyEntKind::PhysicalLiteral(t) => type_error(m, t),
        AnyEntKind::DeferredConstant(s) => type_error(m, s.type_mark),
        AnyEntKind::Library => None,
        AnyEntKind::Design(d) => match d {
            Design::PackageInstance(r) => region_error(m, r),
            _ => Some(InstantiationErrorView::UnexpectedDesign(describe_spec(d))),
        },
    }
}

pub open spec fn overloaded_error(m: MappingView, o: Overloaded) -> Option<ErrView>
    decreases o, 0int,
{
    match o {
        Overloaded::SubprogramDecl(s) => signature_error(m, s),
        Overloaded::Subprogram(s) => signature_error(m, s),
        Overloaded::InterfaceSubprogram(s) => signature_error(m, s),
        Overloaded::EnumLiteral(s) => signature_error(m, s),
        Overloaded::Alias(a) => match inst_error(m, a.0) {
            Some(e) => Some(e),
            None => if !is_overloaded_kind(a.0.kind) {
                Some(InstantiationErrorView::ExpectedOverloaded)
            } else {
                None
            },
        },
    }
}

pub open spec fn signature_error(m: MappingView, s: Signature) -> Option<ErrView>
    decreases s, 0int,
{
    match formals_error_from(m, s.formals.entities@, 0) {
        Some(e) => Some(e),
        None => match s.return_type {
            Some(t) => type_error(m, t),
            None => None,
        },
    }
}

pub open spec fn formals_error_from(m: MappingView, fs: Seq<InterfaceEnt>, j: int) -> Option<ErrView>
    decreases fs, fs.len() - j,
{
    if 0 <= j < fs.len() {
        match inst_error(m, fs[j].0) {
            Some(e) => Some(e),
            None => if !is_interface_kind(fs[j].0.kind) {
                Some(InstantiationErrorView::ExpectedInterface)
            } else {
                formals_error_from(m, fs, j + 1)
            },
        }
    } else {
        None
    }
}

pub open spec fn region_error(m: MappingView, r: Region) -> Option<ErrView>
    decreases r, 0int,
{
    entries_error_from(m, r.entities@, 0)
}

pub open spec fn entries_error_from(
    m: MappingView,
    es: Seq<(Designator, NamedEntities)>,
    j: int,
) -> Option<ErrView>
    decreases es, es.len() - j,
{
    if 0 <= j < es.len() {
        match named_error(m, es[j].1) {
            Some(e) => Some(e),
            None => entries_error_from(m, es, j + 1),
        }
    } else {
        None
    }
}

pub open spec fn named_error(m: MappingView, n: NamedEntities) -> Option<ErrView>
    decreases n, 0int,
{
    match n {
        NamedEntities::Single(e) => inst_error(m, e),
        NamedEntities::Overloaded(o) => overloads_error_from(m, o.entities@, 0),
    }
}

pub open spec fn overloads_error_from(m: MappingView, os: Seq<OverloadedEnt>, j: int) -> Option<ErrView>
    decreases os, os.len() - j,
{
    if 0 <= j < os.len() {
        match inst_error(m, os[j].0) {
            Some(e) => Some(e),
            None => overloads_error_from(m, os, j + 1),
        }
    } else {
        None
    }
}

pub open spec fn type_kind_error(m: MappingView, t: Type) -> Option<ErrView>
    decreases t, 0int,
{
    match t {
        Type::Array { indexes, elem_type } => match indexes_error_from(m, indexes@, 0) {
            Some(e) => Some(e),
            None => type_error(m, elem_type),
        },
        Type::Access(s) => type_error(m, s.type_mark),
        Type::Record(rr) => elems_error_from(m, rr.elems@, 0),
        Type::Subtype(s) => type_error(m, s.type_mark),
        Type::Protected(r, _) => region_error(m, r),
        Type::Alias(a) => type_error(m, a),
        _ => None,
    }
}

pub open spec fn elems_error_from(m: MappingView, es: Seq<RecordElement>, j: int) -> Option<ErrView>
    decreases es, es.len() - j,
{
    if 0 <= j < es.len() {
        match inst_error(m, es[j].0) {
            Some(e) => Some(e),
            None => if !is_record_element_kind(es[j].0.kind) {
                Some(InstantiationErrorView::ExpectedRecordElement)
            } else {
                elems_error_from(m, es, j + 1)
            },
        }
    } else {
        None
    }
}

// ---------------------------------------------------------------------------
// The number of entities that instantiation creates.
// ---------------------------------------------------------------------------

pub open spec fn inst_count(u: EntRef) -> nat
    decreases u, 0int,
{
    1 + kind_count(u.kind) + ents_count_from(u.implicits@, 0)
}

pub open spec fn ents_count_from(s: Seq<EntRef>, j: int) -> nat
    decreases s, s.len() - j,
{
    if 0 <= j < s.len() {
        inst_count(s[j]) + ents_count_from(s, j + 1)
    } else {
        0
    }
}

pub open spec fn kind_count(k: AnyEntKind) -> nat
    decreases k, 0int,
{
    match k {
        AnyEntKind::ObjectAlias { base_object, .. } => inst_count(base_object.0),
        AnyEntKind::Component(r) => region_count(r),
        AnyEntKind::Overloaded(o) => overloaded_count(o),
        AnyEntKind::Type(t) => type_count(t),
        AnyEntKind::Design(Design::PackageInstance(r)) => region_count(r),
        _ => 0,
    }
}

pub open spec fn overloaded_count(o: Overloaded) -> nat
    decreases o, 0int,
{
    match o {
        Overloaded::SubprogramDecl(s) => signature_count(s),
        Overloaded::Subprogram(s) => signature_count(s),
        Overloaded::InterfaceSubprogram(s) => signature_count(s),
        Overloaded::EnumLiteral(s) => signature_count(s),
        Overloaded::Alias(a) => inst_count(a.0),
    }
}

pub open spec fn signature_count(s: Signature) -> nat
    decreases s, 0int,
{
    formals_count_from(s.formals.entities@, 0)
}

pub open spec fn formals_count_from(fs: Seq<InterfaceEnt>, j: int) -> nat
    decreases fs, fs.len() - j,
{
    if 0 <= j < fs.len() {
        inst_count(fs[j].0) + formals_count_from(fs, j + 1)
    } else {
        0
    }
}

pub open spec fn region_count(r: Region) -> nat
    decreases r, 0int,
{
    entries_count_from(r.entities@, 0)
}

pub open spec fn entries_count_from(es: Seq<(Designator, NamedEntities)>, j: int) -> nat
    decreases es, es.len() - j,
{
    if 0 <= j < es.len() {
        named_count(es[j].1) + entries_count_from(es, j + 1)
    } else {
        0
    }
}

pub open spec fn named_count(n: NamedEntities) -> nat
    decreases n, 0int,
{
    match n {
        NamedEntities::Single(e) => inst_count(e),
        NamedEntities::Overloaded(o) => overloads_count_from(o.entities@, 0),
    }
}

pub open spec fn overloads_count_from(os: Seq<OverloadedEnt>, j: int) -> nat
    decreases os, os.len() - j,
{
    if 0 <= j < os.len() {
        inst_count(os[j].0) + overloads_count_from(os, j + 1)
    } else {
        0
    }
}

pub open spec fn type_count(t: Type) -> nat
    decreases t, 0int,
{
    match t {
        Type::Record(rr) => elems_count_from(rr.elems@, 0),
        Type::Protected(r, _) => region_count(r),
        _ => 0,
    }
}

pub open spec fn elems_count_from(es: Seq<RecordElement>, j: int) -> nat
    decreases es, es.len() - j,
{
    if 0 <= j < es.len() {
        inst_count(es[j].0) + elems_count_from(es, j + 1)
    } else {
        0
    }
}

// ---------------------------------------------------------------------------
// The number of entities that instantiation creates before it stops: all of
// them where there is no error; otherwise those created before the first error.
// ---------------------------------------------------------------------------

pub open spec fn inst_used(m: MappingView, u: EntRef) -> nat
    decreases u, 0int,
{
    if kind_error(m, u.kind) is Some {
        kind_used(m, u.kind)
    } else {
        1 + kind_count(u.kind) + ents_used_from(m, u.implicits@, 0)
    }
}

pub open spec fn ents_used_from(m: MappingView, s: Seq<EntRef>, j: int) -> nat
    decreases s, s.len() - j,
{
    if 0 <= j < s.len() {
        if inst_error(m, s[j]) is Some {
            inst_used(m, s[j])
        } else {
            inst_count(s[j]) + ents_used_from(m, s, j + 1)
        }
    } else {
        0
    }
}

pub open spec fn kind_used(m: MappingView, k: AnyEntKind) -> nat
    decreases k, 0int,
{
    match k {
        AnyEntKind::ObjectAlias { base_object, .. } => if inst_error(m, base_object.0) is Some {
            inst_used(m, base_object.0)
        } else {
            inst_count(base_object.0)
        },
        AnyEntKind::Component(r) => region_used(m, r),
        AnyEntKind::Overloaded(o) => overloaded_used(m, o),
        AnyEntKind::Type(t) => type_used(m, t),
        AnyEntKind::Design(Design::PackageInstance(r)) => region_used(m, r),
        _ => 0,
    }
}

pub open spec fn overloaded_used(m: MappingView, o: Overloaded) -> nat
    decreases o, 0int,
{
    match o {
        Overloaded::SubprogramDecl(s) => signature_used(m, s),
        Overloaded::Subprogram(s) => signature_used(m, s),
        Overloaded::InterfaceSubprogram(s) => signature_used(m, s),
        Overloaded::EnumLiteral(s) => signature_used(m, s),
        Overloaded::Alias(a) => if inst_error(m, a.0) is Some {
            inst_used(m, a.0)
        } else {
            inst_count(a.0)
        },
    }
}

pub open spec fn signature_used(m: MappingView, s: Signature) -> nat
    decreases s, 0int,
{
    formals_used_from(m, s.formals.entities@, 0)
}

pub open spec fn formals_used_from(m: MappingView, fs: Seq<InterfaceEnt>, j: int) -> nat
    decreases fs, fs.len() - j,
{
    if 0 <= j < fs.len() {
        if inst_error(m, fs[j].0) is Some {
            inst_used(m, fs[j].0)
        } else if !is_interface_kind(fs[j].0.kind) {
            inst_count(fs[j].0)
        } else {
            inst_count(fs[j].0) + formals_used_from(m, fs, j + 1)
        }
    } else {
        0
    }
}

pub open spec fn region_used(m: MappingView, r: Region) -> nat
    decreases r, 0int,
{
    entries_used_from(m, r.entities@, 0)
}

pub open spec fn entries_used_from(m: MappingView, es: Seq<(Designator, NamedEntities)>, j: int) -> nat
    decreases es, es.len() - j,
{
    if 0 <= j < es.len() {
        if named_error(m, es[j].1) is Some {
            named_used(m, es[j].1)
        } else {
            named_count(es[j].1) + entries_used_from(m, es, j + 1)
        }
    } else {
        0
    }
}

pub open spec fn named_used(m: MappingView, n: NamedEntities) -> nat
    decreases n, 0int,
{
    match n {
        NamedEntities::Single(e) => inst_used(m, e),
        NamedEntities::Overloaded(o) => overloads_used_from(m, o.entities@, 0),
    }
}

pub open spec fn overloads_used_from(m: MappingView, os: Seq<OverloadedEnt>, j: int) -> nat
    decreases os, os.len() - j,
{
    if 0 <= j < os.len() {
        if inst_error(m, os[j].0) is Some {
            inst_used(m, os[j].0)
        } else {
            inst_count(os[j].0) + overloads_used_from(m, os, j + 1)
        }
    } else {
        0
    }
}

pub open spec fn type_used(m: MappingView, t: Type) -> nat
    decreases t, 0int,
{
    match t {
        Type::Record(rr) => elems_used_from(m, rr.elems@, 0),
        Type::Protected(r, _) => region_used(m, r),
        _ => 0,
    }
}

pub open spec fn elems_used_from(m: MappingView, es: Seq<RecordElement>, j: int) -> nat
    decreases es, es.len() - j,
{
    if 0 <= j < es.len() {
        if inst_error(m, es[j].0) is Some {
            inst_used(m, es[j].0)
        } else if !is_record_element_kind(es[j].0.kind) {
            inst_count(es[j].0)
        } else {
            inst_count(es[j].0) + elems_used_from(m, es, j + 1)
        }
    } else {
        0
    }
}

// ---------------------------------------------------------------------------
// What an instance is: the same declaration, related to the uninstantiated one,
// with every type mark mapped and every owned declaration instantiated in turn.
// ---------------------------------------------------------------------------

/// The sequences of `parts`, one after the other.
pub open spec fn joined<A>(parts: Seq<Seq<A>>) -> Seq<A>
    decreases parts.len(),
{
    if parts.len() == 0 {
        Seq::empty()
    } else {
        joined(parts.drop_last()) + parts.last()
    }
}

pub open spec fn inst_rel(m: MappingView, u: EntRef, i: EntRef) -> bool
    decreases u, 0int,
{
    &&& i.designator == u.designator
    &&& i.decl_pos == u.decl_pos
    &&& i.related == Related::InstanceOf(u)
    &&& i.implicits@.len() == u.implicits@.len()
    &&& forall|j: int|
        0 <= j < u.implicits@.len() ==> inst_rel(m, #[trigger] u.implicits@[j], i.implicits@[j])
    &&& kind_rel(m, u.kind, i.kind)
}

pub open spec fn kind_rel(m: MappingView, u: AnyEntKind, i: AnyEntKind) -> bool
    decreases u, 0int,
{
    match u {
        AnyEntKind::ExternalAlias { class, type_mark } => i == AnyEntKind::ExternalAlias {
            class,
            type_mark: mapped_type(m, type_mark),
        },
        AnyEntKind::ObjectAlias { base_object, type_mark } => i matches AnyEntKind::ObjectAlias {
            base_object: b2,
            type_mark: t2,
        } && inst_rel(m, base_object.0, b2.0) && t2 == mapped_type(m, type_mark),
        AnyEntKind::File(s) => i == AnyEntKind::File(mapped_subtype(m, s)),
        AnyEntKind::InterfaceFile(t) => i == AnyEntKind::InterfaceFile(mapped_type(m, t)),
        AnyEntKind::Component(r) => i matches AnyEntKind::Component(r2) && region_rel(m, r, r2),
        AnyEntKind::Attribute(t) => i == AnyEntKind::Attribute(mapped_type(m, t)),
        AnyEntKind::Overloaded(o) => i matches AnyEntKind::Overloaded(o2) && overloaded_rel(m, o, o2),
        AnyEntKind::Type(t) => i matches AnyEntKind::Type(t2) && type_rel(m, t, t2),
        AnyEntKind::ElementDeclaration(s) => i == AnyEntKind::ElementDeclaration(mapped_subtype(m, s)),
        AnyEntKind::Label => i is Label,
        AnyEntKind::Object(o) => i == AnyEntKind::Object(
            Object {
                class: o.class,
                mode: o.mode,
                subtype: mapped_subtype(m, o.subtype),
                has_default: o.has_default,
            },
        ),
        AnyEntKind::LoopParameter(b) => i == AnyEntKind::LoopParameter(mapped_base(m, b)),
        AnyEntKind::PhysicalLiteral(t) => i == AnyEntKind::PhysicalLiteral(mapped_type(m, t)),
        AnyEntKind::DeferredConstant(s) => i == AnyEntKind::DeferredConstant(mapped_subtype(m, s)),
        AnyEntKind::Library => i is Library,
        AnyEntKind::Design(d) => match d {
            Design::PackageInstance(r) => i matches AnyEntKind::Design(Design::PackageInstance(r2))
                && region_rel(m, r, r2),
            _ => false,
        },
    }
}

pub open spec fn overloaded_rel(m: MappingView, u: Overloaded, i: Overloaded) -> bool
    decreases u, 0int,
{
    match u {
        Overloaded::SubprogramDecl(s) => i matches Overloaded::SubprogramDecl(s2) && signature_rel(m, s, s2),
        Overloaded::Subprogram(s) => i matches Overloaded::Subprogram(s2) && signature_rel(m, s, s2),
        Overloaded::InterfaceSubprogram(s) => i matches Overloaded::InterfaceSubprogram(s2)
            && signature_rel(m, s, s2),
        Overloaded::EnumLiteral(s) => i matches Overloaded::EnumLiteral(s2) && signature_rel(m, s, s2),
        Overloaded::Alias(a) => i matches Overloaded::Alias(a2) && inst_rel(m, a.0, a2.0),
    }
}

pub open spec fn mapped_return_type(m: MappingView, t: Option<TypeEnt>) -> Option<TypeEnt> {
    match t {
        Some(t) => Some(mapped_type(m, t)),
        None => None,
    }
}

pub open spec fn signature_rel(m: MappingView, u: Signature, i: Signature) -> bool
    decreases u, 0int,
{
    &&& i.formals.typ == u.formals.typ
    &&& i.formals.entities@.len() == u.formals.entities@.len()
    &&& forall|j: int|
        0 <= j < u.formals.entities@.len() ==> inst_rel(
            m,
            (#[trigger] u.formals.entities@[j]).0,
            i.formals.entities@[j].0,
        )
    &&& i.return_type == mapped_return_type(m, u.return_type)
}

/// The entries of instance region `i` are those that adding, in order, an
/// instance of each declaration of `u` gives.
pub open spec fn region_rel(m: MappingView, u: Region, i: Region) -> bool
    decreases u, 0int,
{
    &&& i.kind == u.kind
    &&& exists|parts: Seq<Seq<EntRef>>|
        #![trigger joined(parts)]
        {
            &&& parts.len() == u.entities@.len()
            &&& forall|j: int|
                0 <= j < u.entities@.len() ==> named_insts(m, (#[trigger] u.entities@[j]).1, parts[j])
            &&& i.entries() == add_all_spec(RegionEntries::empty(), joined(parts))
        }
}

/// `s` holds an instance of each declaration that `n` names, in order.
pub open spec fn named_insts(m: MappingView, n: NamedEntities, s: Seq<EntRef>) -> bool
    decreases n, 0int,
{
    match n {
        NamedEntities::Single(e) => s.len() == 1 && inst_rel(m, e, s[0]),
        NamedEntities::Overloaded(o) => {
            &&& s.len() == o.entities@.len()
            &&& forall|j: int| 0 <= j < o.entities@.len() ==> inst_rel(m, (#[trigger] o.entities@[j]).0, s[j])
        },
    }
}

pub open spec fn type_rel(m: MappingView, u: Type, i: Type) -> bool
    decreases u, 0int,
{
    match u {
        Type::Array { indexes, elem_type } => i matches Type::Array { indexes: ix2, elem_type: e2 } && {
            &&& ix2@.len() == indexes@.len()
            &&& forall|j: int|
                0 <= j < indexes@.len() ==> ix2@[j] == mapped_base(m, #[trigger] indexes@[j])
            &&& e2 == mapped_type(m, elem_type)
        },
        Type::Enum(symbols) => i matches Type::Enum(s2) && s2@ == symbols@,
        Type::Integer => i is Integer,
        Type::Real => i is Real,
        Type::Physical => i is Physical,
        Type::Access(s) => i == Type::Access(mapped_subtype(m, s)),
        Type::Record(rr) => i matches Type::Record(rr2) && {
            &&& rr2.elems@.len() == rr.elems@.len()
            &&& forall|j: int|
                0 <= j < rr.elems@.len() ==> inst_rel(m, (#[trigger] rr.elems@[j]).0, rr2.elems@[j].0)
        },
        Type::Subtype(s) => i == Type::Subtype(mapped_subtype(m, s)),
        Type::Protected(r, _) => i matches Type::Protected(r2, b) && region_rel(m, r, r2)
            && protected_body_contents(b) == Seq::<crate::syntax::SrcPos>::empty(),
        Type::File => i is File,
        Type::Alias(a) => i == Type::Alias(mapped_type(m, a)),
        Type::Universal(ut) => i == Type::Universal(ut),
        Type::Incomplete => i is Incomplete,
        Type::Interface => i is Interface,
    }
}

} // verus!

verus! {

/// The state of analysis that instantiation needs: the arena that gives new
/// entities their identities.
#[derive(Debug)]
pub struct AnalyzeContext {
    pub arena: Arena,
}

/// An instance has the kind of the declaration it instantiates, so it passes the
/// same kind tests.
pub proof fn lemma_kind_rel_same_kind(m: MappingView, u: AnyEntKind, i: AnyEntKind)
    requires
        kind_rel(m, u, i),
    ensures
        is_type_kind(i) == is_type_kind(u),
        is_object_kind(i) == is_object_kind(u),
        is_overloaded_kind(i) == is_overloaded_kind(u),
        is_interface_kind(i) == is_interface_kind(u),
        is_record_element_kind(i) == is_record_element_kind(u),
{
}

fn copy_symbols(symbols: &Vec<Designator>) -> (r: Vec<Designator>)
    ensures
        r@ == symbols@,
{
    let mut r: Vec<Designator> = Vec::new();
    let mut i: usize = 0;
    while i < symbols.len()
        invariant
            i <= symbols@.len(),
            r@ == symbols@.subrange(0, i as int),
        decreases symbols@.len() - i,
    {
        r.push(symbols[i]);
        i += 1;
        assert(r@ =~= symbols@.subrange(0, i as int));
    }
    assert(symbols@.subrange(0, symbols@.len() as int) =~= symbols@);
    r
}

impl AnalyzeContext {
    pub fn new(arena: Arena) -> (c: AnalyzeContext)
        ensures
            c.arena == arena,
    {
        AnalyzeContext { arena }
    }

    /// The type a type mark stands for in the instance.
    fn map_type_ent(&self, mapping: &GenericMapping, typ: &TypeEnt) -> (r: Result<TypeEnt, InstantiationError>)
        ensures
            rv(r) == map_type_spec(mapping@, *typ),
    {
        if let Some(ent) = mapping_get(mapping, typ.id()) {
            if let Some(typ) = TypeEnt::from_any(ent) {
                return Ok(typ);
            } else {
                return Err(InstantiationError::ExpectedType(ent.clone()));
            }
        }
        Ok(typ.duplicate())
    }

    fn map_subtype(&self, mapping: &GenericMapping, subtype: &Subtype) -> (r: Result<Subtype, InstantiationError>)
        ensures
            rv(r) == map_subtype_spec(mapping@, *subtype),
    {
        let Subtype { type_mark } = subtype;
        Ok(Subtype { type_mark: self.map_type_ent(mapping, type_mark)? })
    }

    fn map_object(&self, mapping: &GenericMapping, obj: &Object) -> (r: Result<Object, InstantiationError>)
        ensures
            rv(r) == map_object_spec(mapping@, *obj),
    {
        let Object { class, mode, subtype, has_default } = obj;
        Ok(Object {
            class: *class,
            mode: *mode,
            subtype: self.map_subtype(mapping, subtype)?,
            has_default: *has_default,
        })
    }

    /// The base type of the type that an optional base type stands for in the instance.
    fn map_base(&self, mapping: &GenericMapping, typ: &Option<BaseType>) -> (r: Result<Option<BaseType>, InstantiationError>)
        ensures
            match r {
                Ok(b) => base_error(mapping@, *typ) is None && b == mapped_base(mapping@, *typ),
                Err(e) => base_error(mapping@, *typ) == Some(e@),
            },
    {
        if let Some(typ) = typ {
            Ok(Some(self.map_type_ent(mapping, &typ.0)?.base()))
        } else {
            Ok(None)
        }
    }
}

} // verus!

verus! {

impl AnalyzeContext {
    /// A new entity that instantiates `uninst`: the same designator and position,
    /// related to `uninst` as its instance, of the instantiated kind, with each
    /// implicit declaration of `uninst` instantiated in turn.
    fn instantiate(&mut self, mapping: &GenericMapping, uninst: &EntRef) -> (r: Result<EntRef, InstantiationError>)
        ensures
            old(self).arena.next_id <= final(self).arena.next_id <= old(self).arena.next_id + inst_count(*uninst),
            old(self).arena.next_id + inst_count(*uninst) <= usize::MAX ==> final(self).arena.next_id == old(self).arena.next_id + inst_used(mapping@, *uninst),
            match r {
                Ok(i) => {
                    &&& inst_error(mapping@, *uninst) is None
                    &&& inst_rel(mapping@, *uninst, i)
                    &&& final(self).arena.next_id == old(self).arena.next_id + inst_count(*uninst)
                    &&& i.id == old(self).arena.next_id + kind_count(uninst.kind)
                    &&& old(self).arena.next_id <= i.id < final(self).arena.next_id
                },
                Err(e) => inst_error(mapping@, *uninst) == Some(e@) || (e@ is ArenaExhausted && old(self).arena.next_id + inst_count(*uninst) > usize::MAX),
            },
        decreases uninst, 0int,
    {
        let ghost m = mapping@;
        let ghost s = uninst.implicits@;
        let ghost start = self.arena.next_id;
        let designator = uninst.designator;
        let decl_pos = uninst.decl_pos;
        let kind = self.map_kind(mapping, &uninst.kind)?;
        let ghost kind0 = kind;
        let ghost after_kind = self.arena.next_id;
        let mut inst = match self.arena.allocate(designator, Related::InstanceOf(uninst.clone()), kind, decl_pos) {
            Some(inst) => inst,
            None => {
                return Err(InstantiationError::ArenaExhausted);
            },
        };
        let mut i: usize = 0;
        while i < uninst.implicits.len()
            invariant
                i <= s.len(),
                s == uninst.implicits@,
                m == mapping@,
                kind_error(m, uninst.kind) is None,
                kind_rel(m, uninst.kind, kind0),
                after_kind == start + kind_count(uninst.kind),
                inst_count(*uninst) == 1 + kind_count(uninst.kind) + ents_count_from(s, 0),
                inst.id == after_kind,
                inst.designator == uninst.designator,
                inst.decl_pos == uninst.decl_pos,
                inst.related == Related::InstanceOf(*uninst),
                inst.kind == kind0,
                inst.implicits@.len() == i,
                forall|j: int| 0 <= j < i ==> inst_rel(m, #[trigger] s[j], inst.implicits@[j]),
                ents_error_from(m, s, 0) == ents_error_from(m, s, i as int),
                self.arena.next_id + ents_count_from(s, i as int) == after_kind + 1 + ents_count_from(s, 0),
                self.arena.next_id + ents_used_from(m, s, i as int) == after_kind + 1 + ents_used_from(m, s, 0),
                start == old(self).arena.next_id,
                after_kind + 1 <= self.arena.next_id,
            decreases s.len() - i,
        {
            let implicit = self.instantiate(mapping, &uninst.implicits[i])?;
            inst.implicits.push(implicit);
            i += 1;
        }
        Ok(std::rc::Rc::new(inst))
    }

    /// The kind of the instance of an entity of the given kind.
    fn map_kind(&mut self, mapping: &GenericMapping, kind: &AnyEntKind) -> (r: Result<AnyEntKind, InstantiationError>)
        ensures
            old(self).arena.next_id <= final(self).arena.next_id <= old(self).arena.next_id + kind_count(*kind),
            old(self).arena.next_id + kind_count(*kind) <= usize::MAX ==> final(self).arena.next_id == old(self).arena.next_id + kind_used(mapping@, *kind),
            match r {
                Ok(k) => {
                    &&& kind_error(mapping@, *kind) is None
                    &&& kind_rel(mapping@, *kind, k)
                    &&& final(self).arena.next_id == old(self).arena.next_id + kind_count(*kind)
                },
                Err(e) => kind_error(mapping@, *kind) == Some(e@) || (e@ is ArenaExhausted && old(self).arena.next_id + kind_count(*kind) > usize::MAX),
            },
        decreases kind, 0int,
    {
        Ok(
            match kind {
                AnyEntKind::ExternalAlias { class, type_mark } => AnyEntKind::ExternalAlias {
                    class: *class,
                    type_mark: self.map_type_ent(mapping, type_mark)?,
                },
                AnyEntKind::ObjectAlias { base_object, type_mark } => {
                    let inst = self.instantiate(mapping, &base_object.0)?;
                    let base_object = if let Some(obj) = ObjectEnt::from_any(&inst) {
                        obj
                    } else {
                        proof {
                            let ghost uk = base_object.0.kind;
                            let ghost ik = inst.kind;
                            lemma_kind_rel_same_kind(mapping@, uk, ik);
                        }
                        return Err(InstantiationError::ExpectedObject);
                    };
                    proof {
                        let ghost uk = kind->base_object.0.kind;
                        let ghost ik = inst.kind;
                        lemma_kind_rel_same_kind(mapping@, uk, ik);
                    }
                    AnyEntKind::ObjectAlias {
                        base_object,
                        type_mark: self.map_type_ent(mapping, type_mark)?,
                    }
                },
                AnyEntKind::File(subtype) => AnyEntKind::File(self.map_subtype(mapping, subtype)?),
                AnyEntKind::InterfaceFile(typ) => AnyEntKind::InterfaceFile(self.map_type_ent(mapping, typ)?),
                AnyEntKind::Component(region) => AnyEntKind::Component(self.map_region(mapping, region)?),
                AnyEntKind::Attribute(typ) => AnyEntKind::Attribute(self.map_type_ent(mapping, typ)?),
                AnyEntKind::Overloaded(overloaded) => AnyEntKind::Overloaded(
                    self.map_overloaded(mapping, overloaded)?,
                ),
                AnyEntKind::Type(typ) => AnyEntKind::Type(self.map_type(mapping, typ)?),
                AnyEntKind::ElementDeclaration(subtype) => AnyEntKind::ElementDeclaration(
                    self.map_subtype(mapping, subtype)?,
                ),
                AnyEntKind::Label => AnyEntKind::Label,
                AnyEntKind::Object(obj) => AnyEntKind::Object(self.map_object(mapping, obj)?),
                AnyEntKind::LoopParameter(typ) => AnyEntKind::LoopParameter(self.map_base(mapping, typ)?),
                AnyEntKind::PhysicalLiteral(typ) => AnyEntKind::PhysicalLiteral(self.map_type_ent(mapping, typ)?),
                AnyEntKind::DeferredConstant(subtype) => AnyEntKind::DeferredConstant(
                    self.map_subtype(mapping, subtype)?,
                ),
                AnyEntKind::Library => AnyEntKind::Library,
                AnyEntKind::Design(design) => match design {
                    Design::PackageInstance(region) => AnyEntKind::Design(
                        Design::PackageInstance(self.map_region(mapping, region)?),
                    ),
                    _ => {
                        return Err(InstantiationError::UnexpectedDesign(design.describe()));
                    },
                },
            },
        )
    }

    fn map_overloaded(&mut self, mapping: &GenericMapping, overloaded: &Overloaded) -> (r: Result<Overloaded, InstantiationError>)
        ensures
            old(self).arena.next_id <= final(self).arena.next_id <= old(self).arena.next_id + overloaded_count(*overloaded),
            old(self).arena.next_id + overloaded_count(*overloaded) <= usize::MAX ==> final(self).arena.next_id == old(self).arena.next_id + overloaded_used(mapping@, *overloaded),
            match r {
                Ok(o) => {
                    &&& overloaded_error(mapping@, *overloaded) is None
                    &&& overloaded_rel(mapping@, *overloaded, o)
                    &&& final(self).arena.next_id == old(self).arena.next_id + overloaded_count(*overloaded)
                },
                Err(e) => overloaded_error(mapping@, *overloaded) == Some(e@) || (e@ is ArenaExhausted && old(self).arena.next_id + overloaded_count(*overloaded) > usize::MAX),
            },
        decreases overloaded, 0int,
    {
        Ok(
            match overloaded {
                Overloaded::SubprogramDecl(signature) => Overloaded::SubprogramDecl(
                    self.map_signature(mapping, signature)?,
                ),
                Overloaded::Subprogram(signature) => Overloaded::Subprogram(self.map_signature(mapping, signature)?),
                Overloaded::InterfaceSubprogram(signature) => Overloaded::InterfaceSubprogram(
                    self.map_signature(mapping, signature)?,
                ),
                Overloaded::EnumLiteral(signature) => Overloaded::EnumLiteral(self.map_signature(mapping, signature)?),
                Overloaded::Alias(alias) => {
                    let alias_inst = self.instantiate(mapping, &alias.0)?;
                    proof {
                        let ghost uk = alias.0.kind;
                        let ghost ik = alias_inst.kind;
                        lemma_kind_rel_same_kind(mapping@, uk, ik);
                    }
                    if let Ok(overloaded) = OverloadedEnt::from_any(&alias_inst) {
                        Overloaded::Alias(overloaded)
                    } else {
                        return Err(InstantiationError::ExpectedOverloaded);
                    }
                },
            },
        )
    }

    fn map_signature(&mut self, mapping: &GenericMapping, signature: &Signature) -> (r: Result<Signature, InstantiationError>)
        ensures
            old(self).arena.next_id <= final(self).arena.next_id <= old(self).arena.next_id + signature_count(*signature),
            old(self).arena.next_id + signature_count(*signature) <= usize::MAX ==> final(self).arena.next_id == old(self).arena.next_id + signature_used(mapping@, *signature),
            match r {
                Ok(s) => {
                    &&& signature_error(mapping@, *signature) is None
                    &&& signature_rel(mapping@, *signature, s)
                    &&& final(self).arena.next_id == old(self).arena.next_id + signature_count(*signature)
                },
                Err(e) => signature_error(mapping@, *signature) == Some(e@) || (e@ is ArenaExhausted && old(self).arena.next_id + signature_count(*signature) > usize::MAX),
            },
        decreases signature, 0int,
    {
        let ghost m = mapping@;
        let ghost fs = signature.formals.entities@;
        let ghost start = self.arena.next_id;
        let uninst_entities = &signature.formals.entities;
        let mut inst_entities: Vec<InterfaceEnt> = Vec::new();
        let mut i: usize = 0;
        while i < uninst_entities.len()
            invariant
                i <= fs.len(),
                fs == uninst_entities@,
                fs == signature.formals.entities@,
                m == mapping@,
                signature_count(*signature) == formals_count_from(fs, 0),
                inst_entities@.len() == i,
                forall|j: int| 0 <= j < i ==> inst_rel(m, (#[trigger] fs[j]).0, inst_entities@[j].0),
                formals_error_from(m, fs, 0) == formals_error_from(m, fs, i as int),
                self.arena.next_id + formals_count_from(fs, i as int) == start + formals_count_from(fs, 0),
                self.arena.next_id + formals_used_from(m, fs, i as int) == start + formals_used_from(m, fs, 0),
                start == old(self).arena.next_id,
                start <= self.arena.next_id,
            decreases fs.len() - i,
        {
            let inst = self.instantiate(mapping, &uninst_entities[i].0)?;
            proof {
                let ghost uk = fs[i as int].0.kind;
                let ghost ik = inst.kind;
                lemma_kind_rel_same_kind(m, uk, ik);
            }
            if let Some(inst) = InterfaceEnt::from_any(&inst) {
                inst_entities.push(inst);
            } else {
                return Err(InstantiationError::ExpectedInterface);
            }
            i += 1;
        }
        let return_type = if let Some(return_type) = &signature.return_type {
            Some(self.map_type_ent(mapping, return_type)?)
        } else {
            None
        };
        Ok(Signature {
            formals: FormalRegion { typ: signature.formals.typ, entities: inst_entities },
            return_type,
        })
    }

    /// Adds to `inst_region` an instance of each declaration that `named` names, in order.
    fn add_named(&mut self, mapping: &GenericMapping, named: &NamedEntities, inst_region: &mut Region) -> (r:
        Result<(), InstantiationError>)
        ensures
            old(self).arena.next_id <= final(self).arena.next_id <= old(self).arena.next_id + named_count(*named),
            old(self).arena.next_id + named_count(*named) <= usize::MAX ==> final(self).arena.next_id == old(self).arena.next_id + named_used(mapping@, *named),
            final(inst_region).kind == old(inst_region).kind,
            match r {
                Ok(_) => {
                    &&& named_error(mapping@, *named) is None
                    &&& exists|s: Seq<EntRef>|
                        #![trigger add_all_spec(old(inst_region).entries(), s)]
                        named_insts(mapping@, *named, s) && final(inst_region).entries() == add_all_spec(
                            old(inst_region).entries(),
                            s,
                        )
                    &&& final(self).arena.next_id == old(self).arena.next_id + named_count(*named)
                },
                Err(e) => named_error(mapping@, *named) == Some(e@) || (e@ is ArenaExhausted && old(self).arena.next_id + named_count(*named) > usize::MAX),
            },
        decreases named, 0int,
    {
        let ghost before = inst_region.entries();
        match named {
            NamedEntities::Single(uninst) => {
                let inst = self.instantiate(mapping, uninst)?;
                inst_region.add(inst);
                proof {
                    let s = seq![inst];
                    assert(s.drop_last() =~= Seq::<EntRef>::empty());
                    assert(s.last() == inst);
                    assert(add_all_spec(before, Seq::<EntRef>::empty()) == before);
                    assert(named_insts(mapping@, *named, s));
                    assert(inst_region.entries() == add_all_spec(before, s));
                }
                Ok(())
            },
            NamedEntities::Overloaded(overloaded) => {
                let ghost m = mapping@;
                let ghost os = overloaded.entities@;
                let ghost start = self.arena.next_id;
                let ghost mut insts: Seq<EntRef> = Seq::empty();
                let uninsts = &overloaded.entities;
                let mut i: usize = 0;
                while i < uninsts.len()
                    invariant
                        i <= os.len(),
                        os == uninsts@,
                        os == overloaded.entities@,
                        m == mapping@,
                        named_count(*named) == overloads_count_from(os, 0),
                        insts.len() == i,
                        forall|j: int| 0 <= j < i ==> inst_rel(m, (#[trigger] os[j]).0, insts[j]),
                        inst_region.kind == old(inst_region).kind,
                        before == old(inst_region).entries(),
                        inst_region.entries() == add_all_spec(before, insts),
                        overloads_error_from(m, os, 0) == overloads_error_from(m, os, i as int),
                        self.arena.next_id + overloads_count_from(os, i as int) == start + overloads_count_from(os, 0),
                        self.arena.next_id + overloads_used_from(m, os, i as int) == start + overloads_used_from(m, os, 0),
                        start == old(self).arena.next_id,
                        start <= self.arena.next_id,
                        *named == NamedEntities::Overloaded(*overloaded),
                    decreases os.len() - i,
                {
                    let inst = self.instantiate(mapping, &uninsts[i].0)?;
                    inst_region.add(inst);
                    proof {
                        let prev = insts;
                        insts = insts.push(inst);
                        assert(insts.drop_last() =~= prev);
                    }
                    i += 1;
                }
                assert(named_insts(m, *named, insts));
                Ok(())
            },
        }
    }

    /// The instance of a region: a region of the same kind, to which an instance
    /// of each of its declarations is added in order.
    fn map_region(&mut self, mapping: &GenericMapping, region: &Region) -> (r: Result<Region, InstantiationError>)
        ensures
            old(self).arena.next_id <= final(self).arena.next_id <= old(self).arena.next_id + region_count(*region),
            old(self).arena.next_id + region_count(*region) <= usize::MAX ==> final(self).arena.next_id == old(self).arena.next_id + region_used(mapping@, *region),
            match r {
                Ok(i) => {
                    &&& region_error(mapping@, *region) is None
                    &&& region_rel(mapping@, *region, i)
                    &&& final(self).arena.next_id == old(self).arena.next_id + region_count(*region)
                },
                Err(e) => region_error(mapping@, *region) == Some(e@) || (e@ is ArenaExhausted && old(self).arena.next_id + region_count(*region) > usize::MAX),
            },
        decreases region, 0int,
    {
        let ghost m = mapping@;
        let ghost es = region.entities@;
        let ghost start = self.arena.next_id;
        let ghost mut parts: Seq<Seq<EntRef>> = Seq::empty();
        let uninst_entities = &region.entities;
        let mut inst_region = Region::with_kind(region.kind);
        let mut i: usize = 0;
        while i < uninst_entities.len()
            invariant
                i <= es.len(),
                es == uninst_entities@,
                es == region.entities@,
                m == mapping@,
                region_count(*region) == entries_count_from(es, 0),
                parts.len() == i,
                forall|j: int| 0 <= j < i ==> named_insts(m, (#[trigger] es[j]).1, parts[j]),
                inst_region.kind == region.kind,
                inst_region.entries() == add_all_spec(RegionEntries::empty(), joined(parts)),
                entries_error_from(m, es, 0) == entries_error_from(m, es, i as int),
                self.arena.next_id + entries_count_from(es, i as int) == start + entries_count_from(es, 0),
                self.arena.next_id + entries_used_from(m, es, i as int) == start + entries_used_from(m, es, 0),
                start == old(self).arena.next_id,
                start <= self.arena.next_id,
            decreases es.len() - i,
        {
            let ghost before = inst_region.entries();
            self.add_named(mapping, &uninst_entities[i].1, &mut inst_region)?;
            proof {
                let s = choose|s: Seq<EntRef>|
                    named_insts(m, es[i as int].1, s) && inst_region.entries() == add_all_spec(before, s);
                lemma_add_all_concat(RegionEntries::empty(), joined(parts), s);
                let prev = parts;
                parts = parts.push(s);
                assert(parts.drop_last() =~= prev);
                assert(joined(parts) == joined(prev) + s);
            }
            i += 1;
        }
        assert(region_rel(m, *region, inst_region));
        Ok(inst_region)
    }

    fn map_type(&mut self, mapping: &GenericMapping, typ: &Type) -> (r: Result<Type, InstantiationError>)
        ensures
            old(self).arena.next_id <= final(self).arena.next_id <= old(self).arena.next_id + type_count(*typ),
            old(self).arena.next_id + type_count(*typ) <= usize::MAX ==> final(self).arena.next_id == old(self).arena.next_id + type_used(mapping@, *typ),
            match r {
                Ok(t) => {
                    &&& type_kind_error(mapping@, *typ) is None
                    &&& type_rel(mapping@, *typ, t)
                    &&& final(self).arena.next_id == old(self).arena.next_id + type_count(*typ)
                },
                Err(e) => type_kind_error(mapping@, *typ) == Some(e@) || (e@ is ArenaExhausted && old(self).arena.next_id + type_count(*typ) > usize::MAX),
            },
        decreases typ, 0int,
    {
        let ghost m = mapping@;
        Ok(
            match typ {
                Type::Array { indexes, elem_type } => {
                    let ghost xs = indexes@;
                    let mut mapped_indexes: Vec<Option<BaseType>> = Vec::new();
                    let mut i: usize = 0;
                    while i < indexes.len()
                        invariant
                            i <= xs.len(),
                            xs == indexes@,
                            m == mapping@,
                            mapped_indexes@.len() == i,
                            forall|j: int| 0 <= j < i ==> mapped_indexes@[j] == mapped_base(m, #[trigger] xs[j]),
                            indexes_error_from(m, xs, 0) == indexes_error_from(m, xs, i as int),
                            *typ == (Type::Array { indexes: *indexes, elem_type: *elem_type }),
                            self.arena.next_id == old(self).arena.next_id,
                        decreases xs.len() - i,
                    {
                        mapped_indexes.push(self.map_base(mapping, &indexes[i])?);
                        i += 1;
                    }
                    Type::Array { indexes: mapped_indexes, elem_type: self.map_type_ent(mapping, elem_type)? }
                },
                Type::Enum(symbols) => Type::Enum(copy_symbols(symbols)),
                Type::Integer => Type::Integer,
                Type::Real => Type::Real,
                Type::Physical => Type::Physical,
                Type::Access(subtype) => Type::Access(self.map_subtype(mapping, subtype)?),
                Type::Record(region) => {
                    let ghost es = region.elems@;
                    let ghost start = self.arena.next_id;
                    let mut elems: Vec<RecordElement> = Vec::new();
                    let mut i: usize = 0;
                    while i < region.elems.len()
                        invariant
                            i <= es.len(),
                            es == region.elems@,
                            m == mapping@,
                            type_count(*typ) == elems_count_from(es, 0),
                            elems@.len() == i,
                            forall|j: int| 0 <= j < i ==> inst_rel(m, (#[trigger] es[j]).0, elems@[j].0),
                            elems_error_from(m, es, 0) == elems_error_from(m, es, i as int),
                            self.arena.next_id + elems_count_from(es, i as int) == start + elems_count_from(es, 0),
                            self.arena.next_id + elems_used_from(m, es, i as int) == start + elems_used_from(m, es, 0),
                            start == old(self).arena.next_id,
                            start <= self.arena.next_id,
                            *typ == Type::Record(*region),
                        decreases es.len() - i,
                    {
                        let inst = self.instantiate(mapping, &region.elems[i].0)?;
                        proof {
                            let ghost uk = es[i as int].0.kind;
                            let ghost ik = inst.kind;
                            lemma_kind_rel_same_kind(m, uk, ik);
                        }
                        if let Some(inst) = RecordElement::from_any(&inst) {
                            elems.push(inst);
                        } else {
                            return Err(InstantiationError::ExpectedRecordElement);
                        }
                        i += 1;
                    }
                    Type::Record(RecordRegion { elems })
                },
                Type::Subtype(subtype) => Type::Subtype(self.map_subtype(mapping, subtype)?),
                Type::Protected(region, _) => Type::Protected(self.map_region(mapping, region)?, empty_protected_body()),
                Type::File => Type::File,
                Type::Alias(typ) => Type::Alias(self.map_type_ent(mapping, typ)?),
                Type::Universal(utyp) => Type::Universal(*utyp),
                Type::Incomplete => Type::Incomplete,
                Type::Interface => Type::Interface,
            },
        )
    }
}

} // verus!

verus! {

/// What the rest of analysis does for instantiation: resolving the name of the
/// uninstantiated package, and resolving and checking the actuals of a generic
/// map, each in the scope of the instantiation.
pub trait Resolver {
    /// The declarations of the uninstantiated package that `package_name` names.
    fn analyze_package_instance_name(&mut self, package_name: &mut WithPos<Name>) -> Result<Region, AnalysisError>;

    /// The type that `name`, written at `pos`, names.
    fn resolve_type_name(&mut self, pos: &SrcPos, name: &mut Name, diagnostics: &mut Vec<Diagnostic>) -> Result<TypeEnt, EvalError>;

    /// Checks `expr`, written at `pos`, as an expression of type `ttyp`.
    fn expr_pos_with_ttyp(
        &mut self,
        ttyp: &TypeEnt,
        pos: &SrcPos,
        expr: &mut Expression,
        diagnostics: &mut Vec<Diagnostic>,
    ) -> Result<(), EvalError>;

    /// Resolves `name`, written at `pos`.
    fn name_resolve(&mut self, pos: &SrcPos, name: &mut Name, diagnostics: &mut Vec<Diagnostic>) -> Result<(), EvalError>;
}

/// The number of entities that instantiating the declarations from index `j` on creates.
pub open spec fn decls_count_from(us: Seq<EntRef>, j: int) -> nat
    decreases us.len() - j,
{
    if 0 <= j < us.len() {
        inst_count(us[j]) + decls_count_from(us, j + 1)
    } else {
        0
    }
}

/// The number of identities that instantiating the declarations from index `j`
/// on hands out: all that each needs where it can be instantiated, and those
/// handed out before its first error where it cannot.
pub open spec fn decls_used_from(m: MappingView, us: Seq<EntRef>, j: int) -> nat
    decreases us.len() - j,
{
    if 0 <= j < us.len() {
        (if inst_error(m, us[j]) is None {
            inst_count(us[j])
        } else {
            inst_used(m, us[j])
        }) + decls_used_from(m, us, j + 1)
    } else {
        0
    }
}

/// The identities of `insts` are new ones, from `lo` up to `hi`, increasing in order.
pub open spec fn fresh_ids(insts: Seq<EntRef>, lo: int, hi: int) -> bool {
    &&& forall|k: int| 0 <= k < insts.len() ==> lo <= (#[trigger] insts[k]).id < hi
    &&& forall|k: int, l: int| 0 <= k < l < insts.len() ==> (#[trigger] insts[k]).id < (#[trigger] insts[l]).id
}

/// The declarations that can be instantiated, in order.
pub open spec fn succeeded(m: MappingView, us: Seq<EntRef>) -> Seq<EntRef>
    decreases us.len(),
{
    if us.len() == 0 {
        Seq::empty()
    } else if inst_error(m, us.last()) is None {
        succeeded(m, us.drop_last()).push(us.last())
    } else {
        succeeded(m, us.drop_last())
    }
}

/// The declarations that cannot be instantiated, in order.
pub open spec fn failed(m: MappingView, us: Seq<EntRef>) -> Seq<EntRef>
    decreases us.len(),
{
    if us.len() == 0 {
        Seq::empty()
    } else if inst_error(m, us.last()) is None {
        failed(m, us.drop_last())
    } else {
        failed(m, us.drop_last()).push(us.last())
    }
}

/// `is` holds an instance of each of `us`, in order.
pub open spec fn instances_of(m: MappingView, us: Seq<EntRef>, is: Seq<EntRef>) -> bool {
    &&& is.len() == us.len()
    &&& forall|k: int| 0 <= k < us.len() ==> inst_rel(m, #[trigger] us[k], is[k])
}

/// `d` reports, at `pos`, that `u` cannot be instantiated, and why; with the
/// position of `u`'s declaration, where it has one.
pub open spec fn reports_failure(d: Diagnostic, pos: SrcPos, m: MappingView, u: EntRef) -> bool {
    &&& d.pos == pos
    &&& d.message matches Message::Instantiation(e) && inst_error(m, u) == Some(e@)
    &&& match u.decl_pos {
        Some(p) => d.related@.len() == 1 && d.related@[0].0 == p && d.related@[0].1@
            == "When instantiating this declaration"@,
        None => d.related@.len() == 0,
    }
}

/// The declarations of a package other than its generics.
pub open spec fn package_others(pkg: Region) -> Seq<EntRef> {
    others_of(declarations(pkg.entries()))
}

/// The generics of a package.
pub open spec fn package_generics(pkg: Region) -> Seq<GpkgInterfaceEnt> {
    generics_of(declarations(pkg.entries()))
}

/// The position among `generics` of the generic that `assoc`, the element at
/// position `idx` of a generic map, is associated with: the first one that its
/// formal names, or the one at `idx` where it has no formal; -1 where there is none.
pub open spec fn formal_index(generics: Seq<GpkgInterfaceEnt>, assoc: AssociationElement, idx: int) -> int {
    match assoc.formal {
        Some(f) => match f.item {
            Name::Designator(des) => generic_index(generics, des.item),
            _ => -1,
        },
        None => if 0 <= idx < generics.len() {
            idx
        } else {
            -1
        },
    }
}

/// What analysis asks the resolver about an element of a generic map.
pub ghost enum ResolverQuery {
    /// The type that a name, written at a position, denotes.
    TypeName(SrcPos, Name),
    /// Whether an expression, written at a position, can have a type.
    Expression(TypeEnt, SrcPos, Expression),
    /// What a name, written at a position, denotes.
    Name(SrcPos, Name),
    /// The resolver is not asked.
    Nothing,
}

/// What the resolver was asked about an element of a generic map and what it
/// answered: the type it gave, for a type name; the error it gave; and the
/// diagnostics it reported.
pub ghost struct ResolverAnswer {
    pub query: ResolverQuery,
    pub typ: Option<EntRef>,
    pub error: Option<EvalError>,
    pub reported: Seq<Diagnostic>,
}

/// The type mark of a constant generic.
pub open spec fn object_type_mark(o: ObjectEnt) -> TypeEnt {
    match o.0.kind {
        AnyEntKind::Object(obj) => obj.subtype.type_mark,
        _ => vstd::pervasive::arbitrary(),
    }
}

/// The type name that an actual `n`, written at `pos`, gives for a type
/// generic: the prefix of a slice, or the called name where the parameters
/// could be indexes, their constraint being left out; otherwise the name itself.
pub open spec fn type_name_query(n: Name, pos: SrcPos) -> ResolverQuery {
    match n {
        Name::Slice(prefix) => ResolverQuery::TypeName(prefix.pos, prefix.item),
        Name::CallOrIndexed(call) => if could_be_indexed_spec(call.parameters@) {
            ResolverQuery::TypeName(call.name.pos, call.name.item)
        } else {
            ResolverQuery::TypeName(pos, n)
        },
        _ => ResolverQuery::TypeName(pos, n),
    }
}

/// What the resolver is asked about `assoc`, the element at position `idx` of a
/// generic map: for a type generic, the type its name actual denotes; for a
/// constant generic, whether its expression can have the constant's type; for
/// a subprogram or package generic, what its name actual denotes.
pub open spec fn expected_query(generics: Seq<GpkgInterfaceEnt>, assoc: AssociationElement, idx: int) -> ResolverQuery {
    let f = formal_index(generics, assoc, idx);
    if 0 <= f < generics.len() {
        match assoc.actual.item {
            ActualPart::Expression(e) => match generics[f] {
                GpkgInterfaceEnt::Type(_) => match e {
                    Expression::Name(n) => type_name_query(*n, assoc.actual.pos),
                    _ => ResolverQuery::Nothing,
                },
                GpkgInterfaceEnt::Constant(o) => ResolverQuery::Expression(object_type_mark(o), assoc.actual.pos, e),
                _ => match e {
                    Expression::Name(n) => ResolverQuery::Name(assoc.actual.pos, *n),
                    _ => ResolverQuery::Nothing,
                },
            },
            ActualPart::Open => ResolverQuery::Nothing,
        }
    } else {
        ResolverQuery::Nothing
    }
}

/// `a` answers what the resolver is asked about `assoc`; a type name that it
/// resolves gives a type.
pub open spec fn answers_query(generics: Seq<GpkgInterfaceEnt>, assoc: AssociationElement, idx: int, a: ResolverAnswer) -> bool {
    &&& a.query == expected_query(generics, assoc, idx)
    &&& (a.query is TypeName && a.error is None) ==> a.typ is Some
    &&& a.query is Nothing ==> (a.error is None && a.reported.len() == 0)
}

/// `d` is an error with message `text` at `pos`.
pub open spec fn text_error(d: Diagnostic, pos: SrcPos, text: Seq<char>) -> bool {
    &&& d.pos == pos
    &&& d.related@.len() == 0
    &&& d.message matches Message::Text(s) && s@ == text
}

/// `d` reports that `assoc`, the element at position `idx` of a generic map, is
/// associated with no generic.
pub open spec fn formal_report(generics: Seq<GpkgInterfaceEnt>, assoc: AssociationElement, idx: int, d: Diagnostic) -> bool {
    match assoc.formal {
        Some(f) => match f.item {
            Name::Designator(des) => {
                &&& d.pos == f.pos
                &&& d.related@.len() == 0
                &&& d.message == (Message::NoDeclaration { designator: des.item })
            },
            _ => text_error(d, f.pos, "Expected simple name for package generic formal"@),
        },
        None => text_error(d, assoc.actual.pos, "Extra actual for generic map"@),
    }
}

/// `added` is what analysis of `assoc`, the element at position `idx` of a
/// generic map, reports, given the resolver's answer `a`.
pub open spec fn assoc_reports(
    generics: Seq<GpkgInterfaceEnt>,
    assoc: AssociationElement,
    idx: int,
    a: ResolverAnswer,
    added: Seq<Diagnostic>,
) -> bool {
    let f = formal_index(generics, assoc, idx);
    let pos = assoc.actual.pos;
    if !(0 <= f < generics.len()) {
        added.len() == 1 && formal_report(generics, assoc, idx, added[0])
    } else if !(expected_query(generics, assoc, idx) is Nothing) {
        added == a.reported
    } else {
        match assoc.actual.item {
            ActualPart::Open => added.len() == 0,
            ActualPart::Expression(e) => match generics[f] {
                GpkgInterfaceEnt::Type(_) => added.len() == 1 && text_error(
                    added[0],
                    pos,
                    "Cannot map expression to type generic"@,
                ),
                GpkgInterfaceEnt::Subprogram(_) => match e {
                    Expression::Literal(Literal::String(s)) => if exists|op: Operator| op.symbol() == lowercase(s.bytes@) {
                        added.len() == 0
                    } else {
                        added.len() == 1 && text_error(added[0], pos, "Invalid operator symbol"@)
                    },
                    _ => added.len() == 1 && text_error(added[0], pos, "Cannot map expression to subprogram generic"@),
                },
                GpkgInterfaceEnt::Package(_) => added.len() == 1 && text_error(
                    added[0],
                    pos,
                    "Cannot map expression to package generic"@,
                ),
                GpkgInterfaceEnt::Constant(_) => added.len() == 0,
            },
        }
    }
}

/// The mapping `m` after `assoc`, the element at position `idx` of a generic
/// map, given the resolver's answer `a`: a type generic is mapped to the type
/// that its name actual denotes.
pub open spec fn assoc_mapping(
    generics: Seq<GpkgInterfaceEnt>,
    assoc: AssociationElement,
    idx: int,
    a: ResolverAnswer,
    m: MappingView,
) -> MappingView {
    let f = formal_index(generics, assoc, idx);
    if expected_query(generics, assoc, idx) is TypeName && a.error is None && a.typ is Some {
        m.insert(generics[f].ent_spec().id, a.typ->0)
    } else {
        m
    }
}

/// The error with which analysis stops at `assoc`, given the resolver's answer
/// `a`: an error in resolving a type or an expression, or a fatal one in
/// resolving a name.
pub open spec fn assoc_error(generics: Seq<GpkgInterfaceEnt>, assoc: AssociationElement, idx: int, a: ResolverAnswer) -> Option<EvalError> {
    match expected_query(generics, assoc, idx) {
        ResolverQuery::Nothing => None,
        ResolverQuery::Name(_, _) => if a.error == Some(EvalError::FatalError) {
            Some(EvalError::FatalError)
        } else {
            None
        },
        _ => a.error,
    }
}

/// The formal of `assoc` after analysis: a simple name that names a generic
/// refers to it.
pub open spec fn resolved_formal(generics: Seq<GpkgInterfaceEnt>, assoc: AssociationElement) -> Option<WithPos<Name>> {
    match assoc.formal {
        Some(f) => match f.item {
            Name::Designator(des) => {
                let k = generic_index(generics, des.item);
                if k >= 0 {
                    Some(
                        WithPos {
                            item: Name::Designator(WithRef { item: des.item, reference: Some(generics[k].ent_spec().id) }),
                            pos: f.pos,
                        },
                    )
                } else {
                    assoc.formal
                }
            },
            _ => assoc.formal,
        },
        None => None,
    }
}

/// `after` is `assoc`, the element at position `idx` of a generic map, after
/// analysis: its formal refers to its generic, the position of its actual
/// stays, and an actual that the resolver is not asked about stays as it is.
pub open spec fn assoc_after(generics: Seq<GpkgInterfaceEnt>, assoc: AssociationElement, idx: int, after: AssociationElement) -> bool {
    &&& after.formal == resolved_formal(generics, assoc)
    &&& after.actual.pos == assoc.actual.pos
    &&& expected_query(generics, assoc, idx) is Nothing ==> after.actual.item == assoc.actual.item
}

/// The mapping after the first `j` elements of the generic map `gm`, given the
/// resolver's answers; the error at which analysis stopped; and the number of
/// elements analysed.
pub open spec fn run_state(
    generics: Seq<GpkgInterfaceEnt>,
    gm: Seq<AssociationElement>,
    answers: Seq<ResolverAnswer>,
    j: int,
) -> (MappingView, Option<EvalError>, int)
    decreases j,
{
    if j <= 0 {
        (Map::<EntityId, EntRef>::empty(), None, 0)
    } else {
        let p = run_state(generics, gm, answers, j - 1);
        if p.1 is Some {
            p
        } else {
            let i = j - 1;
            (assoc_mapping(generics, gm[i], i, answers[i], p.0), assoc_error(generics, gm[i], i, answers[i]), j)
        }
    }
}

/// The result of analysing the whole generic map `gm`, given the resolver's answers.
pub open spec fn run_result(
    generics: Seq<GpkgInterfaceEnt>,
    gm: Seq<AssociationElement>,
    answers: Seq<ResolverAnswer>,
) -> Result<MappingView, EvalError> {
    let s = run_state(generics, gm, answers, gm.len() as int);
    match s.1 {
        Some(e) => Err(e),
        None => Ok(s.0),
    }
}

/// Analysing the generic map `gm` with the resolver answering `answers` gives
/// result `r`, takes the diagnostics from `before` to `after`, the record of
/// what the resolver was asked from `log_before` to `log_after`, and leaves the
/// generic map as `gm_after`: each element up to the one at which analysis
/// stops is analysed in order, with its reports added in turn; the others are
/// left alone.
pub open spec fn generic_map_run(
    generics: Seq<GpkgInterfaceEnt>,
    gm: Seq<AssociationElement>,
    answers: Seq<ResolverAnswer>,
    parts: Seq<Seq<Diagnostic>>,
    before: Seq<Diagnostic>,
    after: Seq<Diagnostic>,
    gm_after: Seq<AssociationElement>,
    log_before: Seq<ResolverAnswer>,
    log_after: Seq<ResolverAnswer>,
    r: Result<MappingView, EvalError>,
) -> bool {
    let n = run_state(generics, gm, answers, gm.len() as int).2;
    &&& answers.len() == gm.len()
    &&& log_after == log_before + asked(answers, n)
    &&& parts.len() == n
    &&& forall|i: int|
        0 <= i < n ==> answers_query(generics, gm[i], i, #[trigger] answers[i]) && assoc_reports(
            generics,
            gm[i],
            i,
            answers[i],
            parts[i],
        )
    &&& after == before + joined(parts)
    &&& gm_after.len() == gm.len()
    &&& forall|i: int| 0 <= i < n ==> assoc_after(generics, gm[i], i, #[trigger] gm_after[i])
    &&& forall|i: int| n <= i < gm.len() ==> #[trigger] gm_after[i] == gm[i]
    &&& r == run_result(generics, gm, answers)
}

/// The questions that analysis of the first `n` elements of a generic map asks
/// the resolver, in order, with their answers.
pub open spec fn asked(answers: Seq<ResolverAnswer>, n: int) -> Seq<ResolverAnswer>
    decreases n,
{
    if n <= 0 {
        Seq::empty()
    } else {
        asked(answers, n - 1) + asked_about(answers[n - 1])
    }
}

proof fn lemma_asked_prefix(a1: Seq<ResolverAnswer>, a2: Seq<ResolverAnswer>, j: int)
    requires
        forall|i: int| 0 <= i < j ==> a1[i] == a2[i],
    ensures
        asked(a1, j) == asked(a2, j),
    decreases j,
{
    if j > 0 {
        lemma_asked_prefix(a1, a2, j - 1);
    }
}

/// The mapping as a result, by its view.
pub open spec fn mapping_result(r: Result<GenericMapping, EvalError>) -> Result<MappingView, EvalError> {
    match r {
        Ok(m) => Ok(m@),
        Err(e) => Err(e),
    }
}

proof fn lemma_run_prefix(
    generics: Seq<GpkgInterfaceEnt>,
    gm: Seq<AssociationElement>,
    a1: Seq<ResolverAnswer>,
    a2: Seq<ResolverAnswer>,
    j: int,
)
    requires
        forall|i: int| 0 <= i < j ==> a1[i] == a2[i],
    ensures
        run_state(generics, gm, a1, j) == run_state(generics, gm, a2, j),
    decreases j,
{
    if j > 0 {
        lemma_run_prefix(generics, gm, a1, a2, j - 1);
    }
}

proof fn lemma_run_stops(generics: Seq<GpkgInterfaceEnt>, gm: Seq<AssociationElement>, answers: Seq<ResolverAnswer>, i: int, j: int)
    requires
        0 <= i <= j,
        run_state(generics, gm, answers, i).1 is Some,
    ensures
        run_state(generics, gm, answers, j) == run_state(generics, gm, answers, i),
    decreases j - i,
{
    if j > i {
        lemma_run_stops(generics, gm, answers, i, j - 1);
    }
}

/// The generic that `assoc`, the element at position `idx` of a generic map, is
/// associated with, with its position among the generics: the one its formal
/// names, which the formal then refers to, or the one at `idx` where it has no
/// formal. Where there is none, the error to report.
fn resolve_formal(generics: &GpkgRegion, assoc: &mut AssociationElement, idx: usize) -> (r: Result<
    (usize, GpkgInterfaceEnt),
    Diagnostic,
>)
    ensures
        final(assoc).actual == old(assoc).actual,
        r matches Ok((i, g)) ==> i < generics.entities@.len() && g == generics.entities@[i as int],
        r matches Ok((i, _)) ==> i == formal_index(generics.entities@, *old(assoc), idx as int),
        r is Err ==> formal_index(generics.entities@, *old(assoc), idx as int) < 0,
        r is Err ==> final(assoc).formal == old(assoc).formal,
        final(assoc).formal == resolved_formal(generics.entities@, *old(assoc)),
        r matches Err(d) ==> d.related@.len() == 0,
        match old(assoc).formal {
            Some(f) => match f.item {
                Name::Designator(des) => {
                    let k = generic_index(generics.entities@, des.item);
                    &&& k >= 0 ==> {
                        &&& r matches Ok((i, _)) && i == k
                        &&& final(assoc).formal matches Some(ff) && ff.pos == f.pos && (ff.item matches Name::Designator(
                            d2,
                        ) && d2.item == des.item && d2.reference == Some(generics.entities@[k].ent_spec().id))
                    }
                    &&& k < 0 ==> (r matches Err(d) && d.pos == f.pos && d.message == (
                    Message::NoDeclaration { designator: des.item }))
                },
                _ => r matches Err(d) && d.pos == f.pos && (d.message matches Message::Text(s) && s@
                    == "Expected simple name for package generic formal"@),
            },
            None => {
                &&& final(assoc).formal is None
                &&& idx < generics.entities@.len() ==> (r matches Ok((i, _)) && i == idx)
                &&& idx >= generics.entities@.len() ==> (r matches Err(d) && d.pos == old(assoc).actual.pos
                    && (d.message matches Message::Text(s) && s@ == "Extra actual for generic map"@))
            },
        },
{
    if let Some(formal) = &mut assoc.formal {
        if let Name::Designator(des) = &mut formal.item {
            proof {
                lemma_generic_index(generics.entities@, des.item);
            }
            match generics.lookup(&formal.pos, &des.item) {
                Ok((i, ent)) => {
                    des.set_unique_reference(ent.ent());
                    Ok((i, ent))
                },
                Err(err) => Err(err),
            }
        } else {
            Err(
                Diagnostic::error(
                    &formal.pos,
                    Message::Text("Expected simple name for package generic formal".to_owned()),
                ),
            )
        }
    } else {
        match generics.nth(idx) {
            Some(ent) => Ok((idx, ent)),
            None => Err(Diagnostic::error(&assoc.actual.pos, Message::Text("Extra actual for generic map".to_owned()))),
        }
    }
}

/// The diagnostic that an error in the generic map is reported with: `text` at `pos`.
fn text_diagnostic(pos: &SrcPos, text: &str) -> (d: Diagnostic)
    ensures
        text_error(d, *pos, text@),
{
    Diagnostic::error(pos, Message::Text(text.to_owned()))
}

/// The position and the name that the type named by `name`, a type generic's
/// actual written at `pos`, is resolved from: the prefix of a slice, or the
/// called name where the parameters could be indexes, their constraint being
/// left out; otherwise `name` itself at `pos`.
pub fn type_name_target<'a>(name: &'a mut Name, pos: &'a SrcPos) -> (r: (&'a SrcPos, &'a mut Name))
    ensures
        type_name_query(*old(name), *pos) == ResolverQuery::TypeName(*r.0, *r.1),
{
    let (is_slice, is_indexed) = match &*name {
        Name::Slice(_) => (true, false),
        Name::CallOrIndexed(call) => (false, call.could_be_indexed_name()),
        _ => (false, false),
    };
    if is_slice {
        match name {
            Name::Slice(prefix) => (&prefix.pos, &mut prefix.item),
            _ => vstd::pervasive::unreached(),
        }
    } else if is_indexed {
        match name {
            Name::CallOrIndexed(call) => (&call.name.pos, &mut call.name.item),
            _ => vstd::pervasive::unreached(),
        }
    } else {
        (pos, name)
    }
}

/// Maps the type generic `generic` to the type that resolving its actual gave,
/// or passes on the error that it gave.
pub fn apply_type_answer(generic: &TypeEnt, answer: Result<TypeEnt, EvalError>, mapping: &mut GenericMapping) -> (r: Result<
    (),
    EvalError,
>)
    ensures
        match answer {
            Ok(t) => r is Ok && final(mapping)@ == old(mapping)@.insert(generic.0.id, t.0),
            Err(e) => r == Err::<(), EvalError>(e) && final(mapping)@ == old(mapping)@,
        },
{
    match answer {
        Ok(typ) => {
            crate::fnv_map::mapping_insert(mapping, generic.id(), typ.0);
            Ok(())
        },
        Err(e) => Err(e),
    }
}

/// What resolving the name actual of a subprogram or package generic gave: a
/// fatal error is passed on; any other outcome, reported by the resolver
/// already, lets analysis go on.
pub fn apply_name_answer(answer: Result<(), EvalError>) -> (r: Result<(), EvalError>)
    ensures
        answer == Err::<(), EvalError>(EvalError::FatalError) ==> r == Err::<(), EvalError>(EvalError::FatalError),
        answer != Err::<(), EvalError>(EvalError::FatalError) ==> r is Ok,
{
    proof {
        if let Err(e) = answer {
            assert(e == EvalError::Unknown || e == EvalError::FatalError);
        }
    }
    match as_fatal(answer) {
        Ok(_) => Ok(()),
        Err(e) => Err(e),
    }
}

/// The questions that analysis asks the resolver about an element whose answer
/// is `a`: none where it is not asked, otherwise `a` itself.
pub open spec fn asked_about(a: ResolverAnswer) -> Seq<ResolverAnswer> {
    if a.query is Nothing {
        Seq::empty()
    } else {
        seq![a]
    }
}

/// Analyses `assoc`, the element at position `idx` of a generic map, against
/// `generics`: reports a formal that names no generic, or an actual that cannot
/// be mapped to its generic; asks the resolver about any other actual, adding
/// what it reports; and maps a type generic to the type that its actual denotes.
fn map_association<R: Resolver>(
    resolver: &mut Resolution<R>,
    generics: &GpkgRegion,
    assoc: &mut AssociationElement,
    idx: usize,
    mapping: &mut GenericMapping,
    diagnostics: &mut Vec<Diagnostic>,
) -> (r: Result<(), EvalError>)
    requires
        generics.wf(),
    ensures
        exists|a: ResolverAnswer, added: Seq<Diagnostic>|
            #![trigger assoc_reports(generics.entities@, *old(assoc), idx as int, a, added)]
            {
                &&& answers_query(generics.entities@, *old(assoc), idx as int, a)
                &&& final(resolver).log() == old(resolver).log() + asked_about(a)
                &&& assoc_reports(generics.entities@, *old(assoc), idx as int, a, added)
                &&& final(diagnostics)@ == old(diagnostics)@ + added
                &&& final(mapping)@ == assoc_mapping(generics.entities@, *old(assoc), idx as int, a, old(mapping)@)
                &&& (match r {
                    Ok(_) => None,
                    Err(e) => Some(e),
                }) == assoc_error(generics.entities@, *old(assoc), idx as int, a)
            },
        final(resolver).packages() == old(resolver).packages(),
        assoc_after(generics.entities@, *old(assoc), idx as int, *final(assoc)),
{
    let ghost gs = generics.entities@;
    let ghost old_assoc = *assoc;
    let ghost m0 = mapping@;
    let ghost d0 = diagnostics@;
    let ghost log0 = resolver.log();
    let ghost query = expected_query(gs, old_assoc, idx as int);
    let ghost mut a = ResolverAnswer { query: ResolverQuery::Nothing, typ: None, error: None, reported: Seq::empty() };
    let ghost mut added: Seq<Diagnostic> = Seq::empty();
    let mut result: Result<(), EvalError> = Ok(());
    match resolve_formal(generics, assoc, idx) {
        Err(err) => {
            proof {
                added = seq![err];
            }
            diagnostics.push(err);
        },
        Ok((i, formal)) => {
            assert(gs[i as int] == formal);
            match &mut assoc.actual.item {
                ActualPart::Expression(expr) => match formal {
                    GpkgInterfaceEnt::Type(uninst_typ) => {
                        if let Expression::Name(name) = expr {
                            assert(old_assoc.actual.item == ActualPart::Expression(Expression::Name(*name)));
                            assert(formal_index(gs, old_assoc, idx as int) == i);
                            assert(query == type_name_query(**name, old_assoc.actual.pos));
                            let (target_pos, target_name) = type_name_target(&mut **name, &assoc.actual.pos);
                            let ghost asked = ResolverQuery::TypeName(*target_pos, *target_name);
                            assert(asked == query);
                            let answer = resolver.type_of_name(target_pos, target_name, diagnostics);
                            proof {
                                a = resolver.log().last();
                                added = a.reported;
                                assert(resolver.log() =~= log0 + asked_about(a));
                            }
                            result = apply_type_answer(&uninst_typ, answer, mapping);
                        } else {
                            let d = text_diagnostic(&assoc.actual.pos, "Cannot map expression to type generic");
                            proof {
                                added = seq![d];
                            }
                            diagnostics.push(d);
                        }
                    },
                    GpkgInterfaceEnt::Constant(obj) => {
                        let ghost asked = ResolverQuery::Expression(object_type_mark(obj), assoc.actual.pos, *expr);
                        assert(asked == query);
                        let answer = resolver.expression(obj.type_mark(), &assoc.actual.pos, expr, diagnostics);
                        proof {
                            a = resolver.log().last();
                            added = a.reported;
                            assert(resolver.log() =~= log0 + asked_about(a));
                        }
                        result = answer;
                    },
                    GpkgInterfaceEnt::Subprogram(_) => match expr {
                        Expression::Name(name) => {
                            let ghost asked = ResolverQuery::Name(assoc.actual.pos, **name);
                            assert(asked == query);
                            let answer = resolver.name(&assoc.actual.pos, &mut **name, diagnostics);
                            proof {
                                a = resolver.log().last();
                                added = a.reported;
                                assert(resolver.log() =~= log0 + asked_about(a));
                            }
                            result = apply_name_answer(answer);
                        },
                        Expression::Literal(Literal::String(string)) => {
                            if Operator::from_latin1(string.duplicate()).is_none() {
                                let d = text_diagnostic(&assoc.actual.pos, "Invalid operator symbol");
                                proof {
                                    added = seq![d];
                                }
                                diagnostics.push(d);
                            }
                        },
                        _ => {
                            let d = text_diagnostic(&assoc.actual.pos, "Cannot map expression to subprogram generic");
                            proof {
                                added = seq![d];
                            }
                            diagnostics.push(d);
                        },
                    },
                    GpkgInterfaceEnt::Package(_) => match expr {
                        Expression::Name(name) => {
                            let ghost asked = ResolverQuery::Name(assoc.actual.pos, **name);
                            assert(asked == query);
                            let answer = resolver.name(&assoc.actual.pos, &mut **name, diagnostics);
                            proof {
                                a = resolver.log().last();
                                added = a.reported;
                                assert(resolver.log() =~= log0 + asked_about(a));
                            }
                            result = apply_name_answer(answer);
                        },
                        _ => {
                            let d = text_diagnostic(&assoc.actual.pos, "Cannot map expression to package generic");
                            proof {
                                added = seq![d];
                            }
                            diagnostics.push(d);
                        },
                    },
                },
                ActualPart::Open => {},
            }
        },
    }
    assert(answers_query(gs, old_assoc, idx as int, a));
    assert(resolver.log() =~= log0 + asked_about(a));
    assert(assoc_reports(gs, old_assoc, idx as int, a, added));
    assert(diagnostics@ == d0 + added);
    assert(mapping@ == assoc_mapping(gs, old_assoc, idx as int, a, m0));
    result
}

impl AnalyzeContext {
    /// Maps each generic of `generics` that the generic map associates with a type
    /// to that type. Formals that are not declared, that are not simple names,
    /// and actuals that cannot be mapped to their generic are reported. Analysis
    /// stops at the first error that the resolver gives.
    fn package_generic_map<R: Resolver>(
        &self,
        resolver: &mut Resolution<R>,
        generics: &GpkgRegion,
        generic_map: &mut Vec<AssociationElement>,
        diagnostics: &mut Vec<Diagnostic>,
    ) -> (r: Result<GenericMapping, EvalError>)
        requires
            generics.wf(),
        ensures
            exists|answers: Seq<ResolverAnswer>, parts: Seq<Seq<Diagnostic>>|
                #[trigger] generic_map_run(
                    generics.entities@,
                    old(generic_map)@,
                    answers,
                    parts,
                    old(diagnostics)@,
                    final(diagnostics)@,
                    final(generic_map)@,
                    old(resolver).log(),
                    final(resolver).log(),
                    mapping_result(r),
                ),
            final(resolver).packages() == old(resolver).packages(),
    {
        let ghost gs = generics.entities@;
        let ghost gm0 = generic_map@;
        let ghost d0 = diagnostics@;
        let ghost log0 = resolver.log();
        let ghost mut answers: Seq<ResolverAnswer> = Seq::new(
            gm0.len(),
            |i: int| ResolverAnswer { query: ResolverQuery::Nothing, typ: None, error: None, reported: Seq::empty() },
        );
        let ghost mut parts: Seq<Seq<Diagnostic>> = Seq::empty();
        let mut mapping: GenericMapping = FnvHashMap::default();
        let n = generic_map.len();
        let mut idx: usize = 0;
        while idx < n
            invariant
                n == generic_map@.len(),
                n == gm0.len(),
                gm0 == old(generic_map)@,
                gs == generics.entities@,
                d0 == old(diagnostics)@,
                idx <= n,
                generics.wf(),
                answers.len() == n,
                parts.len() == idx,
                run_state(gs, gm0, answers, idx as int).0 == mapping@,
                run_state(gs, gm0, answers, idx as int).1 is None,
                run_state(gs, gm0, answers, idx as int).2 == idx,
                forall|i: int|
                    0 <= i < idx ==> answers_query(gs, gm0[i], i, #[trigger] answers[i]) && assoc_reports(
                        gs,
                        gm0[i],
                        i,
                        answers[i],
                        parts[i],
                    ),
                diagnostics@ == d0 + joined(parts),
                log0 == old(resolver).log(),
                resolver.log() == log0 + asked(answers, idx as int),
                resolver.packages() == old(resolver).packages(),
                forall|i: int| 0 <= i < idx ==> assoc_after(gs, gm0[i], i, #[trigger] generic_map@[i]),
                forall|i: int| idx <= i < n ==> #[trigger] generic_map@[i] == gm0[i],
            decreases n - idx,
        {
            let cur = idx;
            let ghost before_answers = answers;
            let ghost before_parts = parts;
            let ghost before_diags = diagnostics@;
            let ghost before_map = mapping@;
            let ghost before_log = resolver.log();
            assert(generic_map@[cur as int] == gm0[cur as int]);
            let step = map_association(resolver, generics, &mut generic_map[idx], cur, &mut mapping, diagnostics);
            idx += 1;
            proof {
                let (a, added) = choose|a: ResolverAnswer, added: Seq<Diagnostic>|
                    {
                        &&& answers_query(gs, gm0[cur as int], cur as int, a)
                        &&& resolver.log() == before_log + asked_about(a)
                        &&& #[trigger] assoc_reports(gs, gm0[cur as int], cur as int, a, added)
                        &&& diagnostics@ == before_diags + added
                        &&& mapping@ == assoc_mapping(gs, gm0[cur as int], cur as int, a, before_map)
                        &&& (match step {
                            Ok(_) => None,
                            Err(e) => Some(e),
                        }) == assoc_error(gs, gm0[cur as int], cur as int, a)
                    };
                answers = answers.update(cur as int, a);
                parts = parts.push(added);
                assert(parts.drop_last() =~= before_parts);
                lemma_run_prefix(gs, gm0, before_answers, answers, cur as int);
                lemma_asked_prefix(before_answers, answers, cur as int);
                assert(asked(answers, idx as int) == asked(answers, cur as int) + asked_about(answers[cur as int]));
                assert(resolver.log() =~= log0 + asked(answers, idx as int));
                assert(diagnostics@ =~= d0 + joined(parts));
            }
            if let Err(e) = step {
                proof {
                    lemma_run_stops(gs, gm0, answers, idx as int, n as int);
                    assert(generic_map_run(
                        gs,
                        gm0,
                        answers,
                        parts,
                        d0,
                        diagnostics@,
                        generic_map@,
                        log0,
                        resolver.log(),
                        Err(e),
                    ));
                }
                return Err(e);
            }
        }
        proof {
            assert(generic_map_run(
                gs,
                gm0,
                answers,
                parts,
                d0,
                diagnostics@,
                generic_map@,
                log0,
                resolver.log(),
                Ok(mapping@),
            ));
        }
        Ok(mapping)
    }
}

} // verus!

verus! {

/// The entries of a package instance, with the arena's next identity going
/// from `next_id` to `next_after`: where the arena has enough identities left,
/// the instances of those declarations of `pkg` that are not generics and can
/// be instantiated under `m`, with new identities in order, added in order.
pub open spec fn instance_entries(entries: RegionEntries, next_id: EntityId, next_after: EntityId, pkg: Region, m: MappingView) -> bool {
    next_id + decls_count_from(package_others(pkg), 0) <= usize::MAX ==> exists|insts: Seq<EntRef>|
        #[trigger] instances_of(m, succeeded(m, package_others(pkg)), insts) && fresh_ids(
            insts,
            next_id as int,
            next_after as int,
        ) && entries == add_all_spec(RegionEntries::empty(), insts)
}

/// `after` is `before` followed by a report, at `pos`, of each of `us` that
/// cannot be instantiated under `m`, in order.
pub open spec fn reports_failures(before: Seq<Diagnostic>, after: Seq<Diagnostic>, pos: SrcPos, m: MappingView, us: Seq<EntRef>) -> bool {
    let failures = failed(m, us);
    &&& after.len() == before.len() + failures.len()
    &&& forall|k: int| 0 <= k < before.len() ==> after[k] == before[k]
    &&& forall|k: int|
        0 <= k < failures.len() ==> reports_failure(#[trigger] after[before.len() + k], pos, m, failures[k])
}

/// Instantiating the declarations of `pkg` under `m`, reporting failures at
/// `pos`, gives `r`, a new package declaration region, takes the diagnostics
/// from `before` to `after` and the arena's next identity from `next_id` to
/// `next_after`; where the arena runs out of identities, what it holds is left
/// open.
pub open spec fn instantiated_with(
    pkg: Region,
    m: MappingView,
    next_id: EntityId,
    next_after: EntityId,
    pos: SrcPos,
    before: Seq<Diagnostic>,
    after: Seq<Diagnostic>,
    r: Result<Region, EvalError>,
) -> bool {
    &&& r matches Ok(region) && region.kind == RegionKind::PackageDeclaration && instance_entries(
        region.entries(),
        next_id,
        next_after,
        pkg,
        m,
    )
    &&& next_id + decls_count_from(package_others(pkg), 0) <= usize::MAX ==> next_after == next_id
        + decls_used_from(m, package_others(pkg), 0)
    &&& next_id + decls_count_from(package_others(pkg), 0) <= usize::MAX ==> reports_failures(
        before,
        after,
        pos,
        m,
        package_others(pkg),
    )
}

/// What analysing the instantiation `unit` gives, where resolving the name of
/// the uninstantiated package gave `package`, the arena's next identity goes
/// from `next_id` to `next_after`, the diagnostics go from `before` to
/// `after`, and the record of what the resolver was asked about actuals from
/// `log_before` to `log_after`: a failure to resolve the name is reported, unless fatal, and no
/// identity is handed out; otherwise the generic map, if any, is analysed with
/// the generics of the package, leaving it as `unit_after`, and an error there
/// is passed on, with no identity handed out; otherwise the declarations
/// of the package that are not generics are instantiated under the mapping
/// that the generic map gives, or under the empty mapping where there is none.
pub open spec fn package_instance_outcome(
    package: Result<Region, AnalysisError>,
    unit: PackageInstantiation,
    unit_after: PackageInstantiation,
    next_id: EntityId,
    next_after: EntityId,
    before: Seq<Diagnostic>,
    after: Seq<Diagnostic>,
    log_before: Seq<ResolverAnswer>,
    log_after: Seq<ResolverAnswer>,
    r: Result<Region, EvalError>,
) -> bool {
    match package {
        Err(AnalysisError::Fatal) => r == Err::<Region, EvalError>(EvalError::FatalError) && after == before
            && next_after == next_id && log_after == log_before,
        Err(AnalysisError::NotFatal(d)) => r == Err::<Region, EvalError>(EvalError::Unknown) && after == before.push(d)
            && next_after == next_id && log_after == log_before,
        Ok(pkg) => match unit.generic_map {
            None => {
                &&& unit_after.generic_map is None
                &&& log_after == log_before
                &&& instantiated_with(
                    pkg,
                    Map::<EntityId, EntRef>::empty(),
                    next_id,
                    next_after,
                    unit.ident.pos,
                    before,
                    after,
                    r,
                )
            },
            Some(gm) => exists|
                answers: Seq<ResolverAnswer>,
                parts: Seq<Seq<Diagnostic>>,
                mid: Seq<Diagnostic>,
                gm_after: Seq<AssociationElement>,
            |
                {
                    &&& #[trigger] generic_map_run(
                        package_generics(pkg),
                        gm@,
                        answers,
                        parts,
                        before,
                        mid,
                        gm_after,
                        log_before,
                        log_after,
                        run_result(package_generics(pkg), gm@, answers),
                    )
                    &&& unit_after.generic_map matches Some(g) && g@ == gm_after
                    &&& match run_result(package_generics(pkg), gm@, answers) {
                        Err(e) => r == Err::<Region, EvalError>(e) && after == mid && next_after == next_id,
                        Ok(m) => instantiated_with(pkg, m, next_id, next_after, unit.ident.pos, mid, after, r),
                    }
                },
        },
    }
}

impl AnalyzeContext {
    /// Instantiates each of `uninsts` in turn and adds each instance to `region`;
    /// each declaration that cannot be instantiated is reported at `ident_pos`
    /// instead, with the position of the declaration.
    pub fn instantiate_declarations(
        &mut self,
        mapping: &GenericMapping,
        uninsts: &Vec<EntRef>,
        ident_pos: &SrcPos,
        region: &mut Region,
        diagnostics: &mut Vec<Diagnostic>,
    )
        ensures
            final(region).kind == old(region).kind,
            final(self).arena.next_id >= old(self).arena.next_id,
            old(self).arena.next_id + decls_count_from(uninsts@, 0) <= usize::MAX ==> {
                &&& final(self).arena.next_id == old(self).arena.next_id + decls_used_from(mapping@, uninsts@, 0)
                &&& exists|insts: Seq<EntRef>|
                    {
                        &&& instances_of(mapping@, succeeded(mapping@, uninsts@), insts)
                        &&& fresh_ids(insts, old(self).arena.next_id as int, final(self).arena.next_id as int)
                        &&& final(region).entries() == add_all_spec(old(region).entries(), insts)
                    }
                &&& final(diagnostics)@.len() == old(diagnostics)@.len() + failed(mapping@, uninsts@).len()
                &&& forall|k: int|
                    0 <= k < old(diagnostics)@.len() ==> final(diagnostics)@[k] == old(diagnostics)@[k]
                &&& forall|k: int|
                    0 <= k < failed(mapping@, uninsts@).len() ==> reports_failure(
                        #[trigger] final(diagnostics)@[old(diagnostics)@.len() + k],
                        *ident_pos,
                        mapping@,
                        failed(mapping@, uninsts@)[k],
                    )
            },
    {
        let ghost m = mapping@;
        let ghost us = uninsts@;
        let ghost start = self.arena.next_id;
        let ghost fits = start + decls_count_from(us, 0) <= usize::MAX;
        let ghost mut insts: Seq<EntRef> = Seq::empty();
        let mut i: usize = 0;
        while i < uninsts.len()
            invariant
                i <= us.len(),
                us == uninsts@,
                m == mapping@,
                start == old(self).arena.next_id,
                start <= self.arena.next_id,
                fits == (start + decls_count_from(us, 0) <= usize::MAX),
                self.arena.next_id + decls_count_from(us, i as int) <= start + decls_count_from(us, 0),
                region.kind == old(region).kind,
                fits ==> {
                    &&& self.arena.next_id + decls_used_from(m, us, i as int) == start + decls_used_from(m, us, 0)
                    &&& instances_of(m, succeeded(m, us.take(i as int)), insts)
                    &&& fresh_ids(insts, start as int, self.arena.next_id as int)
                    &&& region.entries() == add_all_spec(old(region).entries(), insts)
                    &&& diagnostics@.len() == old(diagnostics)@.len() + failed(m, us.take(i as int)).len()
                    &&& forall|k: int|
                        0 <= k < old(diagnostics)@.len() ==> diagnostics@[k] == old(diagnostics)@[k]
                    &&& forall|k: int|
                        0 <= k < failed(m, us.take(i as int)).len() ==> reports_failure(
                            #[trigger] diagnostics@[old(diagnostics)@.len() + k],
                            *ident_pos,
                            m,
                            failed(m, us.take(i as int))[k],
                        )
                },
            decreases us.len() - i,
        {
            let uninst = &uninsts[i];
            let ghost before_diags = diagnostics@;
            let ghost before_entries = region.entries();
            let ghost before_next = self.arena.next_id;
            proof {
                assert(us.take(i + 1).drop_last() =~= us.take(i as int));
                assert(us.take(i + 1).last() == us[i as int]);
            }
            match self.instantiate(mapping, uninst) {
                Ok(inst) => {
                    // Diagnostics from adding are not reported: two generic types that map
                    // to one actual type may give colliding implicit declarations.
                    region.add(inst);
                    proof {
                        if fits {
                            let prev = insts;
                            insts = insts.push(inst);
                            assert(insts.drop_last() =~= prev);
                            assert(succeeded(m, us.take(i + 1)) == succeeded(m, us.take(i as int)).push(us[i as int]));
                            assert(failed(m, us.take(i + 1)) == failed(m, us.take(i as int)));
                        }
                    }
                },
                Err(err) => {
                    let mut diag = Diagnostic::error(ident_pos, Message::Instantiation(err));
                    if let Some(pos) = &uninst.decl_pos {
                        diag.add_related(pos, "When instantiating this declaration".to_owned());
                        proof {
                            reveal_strlit("When instantiating this declaration");
                        }
                    }
                    diagnostics.push(diag);
                    proof {
                        if fits {
                            assert(inst_error(m, us[i as int]) is Some);
                            assert(succeeded(m, us.take(i + 1)) == succeeded(m, us.take(i as int)));
                            assert(failed(m, us.take(i + 1)) == failed(m, us.take(i as int)).push(us[i as int]));
                        }
                    }
                },
            }
            i += 1;
        }
        proof {
            assert(us.take(i as int) =~= us);
        }
    }

    /// Analyzes an instantiation of a generic package, given `package`, what
    /// resolving the name of the uninstantiated package gave: where that failed,
    /// its diagnostic is reported, unless the failure is fatal; otherwise the
    /// declarations of the package, other than its generics, are instantiated
    /// with the generic map of the instantiation, in a new package declaration
    /// region.
    pub fn instantiate_package<R: Resolver>(
        &mut self,
        resolver: &mut Resolution<R>,
        package: Result<Region, AnalysisError>,
        unit: &mut PackageInstantiation,
        diagnostics: &mut Vec<Diagnostic>,
    ) -> (r: Result<Region, EvalError>)
        ensures
            package_instance_outcome(
                package,
                *old(unit),
                *final(unit),
                old(self).arena.next_id,
                final(self).arena.next_id,
                old(diagnostics)@,
                final(diagnostics)@,
                old(resolver).log(),
                final(resolver).log(),
                r,
            ),
            final(resolver).packages() == old(resolver).packages(),
    {
        let ghost log0 = resolver.log();
        match package {
            Ok(package_region) => {
                let mut nested = Region::with_kind(RegionKind::PackageDeclaration);
                let (generics, other) = package_region.to_package_generic();
                let ghost gs = generics.entities@;
                let ghost d0 = diagnostics@;
                assert(gs == package_generics(package_region));
                assert(other@ == package_others(package_region));
                let mapping_result_: Result<GenericMapping, EvalError> = if let Some(generic_map) = &mut unit.generic_map {
                    self.package_generic_map(resolver, &generics, generic_map, diagnostics)
                } else {
                    Ok(FnvHashMap::default())
                };
                let ghost mid = diagnostics@;
                let ghost log_mid = resolver.log();
                let ghost mut answers: Seq<ResolverAnswer> = Seq::empty();
                let ghost mut parts: Seq<Seq<Diagnostic>> = Seq::empty();
                proof {
                    if let Some(gm) = old(unit).generic_map {
                        let (a, p) = choose|a: Seq<ResolverAnswer>, p: Seq<Seq<Diagnostic>>|
                            #[trigger] generic_map_run(
                                gs,
                                gm@,
                                a,
                                p,
                                d0,
                                mid,
                                unit.generic_map->0@,
                                log0,
                                log_mid,
                                mapping_result(mapping_result_),
                            );
                        answers = a;
                        parts = p;
                    }
                }
                let mapping = match mapping_result_ {
                    Ok(mapping) => mapping,
                    Err(e) => {
                        proof {
                            let gm = old(unit).generic_map->0;
                            assert(generic_map_run(
                                gs,
                                gm@,
                                answers,
                                parts,
                                d0,
                                mid,
                                unit.generic_map->0@,
                                log0,
                                log_mid,
                                run_result(gs, gm@, answers),
                            ));
                        }
                        return Err(e);
                    },
                };
                let ghost nested_before = nested.entries();
                self.instantiate_declarations(&mapping, &other, &unit.ident.pos, &mut nested, diagnostics);
                proof {
                    let m = mapping@;
                    assert(nested_before =~= RegionEntries::empty());
                    if old(self).arena.next_id + decls_count_from(package_others(package_region), 0) <= usize::MAX {
                        let insts = choose|insts: Seq<EntRef>|
                            {
                                &&& instances_of(m, succeeded(m, other@), insts)
                                &&& nested.entries() == add_all_spec(nested_before, insts)
                            };
                        assert(instances_of(m, succeeded(m, package_others(package_region)), insts));
                    }
                    assert(instantiated_with(
                        package_region,
                        m,
                        old(self).arena.next_id,
                        self.arena.next_id,
                        old(unit).ident.pos,
                        mid,
                        diagnostics@,
                        Ok::<Region, EvalError>(nested),
                    ));
                    if let Some(gm) = old(unit).generic_map {
                        assert(generic_map_run(
                            gs,
                            gm@,
                            answers,
                            parts,
                            d0,
                            mid,
                            unit.generic_map->0@,
                            log0,
                            log_mid,
                            run_result(gs, gm@, answers),
                        ));
                    } else {
                        assert(m == Map::<EntityId, EntRef>::empty());
                    }
                }
                Ok(nested)
            },
            Err(err) => {
                diagnostics.push(err.into_non_fatal()?);
                Err(EvalError::Unknown)
            },
        }
    }

    /// Analyzes an instantiation of a generic package: the declarations of the
    /// uninstantiated package, other than its generics, instantiated with the
    /// generic map of the instantiation, in a new package declaration region.
    /// Where the name of the uninstantiated package cannot be resolved, its
    /// diagnostic is reported, unless the failure is fatal.
    pub fn generic_package_instance<R: Resolver>(
        &mut self,
        resolver: &mut Resolution<R>,
        unit: &mut PackageInstantiation,
        diagnostics: &mut Vec<Diagnostic>,
    ) -> (r: Result<Region, EvalError>)
        ensures
            final(resolver).packages().len() == old(resolver).packages().len() + 1,
            final(resolver).packages().drop_last() == old(resolver).packages(),
            final(resolver).packages().last().0 == old(unit).package_name,
            package_instance_outcome(
                final(resolver).packages().last().1,
                *old(unit),
                *final(unit),
                old(self).arena.next_id,
                final(self).arena.next_id,
                old(diagnostics)@,
                final(diagnostics)@,
                old(resolver).log(),
                final(resolver).log(),
                r,
            ),
    {
        let ghost log0 = resolver.log();
        let package = resolver.package(&mut unit.package_name);
        let ghost resolved = package;
        let ghost unit_mid = *unit;
        assert(unit_mid.generic_map == old(unit).generic_map && unit_mid.ident == old(unit).ident);
        let r = self.instantiate_package(resolver, package, unit, diagnostics);
        assert(resolver.packages().last().1 == resolved);
        assert(package_instance_outcome(
            resolved,
            *old(unit),
            *unit,
            old(self).arena.next_id,
            self.arena.next_id,
            old(diagnostics)@,
            diagnostics@,
            log0,
            resolver.log(),
            r,
        ));
        r
    }
}

} // verus!

verus! {

/// A type mark of a generic type becomes the actual that the mapping gives it,
/// where that actual is a type; a type mark of any other type stays as it is.
pub proof fn lemma_type_marks_after_mapping(m: MappingView, t: TypeEnt)
    ensures
        !m.contains_key(t.0.id) ==> map_type_spec(m, t) == Ok::<TypeEnt, ErrView>(t),
        m.contains_key(t.0.id) && is_type_kind(m[t.0.id].kind) ==> map_type_spec(m, t) == Ok::<
            TypeEnt,
            ErrView,
        >(TypeEnt(m[t.0.id])),
        m.contains_key(t.0.id) && !is_type_kind(m[t.0.id].kind) ==> map_type_spec(m, t) == Err::<
            TypeEnt,
            ErrView,
        >(InstantiationErrorView::ExpectedType(m[t.0.id])),
{
}

/// Without a mapping, no type mark changes and no type mark is in error.
pub proof fn lemma_empty_mapping_keeps_types(t: TypeEnt)
    ensures
        map_type_spec(Map::<EntityId, EntRef>::empty(), t) == Ok::<TypeEnt, ErrView>(t),
        mapped_type(Map::<EntityId, EntRef>::empty(), t) == t,
{
}

/// Instances get new identities: an entity whose identity was below the arena's
/// next identity before instantiation, as every entity that the arena handed
/// out is, is none of the instances.
pub proof fn lemma_instances_are_new(insts: Seq<EntRef>, lo: int, hi: int, e: EntRef)
    requires
        fresh_ids(insts, lo, hi),
        e.id < lo,
    ensures
        forall|k: int| 0 <= k < insts.len() ==> (#[trigger] insts[k]).id != e.id,
{
}

/// Whether entities of kind `k` own no declarations of their own.
pub open spec fn is_leaf_kind(k: AnyEntKind) -> bool {
    match k {
        AnyEntKind::ExternalAlias { .. } => true,
        AnyEntKind::File(_) => true,
        AnyEntKind::InterfaceFile(_) => true,
        AnyEntKind::Attribute(_) => true,
        AnyEntKind::ElementDeclaration(_) => true,
        AnyEntKind::Label => true,
        AnyEntKind::Object(_) => true,
        AnyEntKind::LoopParameter(_) => true,
        AnyEntKind::PhysicalLiteral(_) => true,
        AnyEntKind::DeferredConstant(_) => true,
        AnyEntKind::Library => true,
        _ => false,
    }
}

/// With no generic mapped, a kind that owns no declarations is instantiated
/// without error into itself, field by field; the type of a loop parameter
/// becomes its base type.
pub proof fn lemma_empty_mapping_keeps_kinds(u: AnyEntKind, i: AnyEntKind)
    requires
        is_leaf_kind(u),
        kind_rel(Map::<EntityId, EntRef>::empty(), u, i),
    ensures
        kind_error(Map::<EntityId, EntRef>::empty(), u) is None,
        u matches AnyEntKind::LoopParameter(b) ==> i == AnyEntKind::LoopParameter(
            match b {
                Some(b) => Some(BaseType(base_of(b.0))),
                None => None,
            },
        ),
        !(u is LoopParameter) ==> i == u,
{
}

/// Each declaration is either instantiated or reported, never both.
pub proof fn lemma_succeeded_or_failed(m: MappingView, us: Seq<EntRef>)
    ensures
        succeeded(m, us).len() + failed(m, us).len() == us.len(),
    decreases us.len(),
{
    if us.len() > 0 {
        lemma_succeeded_or_failed(m, us.drop_last());
    }
}


/// `t2` is what the type mark `t` becomes under the mapping `m` of generics to
/// actuals: the actual where `m` maps `t` to a type, and `t` itself where `m`
/// does not map it.
pub open spec fn mark_under(m: MappingView, t: TypeEnt, t2: TypeEnt) -> bool {
    &&& (m.contains_key(t.0.id) && is_type_kind(m[t.0.id].kind)) ==> t2 == TypeEnt(m[t.0.id])
    &&& !m.contains_key(t.0.id) ==> t2 == t
}

/// Every type mark that a declaration carries directly becomes its actual in
/// the instance, under the mapping given to instantiation, whatever kind of
/// declaration carries it; the other fields stay.
pub proof fn lemma_kind_type_marks_mapped(m: MappingView, u: AnyEntKind, i: AnyEntKind)
    requires
        kind_rel(m, u, i),
    ensures
        u matches AnyEntKind::ExternalAlias { class, type_mark } ==> (i matches AnyEntKind::ExternalAlias {
            class: c2,
            type_mark: t2,
        } && c2 == class && mark_under(m, type_mark, t2)),
        u matches AnyEntKind::ObjectAlias { type_mark, .. } ==> (i matches AnyEntKind::ObjectAlias {
            type_mark: t2,
            ..
        } && mark_under(m, type_mark, t2)),
        u matches AnyEntKind::File(s) ==> (i matches AnyEntKind::File(s2) && mark_under(m, s.type_mark, s2.type_mark)),
        u matches AnyEntKind::InterfaceFile(t) ==> (i matches AnyEntKind::InterfaceFile(t2) && mark_under(m, t, t2)),
        u matches AnyEntKind::Attribute(t) ==> (i matches AnyEntKind::Attribute(t2) && mark_under(m, t, t2)),
        u matches AnyEntKind::ElementDeclaration(s) ==> (i matches AnyEntKind::ElementDeclaration(s2) && mark_under(
            m,
            s.type_mark,
            s2.type_mark,
        )),
        u matches AnyEntKind::PhysicalLiteral(t) ==> (i matches AnyEntKind::PhysicalLiteral(t2) && mark_under(m, t, t2)),
        u matches AnyEntKind::DeferredConstant(s) ==> (i matches AnyEntKind::DeferredConstant(s2) && mark_under(
            m,
            s.type_mark,
            s2.type_mark,
        )),
        u matches AnyEntKind::Object(o) ==> (i matches AnyEntKind::Object(o2) && o2.class == o.class && o2.mode
            == o.mode && o2.has_default == o.has_default && mark_under(m, o.subtype.type_mark, o2.subtype.type_mark)),
{
}

/// Every type mark that a type declaration carries directly becomes its actual
/// in the instance: the type mark of a subtype, of an access type, of an alias,
/// and the element type of an array.
pub proof fn lemma_type_marks_in_types_mapped(m: MappingView, u: Type, i: Type)
    requires
        type_rel(m, u, i),
    ensures
        u matches Type::Subtype(s) ==> (i matches Type::Subtype(s2) && mark_under(m, s.type_mark, s2.type_mark)),
        u matches Type::Access(s) ==> (i matches Type::Access(s2) && mark_under(m, s.type_mark, s2.type_mark)),
        u matches Type::Alias(t) ==> (i matches Type::Alias(t2) && mark_under(m, t, t2)),
        u matches Type::Array { indexes, elem_type } ==> (i matches Type::Array { indexes: ix2, elem_type: e2 }
            && ix2@.len() == indexes@.len() && mark_under(m, elem_type, e2)),
{
}

/// The signature `s2` of an instance is the signature `s` under the mapping
/// `m`: each formal is an instance of the formal at its place, with the type
/// mark of an object formal mapped, and the return type is mapped.
pub open spec fn signature_under(m: MappingView, s: Signature, s2: Signature) -> bool {
    &&& s2.formals.entities@.len() == s.formals.entities@.len()
    &&& forall|j: int|
        0 <= j < s.formals.entities@.len() ==> {
            let f = (#[trigger] s.formals.entities@[j]).0;
            let f2 = s2.formals.entities@[j].0;
            &&& f2.related == Related::InstanceOf(f)
            &&& f2.designator == f.designator
            &&& f.kind matches AnyEntKind::Object(o) ==> (f2.kind matches AnyEntKind::Object(o2) && mark_under(
                m,
                o.subtype.type_mark,
                o2.subtype.type_mark,
            ))
        }
    &&& match s.return_type {
        Some(t) => s2.return_type matches Some(t2) && mark_under(m, t, t2),
        None => s2.return_type is None,
    }
}

/// An overloaded declaration that has a signature (a subprogram, its
/// declaration, an interface subprogram or an enumeration literal) is
/// instantiated into one of the same sort whose signature is the original
/// under the mapping given to instantiation.
pub proof fn lemma_overloaded_signature_mapped(m: MappingView, u: Overloaded, i: Overloaded)
    requires
        overloaded_rel(m, u, i),
    ensures
        u matches Overloaded::SubprogramDecl(s) ==> (i matches Overloaded::SubprogramDecl(s2) && signature_under(
            m,
            s,
            s2,
        )),
        u matches Overloaded::Subprogram(s) ==> (i matches Overloaded::Subprogram(s2) && signature_under(m, s, s2)),
        u matches Overloaded::InterfaceSubprogram(s) ==> (i matches Overloaded::InterfaceSubprogram(s2)
            && signature_under(m, s, s2)),
        u matches Overloaded::EnumLiteral(s) ==> (i matches Overloaded::EnumLiteral(s2) && signature_under(m, s, s2)),
{
    let s = match u {
        Overloaded::SubprogramDecl(s) => s,
        Overloaded::Subprogram(s) => s,
        Overloaded::InterfaceSubprogram(s) => s,
        Overloaded::EnumLiteral(s) => s,
        Overloaded::Alias(_) => {
            return;
        },
    };
    let s2 = match i {
        Overloaded::SubprogramDecl(s2) => s2,
        Overloaded::Subprogram(s2) => s2,
        Overloaded::InterfaceSubprogram(s2) => s2,
        Overloaded::EnumLiteral(s2) => s2,
        Overloaded::Alias(_) => {
            return;
        },
    };
    assert(signature_rel(m, s, s2));
    assert forall|j: int| 0 <= j < s.formals.entities@.len() implies {
        let f = (#[trigger] s.formals.entities@[j]).0;
        let f2 = s2.formals.entities@[j].0;
        &&& f2.related == Related::InstanceOf(f)
        &&& f2.designator == f.designator
        &&& f.kind matches AnyEntKind::Object(o) ==> (f2.kind matches AnyEntKind::Object(o2) && mark_under(
            m,
            o.subtype.type_mark,
            o2.subtype.type_mark,
        ))
    } by {
        let f = s.formals.entities@[j].0;
        let f2 = s2.formals.entities@[j].0;
        assert(inst_rel(m, f, f2));
        lemma_kind_type_marks_mapped(m, f.kind, f2.kind);
    }
}

/// Analysis of a generic map stops at the first error that checking the actual
/// of a constant generic against its type gives, whichever error that is: the
/// whole analysis then gives that error.
pub proof fn lemma_constant_check_error_stops(
    generics: Seq<GpkgInterfaceEnt>,
    gm: Seq<AssociationElement>,
    answers: Seq<ResolverAnswer>,
    i: int,
    e: EvalError,
)
    requires
        0 <= i < gm.len(),
        0 <= formal_index(generics, gm[i], i) < generics.len(),
        generics[formal_index(generics, gm[i], i)] is Constant,
        gm[i].actual.item is Expression,
        answers[i].error == Some(e),
        run_state(generics, gm, answers, i).1 is None,
    ensures
        run_result(generics, gm, answers) == Err::<MappingView, EvalError>(e),
{
    assert(run_state(generics, gm, answers, i + 1).1 == Some(e));
    lemma_run_stops(generics, gm, answers, i + 1, gm.len() as int);
}


/// The type mark `t` is mapped by `m` to an entity that is not a type.
pub open spec fn mapped_to_non_type(m: MappingView, t: TypeEnt) -> bool {
    m.contains_key(t.0.id) && !is_type_kind(m[t.0.id].kind)
}

/// A declaration whose own type mark the mapping sends to an entity that is not
/// a type cannot be instantiated: the error names that entity.
pub proof fn lemma_kind_non_type_actual_fails(m: MappingView, u: AnyEntKind)
    ensures
        u matches AnyEntKind::ExternalAlias { type_mark, .. } ==> (mapped_to_non_type(m, type_mark) ==> kind_error(m, u)
            == Some(InstantiationErrorView::ExpectedType(m[type_mark.0.id]))),
        u matches AnyEntKind::File(s) ==> (mapped_to_non_type(m, s.type_mark) ==> kind_error(m, u) == Some(
            InstantiationErrorView::ExpectedType(m[s.type_mark.0.id]),
        )),
        u matches AnyEntKind::InterfaceFile(t) ==> (mapped_to_non_type(m, t) ==> kind_error(m, u) == Some(
            InstantiationErrorView::ExpectedType(m[t.0.id]),
        )),
        u matches AnyEntKind::Attribute(t) ==> (mapped_to_non_type(m, t) ==> kind_error(m, u) == Some(
            InstantiationErrorView::ExpectedType(m[t.0.id]),
        )),
        u matches AnyEntKind::ElementDeclaration(s) ==> (mapped_to_non_type(m, s.type_mark) ==> kind_error(m, u)
            == Some(InstantiationErrorView::ExpectedType(m[s.type_mark.0.id]))),
        u matches AnyEntKind::PhysicalLiteral(t) ==> (mapped_to_non_type(m, t) ==> kind_error(m, u) == Some(
            InstantiationErrorView::ExpectedType(m[t.0.id]),
        )),
        u matches AnyEntKind::DeferredConstant(s) ==> (mapped_to_non_type(m, s.type_mark) ==> kind_error(m, u) == Some(
            InstantiationErrorView::ExpectedType(m[s.type_mark.0.id]),
        )),
        u matches AnyEntKind::Object(o) ==> (mapped_to_non_type(m, o.subtype.type_mark) ==> kind_error(m, u) == Some(
            InstantiationErrorView::ExpectedType(m[o.subtype.type_mark.0.id]),
        )),
        u matches AnyEntKind::LoopParameter(Some(b)) ==> (mapped_to_non_type(m, b.0) ==> kind_error(m, u) == Some(
            InstantiationErrorView::ExpectedType(m[b.0.0.id]),
        )),
{
}

/// A type whose own type mark the mapping sends to an entity that is not a type
/// cannot be instantiated: the error names that entity.
pub proof fn lemma_type_non_type_actual_fails(m: MappingView, u: Type)
    ensures
        u matches Type::Subtype(s) ==> (mapped_to_non_type(m, s.type_mark) ==> type_kind_error(m, u) == Some(
            InstantiationErrorView::ExpectedType(m[s.type_mark.0.id]),
        )),
        u matches Type::Access(s) ==> (mapped_to_non_type(m, s.type_mark) ==> type_kind_error(m, u) == Some(
            InstantiationErrorView::ExpectedType(m[s.type_mark.0.id]),
        )),
        u matches Type::Alias(t) ==> (mapped_to_non_type(m, t) ==> type_kind_error(m, u) == Some(
            InstantiationErrorView::ExpectedType(m[t.0.id]),
        )),
{
}

/// An instance is related to the declaration it instantiates, keeps its
/// designator and position, and holds an instance of each of its implicit
/// declarations, in order.
pub proof fn lemma_instance_shape(m: MappingView, u: EntRef, i: EntRef)
    requires
        inst_rel(m, u, i),
    ensures
        i.related == Related::InstanceOf(u),
        i.designator == u.designator,
        i.decl_pos == u.decl_pos,
        i.implicits@.len() == u.implicits@.len(),
        forall|j: int|
            0 <= j < u.implicits@.len() ==> (#[trigger] i.implicits@[j]).related == Related::InstanceOf(
                u.implicits@[j],
            ),
{
    assert forall|j: int| 0 <= j < u.implicits@.len() implies (#[trigger] i.implicits@[j]).related
        == Related::InstanceOf(u.implicits@[j]) by {
        assert(inst_rel(m, u.implicits@[j], i.implicits@[j]));
    }
}

/// The type of a loop parameter and each index type of an array become the base
/// type of what the mapping gives for them; each element of a record, and the
/// base object of an object alias, is instantiated.
pub proof fn lemma_owned_parts_instantiated(m: MappingView, u: AnyEntKind, i: AnyEntKind)
    requires
        kind_rel(m, u, i),
    ensures
        u matches AnyEntKind::LoopParameter(Some(b)) ==> (i matches AnyEntKind::LoopParameter(Some(b2)) && exists|
            t2: TypeEnt,
        | #[trigger] mark_under(m, b.0, t2) && b2.0 == base_of(t2)),
        u matches AnyEntKind::LoopParameter(None) ==> i == AnyEntKind::LoopParameter(None),
        u matches AnyEntKind::ObjectAlias { base_object, .. } ==> (i matches AnyEntKind::ObjectAlias {
            base_object: b2,
            ..
        } && b2.0.related == Related::InstanceOf(base_object.0)),
        u matches AnyEntKind::Type(Type::Array { indexes, .. }) ==> (i matches AnyEntKind::Type(
            Type::Array { indexes: ix2, .. },
        ) && ix2@.len() == indexes@.len() && forall|j: int|
            0 <= j < indexes@.len() ==> (#[trigger] indexes@[j] is None <==> ix2@[j] is None)),
        u matches AnyEntKind::Type(Type::Record(rr)) ==> (i matches AnyEntKind::Type(Type::Record(rr2))
            && rr2.elems@.len() == rr.elems@.len() && forall|j: int|
            0 <= j < rr.elems@.len() ==> (#[trigger] rr2.elems@[j]).0.related == Related::InstanceOf(rr.elems@[j].0)),
{
    match u {
        AnyEntKind::LoopParameter(Some(b)) => {
            assert(mark_under(m, b.0, mapped_type(m, b.0)));
        },
        AnyEntKind::Type(Type::Array { indexes, elem_type }) => {
            if let AnyEntKind::Type(Type::Array { indexes: ix2, .. }) = i {
                assert forall|j: int| 0 <= j < indexes@.len() implies (#[trigger] indexes@[j] is None
                    <==> ix2@[j] is None) by {
                    assert(ix2@[j] == mapped_base(m, indexes@[j]));
                }
            }
        },
        AnyEntKind::Type(Type::Record(rr)) => {
            if let AnyEntKind::Type(Type::Record(rr2)) = i {
                assert forall|j: int| 0 <= j < rr.elems@.len() implies (#[trigger] rr2.elems@[j]).0.related
                    == Related::InstanceOf(rr.elems@[j].0) by {
                    assert(inst_rel(m, rr.elems@[j].0, rr2.elems@[j].0));
                }
            }
        },
        _ => {},
    }
}


/// Analysis of a generic map stops at the first error that resolving the name
/// actual of a type generic gives, whichever error that is.
pub proof fn lemma_type_name_error_stops(
    generics: Seq<GpkgInterfaceEnt>,
    gm: Seq<AssociationElement>,
    answers: Seq<ResolverAnswer>,
    i: int,
    e: EvalError,
)
    requires
        0 <= i < gm.len(),
        0 <= formal_index(generics, gm[i], i) < generics.len(),
        generics[formal_index(generics, gm[i], i)] is Type,
        gm[i].actual.item matches ActualPart::Expression(Expression::Name(_)),
        answers[i].error == Some(e),
        run_state(generics, gm, answers, i).1 is None,
    ensures
        run_result(generics, gm, answers) == Err::<MappingView, EvalError>(e),
{
    assert(run_state(generics, gm, answers, i + 1).1 == Some(e));
    lemma_run_stops(generics, gm, answers, i + 1, gm.len() as int);
}

/// Resolving the name actual of a subprogram or package generic stops the
/// analysis of a generic map where it fails fatally; any other failure, which
/// the resolver has reported, lets the analysis go on with the next element.
pub proof fn lemma_name_errors(
    generics: Seq<GpkgInterfaceEnt>,
    gm: Seq<AssociationElement>,
    answers: Seq<ResolverAnswer>,
    i: int,
)
    requires
        0 <= i < gm.len(),
        0 <= formal_index(generics, gm[i], i) < generics.len(),
        generics[formal_index(generics, gm[i], i)] is Subprogram || generics[formal_index(generics, gm[i], i)] is Package,
        gm[i].actual.item matches ActualPart::Expression(Expression::Name(_)),
        run_state(generics, gm, answers, i).1 is None,
    ensures
        answers[i].error == Some(EvalError::FatalError) ==> run_result(generics, gm, answers) == Err::<
            MappingView,
            EvalError,
        >(EvalError::FatalError),
        answers[i].error != Some(EvalError::FatalError) ==> run_state(generics, gm, answers, i + 1).1 is None
            && run_state(generics, gm, answers, i + 1).0 == run_state(generics, gm, answers, i).0,
{
    if answers[i].error == Some(EvalError::FatalError) {
        assert(run_state(generics, gm, answers, i + 1).1 == Some(EvalError::FatalError));
        lemma_run_stops(generics, gm, answers, i + 1, gm.len() as int);
    }
}

} // verus!
