//! Named entities: the declarations that analysis creates, and the arena that
//! hands out their identities.

use vstd::prelude::*;
use std::rc::Rc;

use crate::design::Design;
use crate::protected::ProtectedBody;
use crate::region::Region;
use crate::syntax::Designator;
use crate::syntax::SrcPos;

verus! {

/// The identity of a named entity.
pub type EntityId = usize;

/// A shared reference to a named entity.
pub type EntRef = Rc<AnyEnt>;

/// How an entity relates to another one.
#[derive(Debug)]
pub enum Related {
    ChildOf(EntRef),
    InstanceOf(EntRef),
    DeclaredBy(EntRef),
    Unrelated,
}

/// A named entity.
#[derive(Debug)]
pub struct AnyEnt {
    pub id: EntityId,
    pub implicits: Vec<EntRef>,
    pub designator: Designator,
    pub related: Related,
    pub decl_pos: Option<SrcPos>,
    pub kind: AnyEntKind,
}

#[derive(Clone, Copy, PartialEq, Eq, Structural, Debug)]
pub enum ObjectClass {
    Signal,
    Constant,
    Variable,
    SharedVariable,
}

#[derive(Clone, Copy, PartialEq, Eq, Structural, Debug)]
pub enum Mode {
    In,
    Out,
    InOut,
    Buffer,
    Linkage,
}

#[derive(Clone, Copy, PartialEq, Eq, Structural, Debug)]
pub enum InterfaceType {
    Port,
    Generic,
    Parameter,
}

#[derive(Clone, Copy, PartialEq, Eq, Structural, Debug)]
pub enum UniversalType {
    Real,
    Integer,
}

/// An entity that is known to be a type.
#[derive(Debug)]
pub struct TypeEnt(pub EntRef);

/// The base type of a type, past its aliases and subtypes.
#[derive(Debug)]
pub struct BaseType(pub TypeEnt);

/// An entity that is known to be an object.
#[derive(Debug)]
pub struct ObjectEnt(pub EntRef);

/// An entity that is known to be overloaded (a subprogram or an enumeration literal).
#[derive(Debug)]
pub struct OverloadedEnt(pub EntRef);

/// An entity that is known to be an interface declaration of a formal region.
#[derive(Debug)]
pub struct InterfaceEnt(pub EntRef);

/// An entity that is known to be an element of a record.
#[derive(Debug)]
pub struct RecordElement(pub EntRef);

#[derive(Debug)]
pub struct Subtype {
    pub type_mark: TypeEnt,
}

#[derive(Debug)]
pub struct Object {
    pub class: ObjectClass,
    pub mode: Option<Mode>,
    pub subtype: Subtype,
    pub has_default: bool,
}

#[derive(Debug)]
pub struct FormalRegion {
    pub typ: InterfaceType,
    pub entities: Vec<InterfaceEnt>,
}

#[derive(Debug)]
pub struct Signature {
    pub formals: FormalRegion,
    pub return_type: Option<TypeEnt>,
}

#[derive(Debug)]
pub enum Overloaded {
    SubprogramDecl(Signature),
    Subprogram(Signature),
    InterfaceSubprogram(Signature),
    EnumLiteral(Signature),
    Alias(OverloadedEnt),
}

#[derive(Debug)]
pub struct RecordRegion {
    pub elems: Vec<RecordElement>,
}

#[derive(Debug)]
pub enum Type {
    Array { indexes: Vec<Option<BaseType>>, elem_type: TypeEnt },
    Enum(Vec<Designator>),
    Integer,
    Real,
    Physical,
    Access(Subtype),
    Record(RecordRegion),
    Subtype(Subtype),
    Protected(Region, ProtectedBody),
    File,
    Alias(TypeEnt),
    Universal(UniversalType),
    Incomplete,
    Interface,
}

#[derive(Debug)]
pub enum AnyEntKind {
    ExternalAlias { class: ObjectClass, type_mark: TypeEnt },
    ObjectAlias { base_object: ObjectEnt, type_mark: TypeEnt },
    File(Subtype),
    InterfaceFile(TypeEnt),
    Component(Region),
    Attribute(TypeEnt),
    Overloaded(Overloaded),
    Type(Type),
    ElementDeclaration(Subtype),
    Label,
    Object(Object),
    LoopParameter(Option<BaseType>),
    PhysicalLiteral(TypeEnt),
    DeferredConstant(Subtype),
    Library,
    Design(Design),
}

/// The words that describe an entity of kind `k`.
pub open spec fn kind_describe_spec(k: AnyEntKind) -> Seq<char> {
    match k {
        AnyEntKind::ExternalAlias { .. } => "external alias"@,
        AnyEntKind::ObjectAlias { .. } => "object alias"@,
        AnyEntKind::File(_) => "file"@,
        AnyEntKind::InterfaceFile(_) => "file"@,
        AnyEntKind::Component(_) => "component"@,
        AnyEntKind::Attribute(_) => "attribute"@,
        AnyEntKind::Overloaded(o) => match o {
            Overloaded::SubprogramDecl(s) => if s.return_type is Some {
                "function"@
            } else {
                "procedure"@
            },
            Overloaded::Subprogram(s) => if s.return_type is Some {
                "function"@
            } else {
                "procedure"@
            },
            Overloaded::InterfaceSubprogram(s) => if s.return_type is Some {
                "interface function"@
            } else {
                "interface procedure"@
            },
            Overloaded::EnumLiteral(_) => "enum literal"@,
            Overloaded::Alias(_) => "alias"@,
        },
        AnyEntKind::Type(t) => match t {
            Type::Array { .. } => "array type"@,
            Type::Integer => "integer type"@,
            Type::Real => "real type"@,
            Type::Physical => "physical type"@,
            Type::Access(_) => "access type"@,
            Type::Record(_) => "record type"@,
            Type::Subtype(_) => "subtype"@,
            Type::Protected(..) => "protected type"@,
            Type::File => "file type"@,
            Type::Alias(_) => "alias"@,
            Type::Universal(_) => "universal type"@,
            _ => "type"@,
        },
        AnyEntKind::ElementDeclaration(_) => "element declaration"@,
        AnyEntKind::Label => "label"@,
        AnyEntKind::Object(o) => match o.class {
            ObjectClass::Signal => "signal"@,
            ObjectClass::Constant => "constant"@,
            ObjectClass::Variable => "variable"@,
            ObjectClass::SharedVariable => "shared variable"@,
        },
        AnyEntKind::LoopParameter(_) => "loop parameter"@,
        AnyEntKind::PhysicalLiteral(_) => "physical literal"@,
        AnyEntKind::DeferredConstant(_) => "deferred constant"@,
        AnyEntKind::Library => "library"@,
        AnyEntKind::Design(d) => crate::design::describe_spec(d),
    }
}

impl AnyEntKind {
    /// The words that describe an entity of this kind.
    pub fn describe(&self) -> (r: &'static str)
        ensures
            r@ == kind_describe_spec(*self),
    {
        match self {
            AnyEntKind::ExternalAlias { .. } => "external alias",
            AnyEntKind::ObjectAlias { .. } => "object alias",
            AnyEntKind::File(_) => "file",
            AnyEntKind::InterfaceFile(_) => "file",
            AnyEntKind::Component(_) => "component",
            AnyEntKind::Attribute(_) => "attribute",
            AnyEntKind::Overloaded(o) => match o {
                Overloaded::SubprogramDecl(s) | Overloaded::Subprogram(s) => if s.return_type.is_some() {
                    "function"
                } else {
                    "procedure"
                },
                Overloaded::InterfaceSubprogram(s) => if s.return_type.is_some() {
                    "interface function"
                } else {
                    "interface procedure"
                },
                Overloaded::EnumLiteral(_) => "enum literal",
                Overloaded::Alias(_) => "alias",
            },
            AnyEntKind::Type(t) => match t {
                Type::Array { .. } => "array type",
                Type::Integer => "integer type",
                Type::Real => "real type",
                Type::Physical => "physical type",
                Type::Access(_) => "access type",
                Type::Record(_) => "record type",
                Type::Subtype(_) => "subtype",
                Type::Protected(..) => "protected type",
                Type::File => "file type",
                Type::Alias(_) => "alias",
                Type::Universal(_) => "universal type",
                _ => "type",
            },
            AnyEntKind::ElementDeclaration(_) => "element declaration",
            AnyEntKind::Label => "label",
            AnyEntKind::Object(o) => match o.class {
                ObjectClass::Signal => "signal",
                ObjectClass::Constant => "constant",
                ObjectClass::Variable => "variable",
                ObjectClass::SharedVariable => "shared variable",
            },
            AnyEntKind::LoopParameter(_) => "loop parameter",
            AnyEntKind::PhysicalLiteral(_) => "physical literal",
            AnyEntKind::DeferredConstant(_) => "deferred constant",
            AnyEntKind::Library => "library",
            AnyEntKind::Design(d) => d.describe(),
        }
    }
}

/// The kind test of `TypeEnt::from_any`.
pub open spec fn is_type_kind(k: AnyEntKind) -> bool {
    k is Type
}

/// The kind test of `ObjectEnt::from_any`.
pub open spec fn is_object_kind(k: AnyEntKind) -> bool {
    k is Object
}

/// The kind test of `OverloadedEnt::from_any`.
pub open spec fn is_overloaded_kind(k: AnyEntKind) -> bool {
    k is Overloaded
}

/// The kind test of `InterfaceEnt::from_any`: an interface object or an interface file.
pub open spec fn is_interface_kind(k: AnyEntKind) -> bool {
    ||| (k matches AnyEntKind::Object(o) && o.mode is Some)
    ||| k is InterfaceFile
}

/// The kind test of `RecordElement::from_any`.
pub open spec fn is_record_element_kind(k: AnyEntKind) -> bool {
    k is ElementDeclaration
}

/// The base type reached from a type by following aliases and subtypes.
pub open spec fn base_of(t: TypeEnt) -> TypeEnt
    decreases t,
{
    match t.0.kind {
        AnyEntKind::Type(Type::Alias(a)) => base_of(a),
        AnyEntKind::Type(Type::Subtype(s)) => base_of(s.type_mark),
        _ => t,
    }
}

/// The base type of a base type is itself.
pub proof fn lemma_base_of_is_base(t: TypeEnt)
    ensures
        base_of(base_of(t)) == base_of(t),
    decreases t,
{
    match t.0.kind {
        AnyEntKind::Type(Type::Alias(a)) => lemma_base_of_is_base(a),
        AnyEntKind::Type(Type::Subtype(s)) => lemma_base_of_is_base(s.type_mark),
        _ => {},
    }
}

impl TypeEnt {
    pub fn from_any(ent: &EntRef) -> (r: Option<TypeEnt>)
        ensures
            r matches Some(t) ==> t.0 == *ent,
            r is Some <==> is_type_kind(ent.kind),
    {
        match ent.kind {
            AnyEntKind::Type(_) => Some(TypeEnt(ent.clone())),
            _ => None,
        }
    }

    pub fn id(&self) -> (r: EntityId)
        ensures
            r == self.0.id,
    {
        self.0.id
    }

    pub fn duplicate(&self) -> (r: TypeEnt)
        ensures
            r == *self,
    {
        TypeEnt(self.0.clone())
    }

    /// The base type: aliases and subtypes are followed to the type they name.
    pub fn base(&self) -> (r: BaseType)
        ensures
            r.0 == base_of(*self),
        decreases self,
    {
        match &self.0.kind {
            AnyEntKind::Type(Type::Alias(a)) => a.base(),
            AnyEntKind::Type(Type::Subtype(s)) => s.type_mark.base(),
            _ => BaseType(self.duplicate()),
        }
    }
}

impl BaseType {
    pub fn duplicate(&self) -> (r: BaseType)
        ensures
            r == *self,
    {
        BaseType(self.0.duplicate())
    }
}

impl From<BaseType> for TypeEnt {
    fn from(b: BaseType) -> (r: TypeEnt) {
        b.0
    }
}

impl vstd::std_specs::convert::FromSpecImpl<BaseType> for TypeEnt {
    open spec fn obeys_from_spec() -> bool {
        true
    }

    open spec fn from_spec(b: BaseType) -> TypeEnt {
        b.0
    }
}

impl ObjectEnt {
    pub fn from_any(ent: &EntRef) -> (r: Option<ObjectEnt>)
        ensures
            r matches Some(o) ==> o.0 == *ent,
            r is Some <==> is_object_kind(ent.kind),
    {
        match ent.kind {
            AnyEntKind::Object(_) => Some(ObjectEnt(ent.clone())),
            _ => None,
        }
    }
}

impl ObjectEnt {
    /// The type mark of the object.
    pub fn type_mark(&self) -> (t: &TypeEnt)
        requires
            is_object_kind(self.0.kind),
        ensures
            self.0.kind matches AnyEntKind::Object(o) && *t == o.subtype.type_mark,
    {
        match &self.0.kind {
            AnyEntKind::Object(o) => &o.subtype.type_mark,
            _ => vstd::pervasive::unreached(),
        }
    }
}

impl OverloadedEnt {
    pub fn from_any(ent: &EntRef) -> (r: Result<OverloadedEnt, EntRef>)
        ensures
            r matches Ok(o) ==> o.0 == *ent,
            r matches Err(e) ==> e == *ent,
            r is Ok <==> is_overloaded_kind(ent.kind),
    {
        match ent.kind {
            AnyEntKind::Overloaded(_) => Ok(OverloadedEnt(ent.clone())),
            _ => Err(ent.clone()),
        }
    }
}

impl InterfaceEnt {
    pub fn from_any(ent: &EntRef) -> (r: Option<InterfaceEnt>)
        ensures
            r matches Some(i) ==> i.0 == *ent,
            r is Some <==> is_interface_kind(ent.kind),
    {
        match &ent.kind {
            AnyEntKind::Object(o) => {
                if o.mode.is_some() {
                    Some(InterfaceEnt(ent.clone()))
                } else {
                    None
                }
            },
            AnyEntKind::InterfaceFile(_) => Some(InterfaceEnt(ent.clone())),
            _ => None,
        }
    }
}

impl RecordElement {
    pub fn from_any(ent: &EntRef) -> (r: Option<RecordElement>)
        ensures
            r matches Some(e) ==> e.0 == *ent,
            r is Some <==> is_record_element_kind(ent.kind),
    {
        match ent.kind {
            AnyEntKind::ElementDeclaration(_) => Some(RecordElement(ent.clone())),
            _ => None,
        }
    }
}

/// Hands out the identities of new entities.
#[derive(Debug)]
pub struct Arena {
    pub next_id: EntityId,
}

impl Arena {
    pub fn new() -> (a: Arena)
        ensures
            a.next_id == 0,
    {
        Arena { next_id: 0 }
    }

    /// Creates an entity with a new identity and no implicit declarations, or
    /// nothing where every identity has been handed out.
    pub fn allocate(
        &mut self,
        designator: Designator,
        related: Related,
        kind: AnyEntKind,
        decl_pos: Option<SrcPos>,
    ) -> (r: Option<AnyEnt>)
        ensures
            old(self).next_id == usize::MAX ==> r is None && final(self).next_id == old(self).next_id,
            old(self).next_id < usize::MAX ==> (r matches Some(ent) && {
                &&& final(self).next_id == old(self).next_id + 1
                &&& ent.id == old(self).next_id
                &&& ent.implicits@.len() == 0
                &&& ent.designator == designator
                &&& ent.related == related
                &&& ent.kind == kind
                &&& ent.decl_pos == decl_pos
            }),
    {
        if self.next_id == usize::MAX {
            return None;
        }
        let id = self.next_id;
        self.next_id = self.next_id + 1;
        Some(AnyEnt { id, implicits: Vec::new(), designator, related, decl_pos, kind })
    }
}

} // verus!
