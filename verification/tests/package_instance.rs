use std::rc::Rc;

use fnv::FnvHashMap;

use vhdl_lang::design::Design;
use vhdl_lang::design::Visibility;
use vhdl_lang::diagnostic::AnalysisError;
use vhdl_lang::diagnostic::Diagnostic;
use vhdl_lang::diagnostic::EvalError;
use vhdl_lang::diagnostic::Message;
use vhdl_lang::named_entity::AnyEnt;
use vhdl_lang::named_entity::AnyEntKind;
use vhdl_lang::named_entity::Arena;
use vhdl_lang::named_entity::BaseType;
use vhdl_lang::named_entity::EntRef;
use vhdl_lang::named_entity::FormalRegion;
use vhdl_lang::named_entity::InterfaceEnt;
use vhdl_lang::named_entity::InterfaceType;
use vhdl_lang::named_entity::Mode;
use vhdl_lang::named_entity::Object;
use vhdl_lang::named_entity::ObjectClass;
use vhdl_lang::named_entity::ObjectEnt;
use vhdl_lang::named_entity::Overloaded;
use vhdl_lang::named_entity::OverloadedEnt;
use vhdl_lang::named_entity::RecordElement;
use vhdl_lang::named_entity::RecordRegion;
use vhdl_lang::named_entity::Related;
use vhdl_lang::named_entity::Signature;
use vhdl_lang::named_entity::Subtype;
use vhdl_lang::named_entity::Type;
use vhdl_lang::named_entity::TypeEnt;
use vhdl_lang::package_instance::AnalyzeContext;
use vhdl_lang::package_instance::InstantiationError;
use vhdl_lang::package_instance::Resolver;
use vhdl_lang::resolution::Resolution;
use vhdl_lang::package_instance::apply_name_answer;
use vhdl_lang::package_instance::apply_type_answer;
use vhdl_lang::package_instance::type_name_target;
use vhdl_lang::syntax::CallOrIndexed;
use vhdl_lang::region::NamedEntities;
use vhdl_lang::region::Region;
use vhdl_lang::region::RegionKind;
use vhdl_lang::syntax::ActualPart;
use vhdl_lang::syntax::AssociationElement;
use vhdl_lang::syntax::Designator;
use vhdl_lang::syntax::Expression;
use vhdl_lang::syntax::Latin1String;
use vhdl_lang::syntax::Literal;
use vhdl_lang::syntax::Name;
use vhdl_lang::syntax::PackageInstantiation;
use vhdl_lang::syntax::SrcPos;
use vhdl_lang::syntax::Symbol;
use vhdl_lang::syntax::WithPos;
use vhdl_lang::syntax::WithRef;
use vhdl_lang::ProtectedBody;

fn pos(n: u64) -> SrcPos {
    SrcPos { source: 1, start: n, end: n + 1 }
}

fn ident(n: usize) -> Designator {
    Designator::Identifier(Symbol { id: n })
}

fn ent_with(id: usize, kind: AnyEntKind, implicits: Vec<EntRef>) -> EntRef {
    Rc::new(AnyEnt {
        id,
        implicits,
        designator: ident(id),
        related: Related::Unrelated,
        decl_pos: Some(pos(id as u64)),
        kind,
    })
}

fn ent(id: usize, kind: AnyEntKind) -> EntRef {
    ent_with(id, kind, Vec::new())
}

fn subtype(t: &EntRef) -> Subtype {
    Subtype { type_mark: TypeEnt(t.clone()) }
}

fn object(id: usize, t: &EntRef, mode: Option<Mode>) -> EntRef {
    ent(
        id,
        AnyEntKind::Object(Object { class: ObjectClass::Constant, mode, subtype: subtype(t), has_default: true }),
    )
}

fn context(next_id: usize) -> AnalyzeContext {
    AnalyzeContext::new(Arena { next_id })
}

fn instantiate_one(
    ctx: &mut AnalyzeContext,
    mapping: &FnvHashMap<usize, EntRef>,
    uninst: &EntRef,
) -> (Region, Vec<Diagnostic>) {
    let mut region = Region::with_kind(RegionKind::PackageDeclaration);
    let mut diagnostics = Vec::new();
    ctx.instantiate_declarations(mapping, &vec![uninst.clone()], &pos(1000), &mut region, &mut diagnostics);
    (region, diagnostics)
}

fn the_instance(region: &Region, d: Designator) -> EntRef {
    match region.lookup_immediate(&d) {
        Some(NamedEntities::Single(e)) => e.clone(),
        other => panic!("unexpected {:?}", other),
    }
}

fn assert_instance_of(inst: &EntRef, uninst: &EntRef) {
    assert_eq!(inst.designator, uninst.designator);
    assert_eq!(inst.decl_pos, uninst.decl_pos);
    match &inst.related {
        Related::InstanceOf(u) => assert!(Rc::ptr_eq(u, uninst)),
        other => panic!("unexpected {:?}", other),
    }
}

#[test]
fn an_object_of_a_generic_type_gets_the_actual_type() {
    let generic = ent(1, AnyEntKind::Type(Type::Interface));
    let integer = ent(2, AnyEntKind::Type(Type::Integer));
    let c = object(3, &generic, None);
    let mut mapping = FnvHashMap::default();
    mapping.insert(1, integer.clone());
    let mut ctx = context(100);
    let (region, diagnostics) = instantiate_one(&mut ctx, &mapping, &c);
    assert!(diagnostics.is_empty());
    let inst = the_instance(&region, ident(3));
    assert_instance_of(&inst, &c);
    assert_eq!(inst.id, 100);
    assert_eq!(ctx.arena.next_id, 101);
    match &inst.kind {
        AnyEntKind::Object(o) => {
            assert!(Rc::ptr_eq(&o.subtype.type_mark.0, &integer));
            assert_eq!(o.class, ObjectClass::Constant);
            assert!(o.has_default);
            assert_eq!(o.mode, None);
        },
        other => panic!("unexpected {:?}", other),
    }
}

#[test]
fn a_type_mark_that_is_not_generic_stays() {
    let integer = ent(2, AnyEntKind::Type(Type::Integer));
    let c = object(3, &integer, None);
    let mapping = FnvHashMap::default();
    let mut ctx = context(0);
    let (region, diagnostics) = instantiate_one(&mut ctx, &mapping, &c);
    assert!(diagnostics.is_empty());
    let inst = the_instance(&region, ident(3));
    match &inst.kind {
        AnyEntKind::Object(o) => assert!(Rc::ptr_eq(&o.subtype.type_mark.0, &integer)),
        other => panic!("unexpected {:?}", other),
    }
}

#[test]
fn a_generic_type_mapped_to_something_else_is_reported() {
    let generic = ent(1, AnyEntKind::Type(Type::Interface));
    let label = ent(2, AnyEntKind::Label);
    let c = object(3, &generic, None);
    let mut mapping = FnvHashMap::default();
    mapping.insert(1, label.clone());
    let mut ctx = context(0);
    let (region, diagnostics) = instantiate_one(&mut ctx, &mapping, &c);
    assert!(region.entities.is_empty());
    assert_eq!(diagnostics.len(), 1);
    assert_eq!(diagnostics[0].pos, pos(1000));
    assert_eq!(diagnostics[0].related, vec![(pos(3), "When instantiating this declaration".to_string())]);
    match &diagnostics[0].message {
        Message::Instantiation(InstantiationError::ExpectedType(e)) => assert!(Rc::ptr_eq(e, &label)),
        other => panic!("unexpected {:?}", other),
    }
}

#[test]
fn a_declaration_without_position_is_reported_without_related_position() {
    let generic = ent(1, AnyEntKind::Type(Type::Interface));
    let label = ent(2, AnyEntKind::Label);
    let c = Rc::new(AnyEnt {
        id: 3,
        implicits: Vec::new(),
        designator: ident(3),
        related: Related::Unrelated,
        decl_pos: None,
        kind: AnyEntKind::File(subtype(&generic)),
    });
    let mut mapping = FnvHashMap::default();
    mapping.insert(1, label);
    let mut ctx = context(0);
    let (_, diagnostics) = instantiate_one(&mut ctx, &mapping, &c);
    assert_eq!(diagnostics.len(), 1);
    assert!(diagnostics[0].related.is_empty());
}

#[test]
fn only_package_instances_among_design_units_are_instantiated() {
    let pkg = ent(
        1,
        AnyEntKind::Design(Design::Package(Visibility { visible: Vec::new() }, Region::with_kind(RegionKind::Other))),
    );
    let mut ctx = context(0);
    let (region, diagnostics) = instantiate_one(&mut ctx, &FnvHashMap::default(), &pkg);
    assert!(region.entities.is_empty());
    match &diagnostics[0].message {
        Message::Instantiation(InstantiationError::UnexpectedDesign(text)) => assert_eq!(*text, "package"),
        other => panic!("unexpected {:?}", other),
    }

    let integer = ent(2, AnyEntKind::Type(Type::Integer));
    let mut inner = Region::with_kind(RegionKind::PackageDeclaration);
    inner.add(object(3, &integer, None));
    let inst_pkg = ent(4, AnyEntKind::Design(Design::PackageInstance(inner)));
    let (region, diagnostics) = instantiate_one(&mut ctx, &FnvHashMap::default(), &inst_pkg);
    assert!(diagnostics.is_empty());
    let inst = the_instance(&region, ident(4));
    match &inst.kind {
        AnyEntKind::Design(Design::PackageInstance(r)) => {
            assert_eq!(r.kind, RegionKind::PackageDeclaration);
            let c = the_instance(r, ident(3));
            assert!(matches!(&c.related, Related::InstanceOf(u) if u.id == 3));
        },
        other => panic!("unexpected {:?}", other),
    }
}

#[test]
fn a_subprogram_gets_instantiated_formals_and_return_type() {
    let generic = ent(1, AnyEntKind::Type(Type::Interface));
    let integer = ent(2, AnyEntKind::Type(Type::Integer));
    let formal = object(3, &generic, Some(Mode::In));
    let func = ent(
        4,
        AnyEntKind::Overloaded(Overloaded::Subprogram(Signature {
            formals: FormalRegion {
                typ: InterfaceType::Parameter,
                entities: vec![InterfaceEnt::from_any(&formal).unwrap()],
            },
            return_type: Some(TypeEnt(generic.clone())),
        })),
    );
    let mut mapping = FnvHashMap::default();
    mapping.insert(1, integer.clone());
    let mut ctx = context(10);
    let (region, diagnostics) = instantiate_one(&mut ctx, &mapping, &func);
    assert!(diagnostics.is_empty());
    assert_eq!(ctx.arena.next_id, 12);
    match region.lookup_immediate(&ident(4)) {
        Some(NamedEntities::Overloaded(o)) => {
            let inst = &o.entities[0].0;
            assert_instance_of(inst, &func);
            match &inst.kind {
                AnyEntKind::Overloaded(Overloaded::Subprogram(sig)) => {
                    assert_eq!(sig.formals.typ, InterfaceType::Parameter);
                    assert_eq!(sig.formals.entities.len(), 1);
                    let f = &sig.formals.entities[0].0;
                    assert_instance_of(f, &formal);
                    assert!(matches!(&f.kind, AnyEntKind::Object(o) if Rc::ptr_eq(&o.subtype.type_mark.0, &integer)));
                    assert!(Rc::ptr_eq(&sig.return_type.as_ref().unwrap().0, &integer));
                },
                other => panic!("unexpected {:?}", other),
            }
        },
        other => panic!("unexpected {:?}", other),
    }
}

#[test]
fn a_formal_that_is_not_an_interface_is_an_internal_error() {
    let integer = ent(2, AnyEntKind::Type(Type::Integer));
    let not_formal = object(3, &integer, None);
    let func = ent(
        4,
        AnyEntKind::Overloaded(Overloaded::EnumLiteral(Signature {
            formals: FormalRegion { typ: InterfaceType::Parameter, entities: vec![InterfaceEnt(not_formal)] },
            return_type: None,
        })),
    );
    let mut ctx = context(0);
    let (_, diagnostics) = instantiate_one(&mut ctx, &FnvHashMap::default(), &func);
    assert!(matches!(diagnostics[0].message, Message::Instantiation(InstantiationError::ExpectedInterface)));
}

#[test]
fn alias_checks_of_instances() {
    let integer = ent(2, AnyEntKind::Type(Type::Integer));
    let c = object(3, &integer, None);
    let alias = ent(4, AnyEntKind::ObjectAlias { base_object: ObjectEnt(c.clone()), type_mark: TypeEnt(integer.clone()) });
    let mut ctx = context(0);
    let (region, diagnostics) = instantiate_one(&mut ctx, &FnvHashMap::default(), &alias);
    assert!(diagnostics.is_empty());
    let inst = the_instance(&region, ident(4));
    match &inst.kind {
        AnyEntKind::ObjectAlias { base_object, type_mark } => {
            assert_instance_of(&base_object.0, &c);
            assert!(Rc::ptr_eq(&type_mark.0, &integer));
        },
        other => panic!("unexpected {:?}", other),
    }
    assert_eq!(ctx.arena.next_id, 2);

    let bad = ent(5, AnyEntKind::ObjectAlias { base_object: ObjectEnt(integer.clone()), type_mark: TypeEnt(integer.clone()) });
    let (_, diagnostics) = instantiate_one(&mut ctx, &FnvHashMap::default(), &bad);
    assert!(matches!(diagnostics[0].message, Message::Instantiation(InstantiationError::ExpectedObject)));

    let bad = ent(6, AnyEntKind::Overloaded(Overloaded::Alias(OverloadedEnt(integer.clone()))));
    let (_, diagnostics) = instantiate_one(&mut ctx, &FnvHashMap::default(), &bad);
    assert!(matches!(diagnostics[0].message, Message::Instantiation(InstantiationError::ExpectedOverloaded)));
}

#[test]
fn composite_types_are_instantiated() {
    let generic = ent(1, AnyEntKind::Type(Type::Interface));
    let integer = ent(2, AnyEntKind::Type(Type::Integer));
    let natural = ent(3, AnyEntKind::Type(Type::Subtype(subtype(&integer))));
    let array = ent(
        4,
        AnyEntKind::Type(Type::Array { indexes: vec![Some(BaseType(TypeEnt(generic.clone()))), None], elem_type: TypeEnt(generic.clone()) }),
    );
    let elem = ent(5, AnyEntKind::ElementDeclaration(subtype(&generic)));
    let record = ent(6, AnyEntKind::Type(Type::Record(RecordRegion { elems: vec![RecordElement::from_any(&elem).unwrap()] })));
    let mut mapping = FnvHashMap::default();
    mapping.insert(1, natural.clone());
    let mut ctx = context(0);

    let (region, diagnostics) = instantiate_one(&mut ctx, &mapping, &array);
    assert!(diagnostics.is_empty());
    match &the_instance(&region, ident(4)).kind {
        AnyEntKind::Type(Type::Array { indexes, elem_type }) => {
            assert_eq!(indexes.len(), 2);
            assert!(Rc::ptr_eq(&(indexes[0].as_ref().unwrap().0).0, &integer));
            assert!(indexes[1].is_none());
            assert!(Rc::ptr_eq(&elem_type.0, &natural));
        },
        other => panic!("unexpected {:?}", other),
    }

    let (region, diagnostics) = instantiate_one(&mut ctx, &mapping, &record);
    assert!(diagnostics.is_empty());
    match &the_instance(&region, ident(6)).kind {
        AnyEntKind::Type(Type::Record(r)) => {
            assert_eq!(r.elems.len(), 1);
            assert_instance_of(&r.elems[0].0, &elem);
            assert!(matches!(&r.elems[0].0.kind, AnyEntKind::ElementDeclaration(s) if Rc::ptr_eq(&s.type_mark.0, &natural)));
        },
        other => panic!("unexpected {:?}", other),
    }

    let bad = ent(7, AnyEntKind::Type(Type::Record(RecordRegion { elems: vec![RecordElement(integer.clone())] })));
    let (_, diagnostics) = instantiate_one(&mut ctx, &mapping, &bad);
    assert!(matches!(diagnostics[0].message, Message::Instantiation(InstantiationError::ExpectedRecordElement)));
}

#[test]
fn enums_and_protected_types_are_copied() {
    let e = ent(1, AnyEntKind::Type(Type::Enum(vec![ident(8), Designator::Character(b'x')])));
    let integer = ent(2, AnyEntKind::Type(Type::Integer));
    let c = object(3, &integer, None);
    let mut body = Region::with_kind(RegionKind::Other);
    body.add(c.clone());
    let p = ent(4, AnyEntKind::Type(Type::Protected(body, ProtectedBody::empty())));
    let mut ctx = context(0);
    let (region, _) = instantiate_one(&mut ctx, &FnvHashMap::default(), &e);
    assert!(matches!(&the_instance(&region, ident(1)).kind, AnyEntKind::Type(Type::Enum(s)) if *s == vec![ident(8), Designator::Character(b'x')]));
    let (region, diagnostics) = instantiate_one(&mut ctx, &FnvHashMap::default(), &p);
    assert!(diagnostics.is_empty());
    match &the_instance(&region, ident(4)).kind {
        AnyEntKind::Type(Type::Protected(r, _)) => {
            assert_eq!(r.kind, RegionKind::Other);
            assert_instance_of(&the_instance(r, ident(3)), &c);
        },
        other => panic!("unexpected {:?}", other),
    }
}

#[test]
fn the_instance_of_a_region_is_built_by_adding_each_instance() {
    let integer = ent(2, AnyEntKind::Type(Type::Integer));
    let first = object(3, &integer, None);
    let second = object(3, &integer, Some(Mode::In));
    let other = object(4, &integer, None);
    let written = Region {
        entities: vec![
            (ident(3), NamedEntities::Single(first.clone())),
            (ident(4), NamedEntities::Single(other.clone())),
            (ident(3), NamedEntities::Single(second.clone())),
        ],
        kind: RegionKind::Other,
    };
    let component = ent(5, AnyEntKind::Component(written));
    let mut ctx = context(10);
    let (region, diagnostics) = instantiate_one(&mut ctx, &FnvHashMap::default(), &component);
    assert!(diagnostics.is_empty());
    assert_eq!(ctx.arena.next_id, 14);
    match &the_instance(&region, ident(5)).kind {
        AnyEntKind::Component(r) => {
            assert_eq!(r.kind, RegionKind::Other);
            assert_eq!(r.entities.len(), 2);
            assert_eq!(r.entities[0].0, ident(3));
            assert_eq!(r.entities[1].0, ident(4));
            let kept = the_instance(r, ident(3));
            assert_instance_of(&kept, &first);
            assert_eq!(kept.id, 10);
            assert_instance_of(&the_instance(r, ident(4)), &other);
        },
        other => panic!("unexpected {:?}", other),
    }
}

#[test]
fn implicit_declarations_are_instantiated_after_the_declaration() {
    let generic = ent(1, AnyEntKind::Type(Type::Interface));
    let integer = ent(2, AnyEntKind::Type(Type::Integer));
    let imp = ent(3, AnyEntKind::Attribute(TypeEnt(generic.clone())));
    let t = ent_with(4, AnyEntKind::Type(Type::Access(subtype(&generic))), vec![imp.clone()]);
    let mut mapping = FnvHashMap::default();
    mapping.insert(1, integer.clone());
    let mut ctx = context(50);
    let (region, diagnostics) = instantiate_one(&mut ctx, &mapping, &t);
    assert!(diagnostics.is_empty());
    let inst = the_instance(&region, ident(4));
    assert_eq!(inst.id, 50);
    assert_eq!(inst.implicits.len(), 1);
    assert_eq!(inst.implicits[0].id, 51);
    assert_instance_of(&inst.implicits[0], &imp);
    assert!(matches!(&inst.implicits[0].kind, AnyEntKind::Attribute(a) if Rc::ptr_eq(&a.0, &integer)));
    assert!(matches!(&inst.kind, AnyEntKind::Type(Type::Access(s)) if Rc::ptr_eq(&s.type_mark.0, &integer)));
}

#[test]
fn running_out_of_identities_is_reported() {
    let label = ent(1, AnyEntKind::Label);
    let mut ctx = context(usize::MAX);
    let (region, diagnostics) = instantiate_one(&mut ctx, &FnvHashMap::default(), &label);
    assert!(region.entities.is_empty());
    assert!(matches!(diagnostics[0].message, Message::Instantiation(InstantiationError::ArenaExhausted)));
}

#[test]
fn each_declaration_is_instantiated_or_reported() {
    let generic = ent(1, AnyEntKind::Type(Type::Interface));
    let label = ent(2, AnyEntKind::Label);
    let a = object(3, &generic, None);
    let b = ent(4, AnyEntKind::Library);
    let c = ent(5, AnyEntKind::LoopParameter(Some(BaseType(TypeEnt(generic.clone())))));
    let mut mapping = FnvHashMap::default();
    mapping.insert(1, label);
    let mut ctx = context(0);
    let mut region = Region::with_kind(RegionKind::Other);
    let mut diagnostics = vec![Diagnostic::error(&pos(1), Message::Text("earlier".to_string()))];
    ctx.instantiate_declarations(&mapping, &vec![a, b, c], &pos(7), &mut region, &mut diagnostics);
    assert_eq!(region.entities.len(), 1);
    assert_eq!(diagnostics.len(), 3);
    assert!(matches!(&diagnostics[0].message, Message::Text(t) if t == "earlier"));
    assert_eq!(region.entities.len() + diagnostics.len() - 1, 3);
    assert!(matches!(diagnostics[1].message, Message::Instantiation(InstantiationError::ExpectedType(_))));
    assert!(matches!(diagnostics[2].message, Message::Instantiation(InstantiationError::ExpectedType(_))));
    assert_eq!(region.kind, RegionKind::Other);
}

// ---------------------------------------------------------------------------
// Instantiation of a whole package.
// ---------------------------------------------------------------------------

struct TestResolver {
    package: Option<Result<Region, AnalysisError>>,
    types: Vec<Result<TypeEnt, EvalError>>,
    type_positions: Vec<SrcPos>,
    checked: usize,
    resolved: usize,
}

impl Resolver for TestResolver {
    fn analyze_package_instance_name(&mut self, _package_name: &mut WithPos<Name>) -> Result<Region, AnalysisError> {
        self.package.take().unwrap()
    }

    fn resolve_type_name(&mut self, pos: &SrcPos, _name: &mut Name, _diagnostics: &mut Vec<Diagnostic>) -> Result<TypeEnt, EvalError> {
        self.type_positions.push(*pos);
        self.types.remove(0)
    }

    fn expr_pos_with_ttyp(
        &mut self,
        _ttyp: &TypeEnt,
        _pos: &SrcPos,
        _expr: &mut Expression,
        _diagnostics: &mut Vec<Diagnostic>,
    ) -> Result<(), EvalError> {
        self.checked += 1;
        Ok(())
    }

    fn name_resolve(&mut self, _pos: &SrcPos, _name: &mut Name, _diagnostics: &mut Vec<Diagnostic>) -> Result<(), EvalError> {
        self.resolved += 1;
        Ok(())
    }
}

fn resolver(package: Result<Region, AnalysisError>, types: Vec<Result<TypeEnt, EvalError>>) -> TestResolver {
    TestResolver { package: Some(package), types, type_positions: Vec::new(), checked: 0, resolved: 0 }
}

fn name_of(n: usize) -> Name {
    Name::Designator(WithRef { item: ident(n), reference: None })
}

fn named(formal: usize, actual: ActualPart, at: u64) -> AssociationElement {
    AssociationElement {
        formal: Some(WithPos { item: name_of(formal), pos: pos(at) }),
        actual: WithPos { item: actual, pos: pos(at + 1) },
    }
}

fn positional(actual: ActualPart, at: u64) -> AssociationElement {
    AssociationElement { formal: None, actual: WithPos { item: actual, pos: pos(at) } }
}

fn name_actual(n: usize) -> ActualPart {
    ActualPart::Expression(Expression::Name(Box::new(name_of(n))))
}

fn unit(generic_map: Option<Vec<AssociationElement>>) -> PackageInstantiation {
    PackageInstantiation {
        ident: WithPos { item: Symbol { id: 99 }, pos: pos(900) },
        package_name: WithPos { item: name_of(98), pos: pos(901) },
        generic_map,
    }
}

/// package p is generic (type t; constant c : t; function f return t; package q);
///   constant k : t; end package;
fn generic_package() -> (Region, EntRef, EntRef) {
    let t = ent(1, AnyEntKind::Type(Type::Interface));
    let c = object(2, &t, Some(Mode::In));
    let f = ent(
        3,
        AnyEntKind::Overloaded(Overloaded::InterfaceSubprogram(Signature {
            formals: FormalRegion { typ: InterfaceType::Parameter, entities: Vec::new() },
            return_type: Some(TypeEnt(t.clone())),
        })),
    );
    let q = ent(4, AnyEntKind::Design(Design::PackageInstance(Region::with_kind(RegionKind::Other))));
    let k = object(5, &t, None);
    let mut region = Region::with_kind(RegionKind::PackageDeclaration);
    for e in [t.clone(), c, f, q, k.clone()] {
        region.add(e);
    }
    (region, t, k)
}

fn k_type(region: &Region) -> EntRef {
    match &the_instance(region, ident(5)).kind {
        AnyEntKind::Object(o) => o.subtype.type_mark.0.clone(),
        other => panic!("unexpected {:?}", other),
    }
}

#[test]
fn package_instance_maps_a_named_type_generic() {
    let (pkg, _, k) = generic_package();
    let integer = ent(10, AnyEntKind::Type(Type::Integer));
    let mut r = Resolution::new(resolver(Ok(pkg), vec![Ok(TypeEnt(integer.clone()))]));
    let mut u = unit(Some(vec![named(1, name_actual(20), 30)]));
    let mut ctx = context(100);
    let mut diagnostics = Vec::new();
    let region = ctx.generic_package_instance(&mut r, &mut u, &mut diagnostics).unwrap();
    assert!(diagnostics.is_empty());
    assert_eq!(region.kind, RegionKind::PackageDeclaration);
    assert_eq!(region.entities.len(), 1);
    assert_instance_of(&the_instance(&region, ident(5)), &k);
    assert!(Rc::ptr_eq(&k_type(&region), &integer));
    assert_eq!(r.resolver().type_positions, vec![pos(31)]);
    let map = u.generic_map.unwrap();
    match &map[0].formal.as_ref().unwrap().item {
        Name::Designator(d) => assert_eq!(d.reference, Some(1)),
        other => panic!("unexpected {:?}", other),
    }
}

#[test]
fn package_instance_maps_a_positional_type_generic() {
    let (pkg, _, _) = generic_package();
    let integer = ent(10, AnyEntKind::Type(Type::Integer));
    let mut r = Resolution::new(resolver(Ok(pkg), vec![Ok(TypeEnt(integer.clone()))]));
    let mut u = unit(Some(vec![positional(name_actual(20), 30)]));
    let mut ctx = context(0);
    let mut diagnostics = Vec::new();
    let region = ctx.generic_package_instance(&mut r, &mut u, &mut diagnostics).unwrap();
    assert!(diagnostics.is_empty());
    assert!(Rc::ptr_eq(&k_type(&region), &integer));
}

#[test]
fn an_open_actual_leaves_the_type_generic_unmapped() {
    let (pkg, t, _) = generic_package();
    let mut r = Resolution::new(resolver(Ok(pkg), vec![]));
    let mut u = unit(Some(vec![named(1, ActualPart::Open, 30)]));
    let mut ctx = context(0);
    let mut diagnostics = Vec::new();
    let region = ctx.generic_package_instance(&mut r, &mut u, &mut diagnostics).unwrap();
    assert!(diagnostics.is_empty());
    assert!(r.resolver().type_positions.is_empty());
    assert!(Rc::ptr_eq(&k_type(&region), &t));
}

#[test]
fn the_last_association_of_a_type_generic_wins() {
    let (pkg, _, _) = generic_package();
    let integer = ent(10, AnyEntKind::Type(Type::Integer));
    let real = ent(11, AnyEntKind::Type(Type::Real));
    let mut r = Resolution::new(resolver(Ok(pkg), vec![Ok(TypeEnt(integer.clone())), Ok(TypeEnt(real.clone()))]));
    let mut u = unit(Some(vec![positional(name_actual(20), 30), named(1, name_actual(21), 40)]));
    let mut ctx = context(0);
    let mut diagnostics = Vec::new();
    let region = ctx.generic_package_instance(&mut r, &mut u, &mut diagnostics).unwrap();
    assert!(diagnostics.is_empty());
    assert_eq!(r.resolver().type_positions, vec![pos(30), pos(41)]);
    assert!(Rc::ptr_eq(&k_type(&region), &real));
}

#[test]
fn package_instance_without_generic_map_keeps_the_generic_type() {
    let (pkg, t, _) = generic_package();
    let mut r = Resolution::new(resolver(Ok(pkg), vec![]));
    let mut u = unit(None);
    let mut ctx = context(0);
    let mut diagnostics = Vec::new();
    let region = ctx.generic_package_instance(&mut r, &mut u, &mut diagnostics).unwrap();
    assert!(diagnostics.is_empty());
    assert!(Rc::ptr_eq(&k_type(&region), &t));
}

#[test]
fn a_slice_or_indexed_name_maps_its_prefix() {
    let (pkg, _, _) = generic_package();
    let integer = ent(10, AnyEntKind::Type(Type::Integer));
    let slice = ActualPart::Expression(Expression::Name(Box::new(Name::Slice(Box::new(WithPos {
        item: name_of(20),
        pos: pos(50),
    })))));
    let mut r = Resolution::new(resolver(Ok(pkg), vec![Ok(TypeEnt(integer.clone()))]));
    let mut u = unit(Some(vec![named(1, slice, 30)]));
    let mut ctx = context(0);
    let mut diagnostics = Vec::new();
    ctx.generic_package_instance(&mut r, &mut u, &mut diagnostics).unwrap();
    assert_eq!(r.resolver().type_positions, vec![pos(50)]);
}

#[test]
fn generic_map_reports_bad_formals_and_actuals() {
    let (pkg, _, _) = generic_package();
    let selected = AssociationElement {
        formal: Some(WithPos {
            item: Name::Selected(
                Box::new(WithPos { item: name_of(1), pos: pos(60) }),
                WithPos { item: WithRef { item: ident(2), reference: None }, pos: pos(61) },
            ),
            pos: pos(62),
        }),
        actual: WithPos { item: name_actual(20), pos: pos(63) },
    };
    let literal = |s: &str| ActualPart::Expression(Expression::Literal(Literal::String(Latin1String { bytes: s.as_bytes().to_vec() })));
    let mut r = Resolution::new(resolver(Ok(pkg), vec![]));
    let mut u = unit(Some(vec![
        named(77, name_actual(20), 10),
        selected,
        named(1, literal("x"), 20),
        named(3, literal("+"), 30),
        named(3, literal("foo"), 40),
        named(3, ActualPart::Expression(Expression::Literal(Literal::Null)), 50),
        named(4, ActualPart::Expression(Expression::Literal(Literal::Null)), 70),
        named(3, name_actual(21), 80),
        named(4, name_actual(22), 90),
        named(2, name_actual(23), 100),
        named(2, ActualPart::Open, 110),
        positional(name_actual(24), 120),
        positional(name_actual(25), 130),
        positional(name_actual(26), 140),
        positional(name_actual(27), 150),
        positional(name_actual(28), 160),
        positional(name_actual(29), 170),
        positional(name_actual(30), 180),
        positional(name_actual(31), 190),
        positional(name_actual(32), 200),
        positional(name_actual(33), 210),
        positional(name_actual(34), 220),
        positional(name_actual(35), 230),
    ]));
    let mut ctx = context(0);
    let mut diagnostics = Vec::new();
    let result = ctx.generic_package_instance(&mut r, &mut u, &mut diagnostics);
    // The positional associations stand at places 12 to 23, past the four generics.
    assert!(result.is_ok());
    let texts: Vec<(SrcPos, String)> = diagnostics
        .iter()
        .map(|d| match &d.message {
            Message::Text(t) => (d.pos, t.clone()),
            Message::NoDeclaration { .. } => (d.pos, "no declaration".to_string()),
            other => panic!("unexpected {:?}", other),
        })
        .collect();
    assert_eq!(texts[0], (pos(10), "no declaration".to_string()));
    assert_eq!(texts[1], (pos(62), "Expected simple name for package generic formal".to_string()));
    assert_eq!(texts[2], (pos(21), "Cannot map expression to type generic".to_string()));
    assert_eq!(texts[3], (pos(41), "Invalid operator symbol".to_string()));
    assert_eq!(texts[4], (pos(51), "Cannot map expression to subprogram generic".to_string()));
    assert_eq!(texts[5], (pos(71), "Cannot map expression to package generic".to_string()));
    assert_eq!(r.resolver().resolved, 2);
    assert_eq!(r.resolver().checked, 1);
    assert!(texts[6..].iter().all(|t| t.1 == "Extra actual for generic map"));
    assert_eq!(texts.len(), 6 + 12);
}

#[test]
fn a_failing_type_name_stops_the_instantiation() {
    let (pkg, _, _) = generic_package();
    let mut r = Resolution::new(resolver(Ok(pkg), vec![Err(EvalError::Unknown)]));
    let mut u = unit(Some(vec![named(1, name_actual(20), 30)]));
    let mut ctx = context(0);
    let mut diagnostics = Vec::new();
    assert_eq!(ctx.generic_package_instance(&mut r, &mut u, &mut diagnostics).unwrap_err(), EvalError::Unknown);
    assert_eq!(ctx.arena.next_id, 0);
}

#[test]
fn an_unknown_package_is_reported() {
    let d = Diagnostic::error(&pos(5), Message::Text("no such package".to_string()));
    let mut r = Resolution::new(resolver(Err(AnalysisError::NotFatal(d)), vec![]));
    let mut u = unit(None);
    let mut ctx = context(0);
    let mut diagnostics = Vec::new();
    assert_eq!(ctx.generic_package_instance(&mut r, &mut u, &mut diagnostics).unwrap_err(), EvalError::Unknown);
    assert_eq!(diagnostics.len(), 1);
    assert_eq!(diagnostics[0].pos, pos(5));

    let mut r = Resolution::new(resolver(Err(AnalysisError::Fatal), vec![]));
    let mut diagnostics = Vec::new();
    assert_eq!(ctx.generic_package_instance(&mut r, &mut u, &mut diagnostics).unwrap_err(), EvalError::FatalError);
    assert!(diagnostics.is_empty());
}

#[test]
fn instantiate_package_reports_what_resolving_the_name_gave() {
    let d = Diagnostic::error(&pos(6), Message::Text("no such package".to_string()));
    let mut r = Resolution::new(resolver(Err(AnalysisError::Fatal), vec![]));
    let mut u = unit(None);
    let mut ctx = context(0);
    let mut diagnostics = vec![Diagnostic::error(&pos(1), Message::Text("earlier".to_string()))];
    let res = ctx.instantiate_package(&mut r, Err(AnalysisError::NotFatal(d)), &mut u, &mut diagnostics);
    assert_eq!(res.unwrap_err(), EvalError::Unknown);
    assert_eq!(diagnostics.len(), 2);
    assert_eq!(diagnostics[1].pos, pos(6));
    let res = ctx.instantiate_package(&mut r, Err(AnalysisError::Fatal), &mut u, &mut diagnostics);
    assert_eq!(res.unwrap_err(), EvalError::FatalError);
    assert_eq!(diagnostics.len(), 2);
}

#[test]
fn instantiate_package_succeeds_without_resolver_questions() {
    let (pkg, t, k) = generic_package();
    let mut r = Resolution::new(resolver(Err(AnalysisError::Fatal), vec![]));
    let mut u = unit(Some(vec![named(1, ActualPart::Open, 30), positional(ActualPart::Open, 40)]));
    let mut ctx = context(50);
    let mut diagnostics = Vec::new();
    let region = ctx.instantiate_package(&mut r, Ok(pkg), &mut u, &mut diagnostics).unwrap();
    assert!(diagnostics.is_empty());
    assert_eq!(region.kind, RegionKind::PackageDeclaration);
    assert_instance_of(&the_instance(&region, ident(5)), &k);
    assert!(Rc::ptr_eq(&k_type(&region), &t));
    assert_eq!(r.resolver().checked + r.resolver().resolved + r.resolver().type_positions.len(), 0);
}

#[test]
fn a_constant_actual_is_checked_by_the_resolver() {
    let (pkg, _, _) = generic_package();
    let mut r = Resolution::new(resolver(Err(AnalysisError::Fatal), vec![]));
    let mut u = unit(Some(vec![named(1, ActualPart::Open, 30), named(2, name_actual(20), 40)]));
    let mut ctx = context(0);
    let mut diagnostics = Vec::new();
    let region = ctx.instantiate_package(&mut r, Ok(pkg), &mut u, &mut diagnostics);
    assert!(region.is_ok());
    assert_eq!(r.resolver().checked, 1);
}

#[test]
fn instantiation_errors_have_texts() {
    assert_eq!(
        InstantiationError::ExpectedObject.text(),
        "Internal error, expected instantiated object to be object"
    );
    assert_eq!(
        InstantiationError::ExpectedOverloaded.text(),
        "Internal error, expected overloaded when instantiating overloaded entity"
    );
    assert_eq!(
        InstantiationError::ExpectedInterface.text(),
        "Internal error, expected interface to be instantiated as interface"
    );
    assert_eq!(
        InstantiationError::ExpectedRecordElement.text(),
        "Internal error, expected instantiated record element to be record element"
    );
    assert_eq!(
        InstantiationError::UnexpectedDesign("entity").text(),
        "Internal error, did not expect to instantiate entity"
    );
    assert_eq!(
        InstantiationError::ExpectedType(ent(1, AnyEntKind::Label)).text(),
        "Internal error when mapping type, expected type got label"
    );
    assert_eq!(InstantiationError::ArenaExhausted.text(), "Internal error, no entity identities are left");
}

/// Answers every question with an error, after reporting it.
struct FailingResolver {
    asked: usize,
    error: EvalError,
}

impl Resolver for FailingResolver {
    fn analyze_package_instance_name(&mut self, _package_name: &mut WithPos<Name>) -> Result<Region, AnalysisError> {
        Err(AnalysisError::Fatal)
    }

    fn resolve_type_name(&mut self, pos: &SrcPos, _name: &mut Name, diagnostics: &mut Vec<Diagnostic>) -> Result<TypeEnt, EvalError> {
        self.asked += 1;
        diagnostics.push(Diagnostic::error(pos, Message::Text("no such type".to_string())));
        Err(self.error)
    }

    fn expr_pos_with_ttyp(
        &mut self,
        _ttyp: &TypeEnt,
        pos: &SrcPos,
        _expr: &mut Expression,
        diagnostics: &mut Vec<Diagnostic>,
    ) -> Result<(), EvalError> {
        self.asked += 1;
        diagnostics.push(Diagnostic::error(pos, Message::Text("bad expression".to_string())));
        Err(self.error)
    }

    fn name_resolve(&mut self, pos: &SrcPos, _name: &mut Name, diagnostics: &mut Vec<Diagnostic>) -> Result<(), EvalError> {
        self.asked += 1;
        diagnostics.push(Diagnostic::error(pos, Message::Text("no such name".to_string())));
        Err(self.error)
    }
}

#[test]
fn the_resolvers_error_is_passed_on_and_later_elements_are_left_alone() {
    let (pkg, _, _) = generic_package();
    let mut r = Resolution::new(FailingResolver { asked: 0, error: EvalError::Unknown });
    let mut u = unit(Some(vec![
        named(9, ActualPart::Open, 10),
        named(1, name_actual(20), 30),
        named(2, name_actual(21), 40),
    ]));
    let mut ctx = context(0);
    let mut diagnostics = Vec::new();
    let res = ctx.instantiate_package(&mut r, Ok(pkg), &mut u, &mut diagnostics);
    assert_eq!(res.unwrap_err(), EvalError::Unknown);
    assert_eq!(r.resolver().asked, 1);
    assert_eq!(ctx.arena.next_id, 0);
    assert_eq!(diagnostics.len(), 2);
    assert!(matches!(diagnostics[0].message, Message::NoDeclaration { .. }));
    assert_eq!(diagnostics[1].pos, pos(31));
    assert!(matches!(&diagnostics[1].message, Message::Text(t) if t == "no such type"));
    let map = u.generic_map.unwrap();
    match &map[2].formal.as_ref().unwrap().item {
        Name::Designator(d) => assert_eq!(d.reference, None),
        other => panic!("unexpected {:?}", other),
    }
}

#[test]
fn a_non_fatal_name_error_does_not_stop_the_generic_map() {
    let (pkg, t, _) = generic_package();
    let mut r = Resolution::new(FailingResolver { asked: 0, error: EvalError::Unknown });
    let mut u = unit(Some(vec![named(3, name_actual(22), 50), named(4, name_actual(23), 60)]));
    let mut ctx = context(0);
    let mut diagnostics = Vec::new();
    let region = ctx.instantiate_package(&mut r, Ok(pkg), &mut u, &mut diagnostics).unwrap();
    assert_eq!(r.resolver().asked, 2);
    assert_eq!(diagnostics.len(), 2);
    assert_eq!(diagnostics[0].pos, pos(51));
    assert_eq!(diagnostics[1].pos, pos(61));
    assert!(Rc::ptr_eq(&k_type(&region), &t));

    let (pkg, _, _) = generic_package();
    let mut r = Resolution::new(FailingResolver { asked: 0, error: EvalError::FatalError });
    let mut u = unit(Some(vec![named(3, name_actual(22), 50), named(4, name_actual(23), 60)]));
    let mut diagnostics = Vec::new();
    let res = ctx.instantiate_package(&mut r, Ok(pkg), &mut u, &mut diagnostics);
    assert_eq!(res.unwrap_err(), EvalError::FatalError);
    assert_eq!(r.resolver().asked, 1);
    assert_eq!(diagnostics.len(), 1);
}

#[test]
fn formals_after_a_failing_one_are_not_instantiated() {
    let integer = ent(2, AnyEntKind::Type(Type::Integer));
    let first = object(3, &integer, Some(Mode::In));
    let not_formal = object(4, &integer, None);
    let last = object(5, &integer, Some(Mode::In));
    let func = ent(
        6,
        AnyEntKind::Overloaded(Overloaded::Subprogram(Signature {
            formals: FormalRegion {
                typ: InterfaceType::Parameter,
                entities: vec![InterfaceEnt(first), InterfaceEnt(not_formal), InterfaceEnt(last)],
            },
            return_type: None,
        })),
    );
    let mut ctx = context(20);
    let (region, diagnostics) = instantiate_one(&mut ctx, &FnvHashMap::default(), &func);
    assert!(region.entities.is_empty());
    assert!(matches!(diagnostics[0].message, Message::Instantiation(InstantiationError::ExpectedInterface)));
    assert_eq!(ctx.arena.next_id, 22);
}

#[test]
fn a_resolved_type_is_stored_for_its_generic() {
    let generic = TypeEnt(ent(1, AnyEntKind::Type(Type::Interface)));
    let integer = ent(2, AnyEntKind::Type(Type::Integer));
    let mut mapping = FnvHashMap::default();
    assert!(apply_type_answer(&generic, Ok(TypeEnt(integer.clone())), &mut mapping).is_ok());
    assert!(Rc::ptr_eq(mapping.get(&1).unwrap(), &integer));
    assert_eq!(mapping.len(), 1);
    assert_eq!(apply_type_answer(&generic, Err(EvalError::FatalError), &mut mapping), Err(EvalError::FatalError));
    assert!(Rc::ptr_eq(mapping.get(&1).unwrap(), &integer));
    assert_eq!(mapping.len(), 1);
}

#[test]
fn only_a_fatal_name_error_is_passed_on() {
    assert_eq!(apply_name_answer(Ok(())), Ok(()));
    assert_eq!(apply_name_answer(Err(EvalError::Unknown)), Ok(()));
    assert_eq!(apply_name_answer(Err(EvalError::FatalError)), Err(EvalError::FatalError));
}

#[test]
fn the_type_of_a_slice_or_indexed_name_is_resolved_from_its_prefix() {
    let at = pos(70);
    let mut slice = Name::Slice(Box::new(WithPos { item: name_of(5), pos: pos(71) }));
    let (p, n) = type_name_target(&mut slice, &at);
    assert_eq!(*p, pos(71));
    assert!(matches!(n, Name::Designator(d) if d.item == ident(5)));

    let mut indexed = Name::CallOrIndexed(Box::new(CallOrIndexed {
        name: WithPos { item: name_of(6), pos: pos(72) },
        parameters: vec![positional(name_actual(7), 73)],
    }));
    let (p, n) = type_name_target(&mut indexed, &at);
    assert_eq!(*p, pos(72));
    assert!(matches!(n, Name::Designator(d) if d.item == ident(6)));

    let mut call = Name::CallOrIndexed(Box::new(CallOrIndexed {
        name: WithPos { item: name_of(6), pos: pos(72) },
        parameters: vec![named(8, name_actual(7), 74)],
    }));
    let (p, n) = type_name_target(&mut call, &at);
    assert_eq!(*p, pos(70));
    assert!(matches!(n, Name::CallOrIndexed(_)));

    let mut plain = name_of(9);
    let (p, n) = type_name_target(&mut plain, &at);
    assert_eq!(*p, pos(70));
    assert!(matches!(n, Name::Designator(d) if d.item == ident(9)));
}

#[test]
fn kinds_are_described() {
    assert_eq!(AnyEntKind::Label.describe(), "label");
    assert_eq!(AnyEntKind::Type(Type::Integer).describe(), "integer type");
    assert_eq!(
        AnyEntKind::Object(Object { class: ObjectClass::Signal, mode: None, subtype: subtype(&ent(1, AnyEntKind::Type(Type::Integer))), has_default: false }).describe(),
        "signal"
    );
    assert_eq!(AnyEntKind::Design(Design::Configuration).describe(), "configuration");
}
