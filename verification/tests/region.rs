use std::rc::Rc;

use vhdl_lang::design::Design;
use vhdl_lang::formal_region::GpkgInterfaceEnt;
use vhdl_lang::formal_region::GpkgRegion;
use vhdl_lang::diagnostic::Message;
use vhdl_lang::named_entity::AnyEnt;
use vhdl_lang::named_entity::AnyEntKind;
use vhdl_lang::named_entity::EntRef;
use vhdl_lang::named_entity::FormalRegion;
use vhdl_lang::named_entity::InterfaceType;
use vhdl_lang::named_entity::Mode;
use vhdl_lang::named_entity::Object;
use vhdl_lang::named_entity::ObjectClass;
use vhdl_lang::named_entity::Overloaded;
use vhdl_lang::named_entity::Related;
use vhdl_lang::named_entity::Signature;
use vhdl_lang::named_entity::Subtype;
use vhdl_lang::named_entity::Type;
use vhdl_lang::named_entity::TypeEnt;
use vhdl_lang::region::NamedEntities;
use vhdl_lang::region::Region;
use vhdl_lang::region::RegionKind;
use vhdl_lang::syntax::Designator;
use vhdl_lang::syntax::SrcPos;
use vhdl_lang::syntax::Symbol;

fn pos(n: u64) -> SrcPos {
    SrcPos { source: 1, start: n, end: n + 1 }
}

fn ident(n: usize) -> Designator {
    Designator::Identifier(Symbol { id: n })
}

fn ent(id: usize, designator: Designator, kind: AnyEntKind) -> EntRef {
    Rc::new(AnyEnt {
        id,
        implicits: Vec::new(),
        designator,
        related: Related::Unrelated,
        decl_pos: Some(pos(id as u64)),
        kind,
    })
}

fn function(id: usize, designator: Designator, typ: InterfaceType) -> EntRef {
    let sig = Signature { formals: FormalRegion { typ, entities: Vec::new() }, return_type: None };
    let kind = match typ {
        InterfaceType::Generic => Overloaded::InterfaceSubprogram(sig),
        _ => Overloaded::Subprogram(sig),
    };
    ent(id, designator, AnyEntKind::Overloaded(kind))
}

fn single(region: &Region, d: Designator) -> Option<EntRef> {
    match region.lookup_immediate(&d) {
        Some(NamedEntities::Single(e)) => Some(e.clone()),
        _ => None,
    }
}

#[test]
fn lookup_after_add_finds_the_declaration() {
    let mut region = Region::with_kind(RegionKind::Other);
    let x = ent(1, ident(1), AnyEntKind::Label);
    assert!(region.lookup_immediate(&ident(1)).is_none());
    assert!(region.add(x.clone()));
    assert!(Rc::ptr_eq(&single(&region, ident(1)).unwrap(), &x));
    assert_eq!(region.kind, RegionKind::Other);
}

#[test]
fn add_leaves_other_designators_alone() {
    let mut region = Region::with_kind(RegionKind::Other);
    let x = ent(1, ident(1), AnyEntKind::Label);
    let y = ent(2, ident(2), AnyEntKind::Library);
    region.add(x.clone());
    region.add(y.clone());
    assert!(Rc::ptr_eq(&single(&region, ident(1)).unwrap(), &x));
    assert!(Rc::ptr_eq(&single(&region, ident(2)).unwrap(), &y));
    assert!(region.lookup_immediate(&ident(3)).is_none());
}

#[test]
fn overloads_join_under_one_designator() {
    let mut region = Region::with_kind(RegionKind::Other);
    let f1 = function(1, ident(7), InterfaceType::Parameter);
    let f2 = function(2, ident(7), InterfaceType::Parameter);
    assert!(region.add(f1.clone()));
    assert!(region.add(f2.clone()));
    assert_eq!(region.entities.len(), 1);
    match region.lookup_immediate(&ident(7)) {
        Some(NamedEntities::Overloaded(o)) => {
            assert_eq!(o.entities().len(), 2);
            assert!(Rc::ptr_eq(&o.entities()[0].0, &f1));
            assert!(Rc::ptr_eq(&o.entities()[1].0, &f2));
        },
        other => panic!("unexpected {:?}", other),
    }
}

#[test]
fn a_second_declaration_of_a_designator_is_dropped() {
    let mut region = Region::with_kind(RegionKind::Other);
    let x = ent(1, ident(1), AnyEntKind::Label);
    let x2 = ent(2, ident(1), AnyEntKind::Label);
    let f = function(3, ident(1), InterfaceType::Parameter);
    assert!(region.add(x.clone()));
    assert!(!region.add(x2));
    assert!(!region.add(f));
    assert_eq!(region.entities.len(), 1);
    assert!(Rc::ptr_eq(&single(&region, ident(1)).unwrap(), &x));
}

#[test]
fn a_declaration_cannot_join_overloads_unless_overloaded() {
    let mut region = Region::with_kind(RegionKind::Other);
    let f = function(1, ident(1), InterfaceType::Parameter);
    let x = ent(2, ident(1), AnyEntKind::Label);
    assert!(region.add(f));
    assert!(!region.add(x));
    match region.lookup_immediate(&ident(1)) {
        Some(NamedEntities::Overloaded(o)) => assert_eq!(o.entities().len(), 1),
        other => panic!("unexpected {:?}", other),
    }
}

#[test]
fn duplicate_copies_the_named_entities() {
    let f1 = function(1, ident(7), InterfaceType::Parameter);
    let mut region = Region::with_kind(RegionKind::Other);
    region.add(f1.clone());
    let named = region.lookup_immediate(&ident(7)).unwrap().duplicate();
    match named {
        NamedEntities::Overloaded(o) => {
            assert_eq!(o.entities.len(), 1);
            assert!(Rc::ptr_eq(&o.entities[0].0, &f1));
        },
        other => panic!("unexpected {:?}", other),
    }
}

fn generic_type(id: usize, d: Designator) -> EntRef {
    ent(id, d, AnyEntKind::Type(Type::Interface))
}

fn generic_constant(id: usize, d: Designator, typ: &EntRef) -> EntRef {
    ent(
        id,
        d,
        AnyEntKind::Object(Object {
            class: ObjectClass::Constant,
            mode: Some(Mode::In),
            subtype: Subtype { type_mark: TypeEnt(typ.clone()) },
            has_default: false,
        }),
    )
}

#[test]
fn to_package_generic_splits_generics_from_the_rest() {
    let t = generic_type(1, ident(1));
    let c = generic_constant(2, ident(2), &t);
    let f = function(3, ident(3), InterfaceType::Generic);
    let p = ent(4, ident(4), AnyEntKind::Design(Design::PackageInstance(Region::with_kind(RegionKind::Other))));
    let int = ent(5, ident(5), AnyEntKind::Type(Type::Integer));
    let g = function(6, ident(6), InterfaceType::Parameter);
    let mut region = Region::with_kind(RegionKind::Other);
    for e in [t.clone(), c.clone(), int.clone(), f.clone(), g.clone(), p.clone()] {
        region.add(e);
    }
    let (generics, other) = region.to_package_generic();
    assert_eq!(generics.entities.len() + other.len(), 6);
    assert!(matches!(&generics.entities[0], GpkgInterfaceEnt::Type(x) if Rc::ptr_eq(&x.0, &t)));
    assert!(matches!(&generics.entities[1], GpkgInterfaceEnt::Constant(x) if Rc::ptr_eq(&x.0, &c)));
    assert!(matches!(&generics.entities[2], GpkgInterfaceEnt::Subprogram(x) if Rc::ptr_eq(&x.0, &f)));
    assert!(matches!(&generics.entities[3], GpkgInterfaceEnt::Package(x) if Rc::ptr_eq(x, &p)));
    assert_eq!(other.len(), 2);
    assert!(Rc::ptr_eq(&other[0], &int));
    assert!(Rc::ptr_eq(&other[1], &g));
}

#[test]
fn gpkg_lookup_finds_a_generic_by_name() {
    let t = generic_type(1, ident(1));
    let c = generic_constant(2, ident(2), &t);
    let generics = GpkgRegion {
        entities: vec![GpkgInterfaceEnt::from_any(&t).unwrap(), GpkgInterfaceEnt::from_any(&c).unwrap()],
    };
    match generics.lookup(&pos(9), &ident(2)) {
        Ok((i, g)) => {
            assert_eq!(i, 1);
            assert!(Rc::ptr_eq(g.ent(), &c));
            assert_eq!(g.id(), 2);
        },
        Err(d) => panic!("unexpected {:?}", d),
    }
    match generics.lookup(&pos(9), &ident(3)) {
        Err(d) => {
            assert_eq!(d.pos, pos(9));
            assert!(matches!(d.message, Message::NoDeclaration { designator } if designator == ident(3)));
        },
        Ok(_) => panic!("there is no generic 3"),
    }
    assert!(matches!(generics.nth(0), Some(GpkgInterfaceEnt::Type(_))));
    assert!(matches!(generics.nth(1), Some(GpkgInterfaceEnt::Constant(_))));
    assert!(generics.nth(2).is_none());
}

#[test]
fn gpkg_from_any_classifies_generics() {
    let t = generic_type(1, ident(1));
    assert!(GpkgInterfaceEnt::from_any(&ent(2, ident(2), AnyEntKind::Type(Type::Integer))).is_none());
    assert!(GpkgInterfaceEnt::from_any(&ent(3, ident(3), AnyEntKind::Object(Object {
        class: ObjectClass::Signal,
        mode: None,
        subtype: Subtype { type_mark: TypeEnt(t.clone()) },
        has_default: false,
    }))).is_none());
    assert!(GpkgInterfaceEnt::from_any(&function(4, ident(4), InterfaceType::Parameter)).is_none());
    assert!(matches!(GpkgInterfaceEnt::from_any(&t), Some(GpkgInterfaceEnt::Type(_))));
}
