use std::rc::Rc;

use vhdl_lang::named_entity::AnyEnt;
use vhdl_lang::named_entity::AnyEntKind;
use vhdl_lang::named_entity::Arena;
use vhdl_lang::named_entity::EntRef;
use vhdl_lang::named_entity::FormalRegion;
use vhdl_lang::named_entity::InterfaceEnt;
use vhdl_lang::named_entity::InterfaceType;
use vhdl_lang::named_entity::Mode;
use vhdl_lang::named_entity::Object;
use vhdl_lang::named_entity::ObjectClass;
use vhdl_lang::named_entity::ObjectEnt;
use vhdl_lang::named_entity::Overloaded;
use vhdl_lang::named_entity::OverloadedEnt;
use vhdl_lang::named_entity::RecordElement;
use vhdl_lang::named_entity::Related;
use vhdl_lang::named_entity::Signature;
use vhdl_lang::named_entity::Subtype;
use vhdl_lang::named_entity::Type;
use vhdl_lang::named_entity::TypeEnt;
use vhdl_lang::syntax::Designator;
use vhdl_lang::syntax::SrcPos;
use vhdl_lang::syntax::Symbol;

fn pos(n: u64) -> SrcPos {
    SrcPos { source: 1, start: n, end: n + 1 }
}

fn ident(n: usize) -> Designator {
    Designator::Identifier(Symbol { id: n })
}

fn ent(id: usize, kind: AnyEntKind) -> EntRef {
    Rc::new(AnyEnt {
        id,
        implicits: Vec::new(),
        designator: ident(id),
        related: Related::Unrelated,
        decl_pos: Some(pos(id as u64)),
        kind,
    })
}

fn object(id: usize, typ: &EntRef, mode: Option<Mode>) -> EntRef {
    ent(
        id,
        AnyEntKind::Object(Object {
            class: ObjectClass::Constant,
            mode,
            subtype: Subtype { type_mark: TypeEnt(typ.clone()) },
            has_default: false,
        }),
    )
}

#[test]
fn base_follows_aliases_and_subtypes() {
    let int = ent(1, AnyEntKind::Type(Type::Integer));
    let sub = ent(2, AnyEntKind::Type(Type::Subtype(Subtype { type_mark: TypeEnt(int.clone()) })));
    let alias = ent(3, AnyEntKind::Type(Type::Alias(TypeEnt(sub.clone()))));
    let b = TypeEnt(alias).base();
    assert!(Rc::ptr_eq(&(b.0).0, &int));
    assert_eq!(TypeEnt(int.clone()).id(), 1);
}

#[test]
fn the_base_of_a_base_type_is_itself() {
    let int = ent(1, AnyEntKind::Type(Type::Integer));
    let sub = ent(2, AnyEntKind::Type(Type::Subtype(Subtype { type_mark: TypeEnt(int.clone()) })));
    let b = TypeEnt(sub).base();
    let bb = b.0.base();
    assert!(Rc::ptr_eq(&(bb.0).0, &(b.0).0));
    let back: TypeEnt = b.duplicate().into();
    assert!(Rc::ptr_eq(&back.0, &int));
}

#[test]
fn from_any_tests_the_kind() {
    let int = ent(1, AnyEntKind::Type(Type::Integer));
    let label = ent(2, AnyEntKind::Label);
    let obj = object(3, &int, None);
    let port = object(4, &int, Some(Mode::In));
    let file = ent(5, AnyEntKind::InterfaceFile(TypeEnt(int.clone())));
    let elem = ent(6, AnyEntKind::ElementDeclaration(Subtype { type_mark: TypeEnt(int.clone()) }));
    let func = ent(
        7,
        AnyEntKind::Overloaded(Overloaded::Subprogram(Signature {
            formals: FormalRegion { typ: InterfaceType::Parameter, entities: Vec::new() },
            return_type: Some(TypeEnt(int.clone())),
        })),
    );

    assert!(TypeEnt::from_any(&int).is_some());
    assert!(TypeEnt::from_any(&label).is_none());
    assert!(ObjectEnt::from_any(&obj).is_some());
    assert!(ObjectEnt::from_any(&int).is_none());
    assert!(InterfaceEnt::from_any(&obj).is_none());
    assert!(InterfaceEnt::from_any(&port).is_some());
    assert!(InterfaceEnt::from_any(&file).is_some());
    assert!(InterfaceEnt::from_any(&int).is_none());
    assert!(RecordElement::from_any(&elem).is_some());
    assert!(RecordElement::from_any(&obj).is_none());
    assert!(OverloadedEnt::from_any(&func).is_ok());
    match OverloadedEnt::from_any(&label) {
        Err(e) => assert!(Rc::ptr_eq(&e, &label)),
        Ok(_) => panic!("a label is not overloaded"),
    }
}

#[test]
fn type_mark_of_an_object() {
    let int = ent(1, AnyEntKind::Type(Type::Integer));
    let obj = ObjectEnt::from_any(&object(3, &int, None)).unwrap();
    assert!(Rc::ptr_eq(&obj.type_mark().0, &int));
}

#[test]
fn allocate_gives_new_identities_in_turn() {
    let mut arena = Arena::new();
    let a = arena.allocate(ident(1), Related::Unrelated, AnyEntKind::Label, Some(pos(4))).unwrap();
    let b = arena.allocate(ident(2), Related::Unrelated, AnyEntKind::Library, None).unwrap();
    assert_eq!(a.id, 0);
    assert_eq!(b.id, 1);
    assert_eq!(arena.next_id, 2);
    assert_eq!(a.designator, ident(1));
    assert_eq!(a.decl_pos, Some(pos(4)));
    assert!(a.implicits.is_empty());
    assert!(matches!(b.kind, AnyEntKind::Library));
}

#[test]
fn allocate_fails_when_identities_run_out() {
    let mut arena = Arena { next_id: usize::MAX };
    assert!(arena.allocate(ident(1), Related::Unrelated, AnyEntKind::Label, None).is_none());
    assert_eq!(arena.next_id, usize::MAX);
    let mut arena = Arena { next_id: usize::MAX - 1 };
    let e = arena.allocate(ident(1), Related::Unrelated, AnyEntKind::Label, None).unwrap();
    assert_eq!(e.id, usize::MAX - 1);
    assert_eq!(arena.next_id, usize::MAX);
}
