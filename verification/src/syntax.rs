//! The parts of the VHDL syntax tree that package instantiation reads.

use vstd::prelude::*;

use crate::named_entity::EntRef;
use crate::named_entity::EntityId;

verus! {

/// A position in a source file: the source it belongs to and a byte range.
#[derive(Clone, Copy, PartialEq, Eq, Structural, Debug, Hash)]
pub struct SrcPos {
    pub source: u64,
    pub start: u64,
    pub end: u64,
}

/// An interned identifier.
#[derive(Clone, Copy, PartialEq, Eq, Structural, Debug, Hash)]
pub struct Symbol {
    pub id: usize,
}

/// The VHDL operators that may be named by an operator symbol.
#[derive(Clone, Copy, PartialEq, Eq, Structural, Debug, Hash)]
pub enum Operator {
    And,
    Or,
    Nand,
    Nor,
    Xor,
    Xnor,
    EQ,
    NE,
    LT,
    LTE,
    GT,
    GTE,
    QueEQ,
    QueNE,
    QueLT,
    QueLTE,
    QueGT,
    QueGTE,
    SLL,
    SRL,
    SLA,
    SRA,
    ROL,
    ROR,
    Plus,
    Minus,
    Concat,
    Times,
    Div,
    Mod,
    Rem,
    Pow,
    Abs,
    Not,
    QueQue,
}

/// The lower-case form of an ASCII letter; any other byte is kept.
pub open spec fn ascii_lower(b: u8) -> u8 {
    if 65 <= b <= 90 {
        (b + 32) as u8
    } else {
        b
    }
}

pub open spec fn lowercase(s: Seq<u8>) -> Seq<u8> {
    s.map_values(|b: u8| ascii_lower(b))
}

impl Operator {
    /// The symbol that names the operator, in lower case.
    pub open spec fn symbol(self) -> Seq<u8> {
        match self {
            Operator::And => seq![97u8, 110u8, 100u8], // "and"
            Operator::Or => seq![111u8, 114u8], // "or"
            Operator::Nand => seq![110u8, 97u8, 110u8, 100u8], // "nand"
            Operator::Nor => seq![110u8, 111u8, 114u8], // "nor"
            Operator::Xor => seq![120u8, 111u8, 114u8], // "xor"
            Operator::Xnor => seq![120u8, 110u8, 111u8, 114u8], // "xnor"
            Operator::EQ => seq![61u8], // "="
            Operator::NE => seq![47u8, 61u8], // "/="
            Operator::LT => seq![60u8], // "<"
            Operator::LTE => seq![60u8, 61u8], // "<="
            Operator::GT => seq![62u8], // ">"
            Operator::GTE => seq![62u8, 61u8], // ">="
            Operator::QueEQ => seq![63u8, 61u8], // "?="
            Operator::QueNE => seq![63u8, 47u8, 61u8], // "?/="
            Operator::QueLT => seq![63u8, 60u8], // "?<"
            Operator::QueLTE => seq![63u8, 60u8, 61u8], // "?<="
            Operator::QueGT => seq![63u8, 62u8], // "?>"
            Operator::QueGTE => seq![63u8, 62u8, 61u8], // "?>="
            Operator::SLL => seq![115u8, 108u8, 108u8], // "sll"
            Operator::SRL => seq![115u8, 114u8, 108u8], // "srl"
            Operator::SLA => seq![115u8, 108u8, 97u8], // "sla"
            Operator::SRA => seq![115u8, 114u8, 97u8], // "sra"
            Operator::ROL => seq![114u8, 111u8, 108u8], // "rol"
            Operator::ROR => seq![114u8, 111u8, 114u8], // "ror"
            Operator::Plus => seq![43u8], // "+"
            Operator::Minus => seq![45u8], // "-"
            Operator::Concat => seq![38u8], // "&"
            Operator::Times => seq![42u8], // "*"
            Operator::Div => seq![47u8], // "/"
            Operator::Mod => seq![109u8, 111u8, 100u8], // "mod"
            Operator::Rem => seq![114u8, 101u8, 109u8], // "rem"
            Operator::Pow => seq![42u8, 42u8], // "**"
            Operator::Abs => seq![97u8, 98u8, 115u8], // "abs"
            Operator::Not => seq![110u8, 111u8, 116u8], // "not"
            Operator::QueQue => seq![63u8, 63u8], // "??"
        }
    }

    fn symbol_bytes(self) -> (r: Vec<u8>)
        ensures
            r@ == self.symbol(),
    {
        match self {
            Operator::And => vec![97u8, 110u8, 100u8], // "and"
            Operator::Or => vec![111u8, 114u8], // "or"
            Operator::Nand => vec![110u8, 97u8, 110u8, 100u8], // "nand"
            Operator::Nor => vec![110u8, 111u8, 114u8], // "nor"
            Operator::Xor => vec![120u8, 111u8, 114u8], // "xor"
            Operator::Xnor => vec![120u8, 110u8, 111u8, 114u8], // "xnor"
            Operator::EQ => vec![61u8], // "="
            Operator::NE => vec![47u8, 61u8], // "/="
            Operator::LT => vec![60u8], // "<"
            Operator::LTE => vec![60u8, 61u8], // "<="
            Operator::GT => vec![62u8], // ">"
            Operator::GTE => vec![62u8, 61u8], // ">="
            Operator::QueEQ => vec![63u8, 61u8], // "?="
            Operator::QueNE => vec![63u8, 47u8, 61u8], // "?/="
            Operator::QueLT => vec![63u8, 60u8], // "?<"
            Operator::QueLTE => vec![63u8, 60u8, 61u8], // "?<="
            Operator::QueGT => vec![63u8, 62u8], // "?>"
            Operator::QueGTE => vec![63u8, 62u8, 61u8], // "?>="
            Operator::SLL => vec![115u8, 108u8, 108u8], // "sll"
            Operator::SRL => vec![115u8, 114u8, 108u8], // "srl"
            Operator::SLA => vec![115u8, 108u8, 97u8], // "sla"
            Operator::SRA => vec![115u8, 114u8, 97u8], // "sra"
            Operator::ROL => vec![114u8, 111u8, 108u8], // "rol"
            Operator::ROR => vec![114u8, 111u8, 114u8], // "ror"
            Operator::Plus => vec![43u8], // "+"
            Operator::Minus => vec![45u8], // "-"
            Operator::Concat => vec![38u8], // "&"
            Operator::Times => vec![42u8], // "*"
            Operator::Div => vec![47u8], // "/"
            Operator::Mod => vec![109u8, 111u8, 100u8], // "mod"
            Operator::Rem => vec![114u8, 101u8, 109u8], // "rem"
            Operator::Pow => vec![42u8, 42u8], // "**"
            Operator::Abs => vec![97u8, 98u8, 115u8], // "abs"
            Operator::Not => vec![110u8, 111u8, 116u8], // "not"
            Operator::QueQue => vec![63u8, 63u8], // "??"
        }
    }

    /// The operator that a string names, ignoring the case of its letters.
    pub fn from_latin1(latin1: Latin1String) -> (r: Option<Operator>)
        ensures
            r matches Some(op) ==> op.symbol() == lowercase(latin1.bytes@),
            r is None ==> forall|op: Operator| op.symbol() != lowercase(latin1.bytes@),
    {
        let lower = to_lowercase(&latin1.bytes);
        if bytes_equal(&lower, &Operator::And.symbol_bytes()) {
            return Some(Operator::And);
        }
        if bytes_equal(&lower, &Operator::Or.symbol_bytes()) {
            return Some(Operator::Or);
        }
        if bytes_equal(&lower, &Operator::Nand.symbol_bytes()) {
            return Some(Operator::Nand);
        }
        if bytes_equal(&lower, &Operator::Nor.symbol_bytes()) {
            return Some(Operator::Nor);
        }
        if bytes_equal(&lower, &Operator::Xor.symbol_bytes()) {
            return Some(Operator::Xor);
        }
        if bytes_equal(&lower, &Operator::Xnor.symbol_bytes()) {
            return Some(Operator::Xnor);
        }
        if bytes_equal(&lower, &Operator::EQ.symbol_bytes()) {
            return Some(Operator::EQ);
        }
        if bytes_equal(&lower, &Operator::NE.symbol_bytes()) {
            return Some(Operator::NE);
        }
        if bytes_equal(&lower, &Operator::LT.symbol_bytes()) {
            return Some(Operator::LT);
        }
        if bytes_equal(&lower, &Operator::LTE.symbol_bytes()) {
            return Some(Operator::LTE);
        }
        if bytes_equal(&lower, &Operator::GT.symbol_bytes()) {
            return Some(Operator::GT);
        }
        if bytes_equal(&lower, &Operator::GTE.symbol_bytes()) {
            return Some(Operator::GTE);
        }
        if bytes_equal(&lower, &Operator::QueEQ.symbol_bytes()) {
            return Some(Operator::QueEQ);
        }
        if bytes_equal(&lower, &Operator::QueNE.symbol_bytes()) {
            return Some(Operator::QueNE);
        }
        if bytes_equal(&lower, &Operator::QueLT.symbol_bytes()) {
            return Some(Operator::QueLT);
        }
        if bytes_equal(&lower, &Operator::QueLTE.symbol_bytes()) {
            return Some(Operator::QueLTE);
        }
        if bytes_equal(&lower, &Operator::QueGT.symbol_bytes()) {
            return Some(Operator::QueGT);
        }
        if bytes_equal(&lower, &Operator::QueGTE.symbol_bytes()) {
            return Some(Operator::QueGTE);
        }
        if bytes_equal(&lower, &Operator::SLL.symbol_bytes()) {
            return Some(Operator::SLL);
        }
        if bytes_equal(&lower, &Operator::SRL.symbol_bytes()) {
            return Some(Operator::SRL);
        }
        if bytes_equal(&lower, &Operator::SLA.symbol_bytes()) {
            return Some(Operator::SLA);
        }
        if bytes_equal(&lower, &Operator::SRA.symbol_bytes()) {
            return Some(Operator::SRA);
        }
        if bytes_equal(&lower, &Operator::ROL.symbol_bytes()) {
            return Some(Operator::ROL);
        }
        if bytes_equal(&lower, &Operator::ROR.symbol_bytes()) {
            return Some(Operator::ROR);
        }
        if bytes_equal(&lower, &Operator::Plus.symbol_bytes()) {
            return Some(Operator::Plus);
        }
        if bytes_equal(&lower, &Operator::Minus.symbol_bytes()) {
            return Some(Operator::Minus);
        }
        if bytes_equal(&lower, &Operator::Concat.symbol_bytes()) {
            return Some(Operator::Concat);
        }
        if bytes_equal(&lower, &Operator::Times.symbol_bytes()) {
            return Some(Operator::Times);
        }
        if bytes_equal(&lower, &Operator::Div.symbol_bytes()) {
            return Some(Operator::Div);
        }
        if bytes_equal(&lower, &Operator::Mod.symbol_bytes()) {
            return Some(Operator::Mod);
        }
        if bytes_equal(&lower, &Operator::Rem.symbol_bytes()) {
            return Some(Operator::Rem);
        }
        if bytes_equal(&lower, &Operator::Pow.symbol_bytes()) {
            return Some(Operator::Pow);
        }
        if bytes_equal(&lower, &Operator::Abs.symbol_bytes()) {
            return Some(Operator::Abs);
        }
        if bytes_equal(&lower, &Operator::Not.symbol_bytes()) {
            return Some(Operator::Not);
        }
        if bytes_equal(&lower, &Operator::QueQue.symbol_bytes()) {
            return Some(Operator::QueQue);
        }
        proof {
            assert forall|op: Operator| op.symbol() != lowercase(latin1.bytes@) by {
                match op {
                    Operator::And => {},
                    Operator::Or => {},
                    Operator::Nand => {},
                    Operator::Nor => {},
                    Operator::Xor => {},
                    Operator::Xnor => {},
                    Operator::EQ => {},
                    Operator::NE => {},
                    Operator::LT => {},
                    Operator::LTE => {},
                    Operator::GT => {},
                    Operator::GTE => {},
                    Operator::QueEQ => {},
                    Operator::QueNE => {},
                    Operator::QueLT => {},
                    Operator::QueLTE => {},
                    Operator::QueGT => {},
                    Operator::QueGTE => {},
                    Operator::SLL => {},
                    Operator::SRL => {},
                    Operator::SLA => {},
                    Operator::SRA => {},
                    Operator::ROL => {},
                    Operator::ROR => {},
                    Operator::Plus => {},
                    Operator::Minus => {},
                    Operator::Concat => {},
                    Operator::Times => {},
                    Operator::Div => {},
                    Operator::Mod => {},
                    Operator::Rem => {},
                    Operator::Pow => {},
                    Operator::Abs => {},
                    Operator::Not => {},
                    Operator::QueQue => {},
                }
            }
        }
        None
    }
}

/// No two operators share a symbol, so a string names at most one operator.
pub proof fn lemma_operator_symbols_distinct(a: Operator, b: Operator)
    requires
        a != b,
    ensures
        a.symbol() != b.symbol(),
{
    if a.symbol() == b.symbol() {
        assert(a.symbol().len() == b.symbol().len());
        assert(a.symbol()[0] == b.symbol()[0]);
        assert(a.symbol().len() > 1 ==> a.symbol()[1] == b.symbol()[1]);
        assert(a.symbol().len() > 2 ==> a.symbol()[2] == b.symbol()[2]);
        assert(a.symbol().len() > 3 ==> a.symbol()[3] == b.symbol()[3]);
    }
}

fn to_lowercase(bytes: &Vec<u8>) -> (r: Vec<u8>)
    ensures
        r@ == lowercase(bytes@),
{
    let mut r: Vec<u8> = Vec::new();
    let mut i: usize = 0;
    while i < bytes.len()
        invariant
            i <= bytes@.len(),
            r@ == lowercase(bytes@.take(i as int)),
        decreases bytes@.len() - i,
    {
        let b = bytes[i];
        let l = if 65 <= b && b <= 90 {
            b + 32
        } else {
            b
        };
        r.push(l);
        assert(bytes@.take(i + 1) =~= bytes@.take(i as int).push(b));
        assert(r@ =~= lowercase(bytes@.take(i + 1)));
        i += 1;
    }
    assert(bytes@.take(i as int) =~= bytes@);
    r
}

fn bytes_equal(a: &Vec<u8>, b: &Vec<u8>) -> (r: bool)
    ensures
        r == (a@ == b@),
{
    if a.len() != b.len() {
        return false;
    }
    let mut i: usize = 0;
    while i < a.len()
        invariant
            i <= a@.len(),
            a@.len() == b@.len(),
            forall|j: int| 0 <= j < i ==> a@[j] == b@[j],
        decreases a@.len() - i,
    {
        if a[i] != b[i] {
            return false;
        }
        i += 1;
    }
    assert(a@ =~= b@);
    true
}

/// The name of a declaration.
#[derive(Clone, Copy, PartialEq, Eq, Structural, Debug, Hash)]
pub enum Designator {
    Identifier(Symbol),
    OperatorSymbol(Operator),
    Character(u8),
    Anonymous(usize),
}

/// An item together with the position where it was written.
#[derive(Debug)]
pub struct WithPos<T> {
    pub item: T,
    pub pos: SrcPos,
}

/// An item together with the declaration it was resolved to, if any.
#[derive(Debug)]
pub struct WithRef<T> {
    pub item: T,
    pub reference: Option<EntityId>,
}

impl<T> WithRef<T> {
    /// Records that the item refers to `ent`.
    pub fn set_unique_reference(&mut self, ent: &EntRef)
        ensures
            final(self).item == old(self).item,
            final(self).reference == Some(ent.id),
    {
        self.reference = Some(ent.id);
    }
}

impl WithPos<WithRef<Designator>> {
    /// The designator that was written.
    pub fn designator(&self) -> (d: &Designator)
        ensures
            *d == self.item.item,
    {
        &self.item.item
    }
}

/// A string of Latin-1 characters, as written in the source.
#[derive(Debug)]
pub struct Latin1String {
    pub bytes: Vec<u8>,
}

impl Latin1String {
    pub fn duplicate(&self) -> (r: Latin1String)
        ensures
            r.bytes@ == self.bytes@,
    {
        let mut bytes: Vec<u8> = Vec::new();
        let mut i: usize = 0;
        while i < self.bytes.len()
            invariant
                i <= self.bytes@.len(),
                bytes@ == self.bytes@.take(i as int),
            decreases self.bytes@.len() - i,
        {
            bytes.push(self.bytes[i]);
            i += 1;
            assert(bytes@ =~= self.bytes@.take(i as int));
        }
        assert(self.bytes@.take(i as int) =~= self.bytes@);
        Latin1String { bytes }
    }
}

#[derive(Debug)]
pub enum Literal {
    String(Latin1String),
    Character(u8),
    Null,
}

/// A function call or an indexed name: `name(parameters)`.
#[derive(Debug)]
pub struct CallOrIndexed {
    pub name: WithPos<Name>,
    pub parameters: Vec<AssociationElement>,
}

#[derive(Debug)]
pub enum Name {
    Designator(WithRef<Designator>),
    Selected(Box<WithPos<Name>>, WithPos<WithRef<Designator>>),
    /// A slice `prefix(range)`; the range is not represented.
    Slice(Box<WithPos<Name>>),
    CallOrIndexed(Box<CallOrIndexed>),
}

#[derive(Debug)]
pub enum Expression {
    Name(Box<Name>),
    Literal(Literal),
    Unary(Operator, Box<WithPos<Expression>>),
    Binary(Operator, Box<WithPos<Expression>>, Box<WithPos<Expression>>),
}

#[derive(Debug)]
pub enum ActualPart {
    Expression(Expression),
    Open,
}

/// One element of an association list: `formal => actual` or a positional `actual`.
#[derive(Debug)]
pub struct AssociationElement {
    pub formal: Option<WithPos<Name>>,
    pub actual: WithPos<ActualPart>,
}

/// `package ident is new package_name generic map (generic_map);`
#[derive(Debug)]
pub struct PackageInstantiation {
    pub ident: WithPos<Symbol>,
    pub package_name: WithPos<Name>,
    pub generic_map: Option<Vec<AssociationElement>>,
}

pub open spec fn could_be_indexed_spec(params: Seq<AssociationElement>) -> bool {
    forall|i: int|
        0 <= i < params.len() ==> {
            &&& (#[trigger] params[i]).formal is None
            &&& !(params[i].actual.item is Open)
        }
}

impl CallOrIndexed {
    /// Whether the parameters could be the indexes of an indexed name:
    /// none is named and none is `open`.
    pub fn could_be_indexed_name(&self) -> (r: bool)
        ensures
            r == could_be_indexed_spec(self.parameters@),
    {
        let mut i: usize = 0;
        while i < self.parameters.len()
            invariant
                i <= self.parameters.len(),
                forall|j: int|
                    0 <= j < i ==> {
                        &&& (#[trigger] self.parameters@[j]).formal is None
                        &&& !(self.parameters@[j].actual.item is Open)
                    },
            decreases self.parameters.len() - i,
        {
            let p = &self.parameters[i];
            if p.formal.is_some() {
                return false;
            }
            match p.actual.item {
                ActualPart::Open => {
                    return false;
                },
                ActualPart::Expression(_) => {},
            }
            i += 1;
        }
        true
    }
}

} // verus!
