//! The syntax tree that the checker and the code generator walk.
//!
//! The tree borrows its names from the source text. Every statement but the
//! error placeholder carries the byte range of the source it was read from,
//! as a pair of offsets: the first byte and the one after the last.

use crate::types::Primitive;
use vstd::prelude::*;
use vstd::string::StringExecFns;
use walrus::ir::Value;

verus! {

pub struct CompilationUnit<'a>(pub Vec<TopLevelDef<'a>>);

pub enum TopLevelDef<'a> {
    Func(FunctionDef<'a>),
    Export(Ident<'a>, TagList<'a>),
}

pub struct FunctionDef<'a> {
    pub ident: Ident<'a>,
    pub args: ArgDefList<'a>,
    pub return_type: Option<Ident<'a>>,
    pub block: StatementList<'a>,
}

pub struct ArgDefList<'a>(pub Vec<ArgDef<'a>>);

pub struct ArgDef<'a> {
    pub name: Ident<'a>,
    pub chip_type: Ident<'a>,
}

pub struct StatementList<'a>(pub Vec<Box<Statement<'a>>>);

pub enum Statement<'a> {
    Number(Number, (usize, usize)),
    Op(Box<Statement<'a>>, Opcode, Box<Statement<'a>>, (usize, usize)),
    FunctionCall(FunctionCall<'a>, (usize, usize)),
    If(Box<Statement<'a>>, StatementList<'a>, (usize, usize)),
    IfElse(Box<Statement<'a>>, StatementList<'a>, StatementList<'a>, (usize, usize)),
    Let(Ident<'a>, (usize, usize)),
    LetAssign(Ident<'a>, Box<Statement<'a>>, (usize, usize)),
    Assign(IdentList<'a>, Box<Statement<'a>>, (usize, usize)),
    Tag(Tag<'a>, (usize, usize)),
    Ident(Ident<'a>, (usize, usize)),
    Block(StatementList<'a>, (usize, usize)),
    Error,
}

pub struct FunctionCall<'a> {
    pub ident: Ident<'a>,
    pub args: ArgList<'a>,
}

pub struct ArgList<'a>(pub Vec<Box<Statement<'a>>>);

/// A dotted path as the parser leaves it: innermost name first.
pub struct IdentList<'a>(pub Vec<Ident<'a>>);

pub struct TagList<'a>(pub Vec<Tag<'a>>);

pub struct Tag<'a> {
    pub ident: Ident<'a>,
    pub properties: PropertyList<'a>,
    pub children: TagList<'a>,
}

pub struct PropertyList<'a>(pub Vec<(Ident<'a>, Ident<'a>)>);

#[derive(PartialEq, Eq)]
pub struct Ident<'a>(pub &'a str);

pub struct Struct<'a> {
    pub ident: Ident<'a>,
    pub generics: Vec<Ident<'a>>,
}

pub struct Type<'a> {
    pub ident: Ident<'a>,
    pub generics: Vec<Ident<'a>>,
}

/// A numeric literal. A floating-point literal is held as the machine
/// constant that the parser made of it, which is a 64-bit float.
pub enum Number {
    Int(i64),
    Float(Value),
}

#[derive(Clone, Copy, PartialEq, Eq, Structural)]
pub enum Opcode {
    Mul,
    Div,
    Add,
    Sub,
    Gt,
    Ge,
    Lt,
    Le,
    Eq,
    Ne,
}

/// The dotted path that a list of names stands for. The list holds the
/// innermost name first, so the path reads from the last name to the first.
pub open spec fn path_text(names: Seq<Ident>) -> Seq<char>
    decreases names.len(),
{
    if names.len() == 0 {
        Seq::empty()
    } else if names.len() == 1 {
        names[0].0@
    } else {
        path_text(names.drop_first()) + seq!['.'] + names[0].0@
    }
}

impl<'a> IdentList<'a> {
    /// The dotted path that the list stands for.
    pub fn path(&self) -> (out: String)
        ensures
            out@ == path_text(self.0@),
    {
        let names = &self.0;
        let mut out = String::new();
        let mut i: usize = names.len();
        proof {
            assert(names@.skip(i as int) =~= Seq::empty());
        }
        while i > 0
            invariant
                i <= names.len(),
                out@ == path_text(names@.skip(i as int)),
            decreases i,
        {
            if i < names.len() {
                out.append(".");
            }
            i -= 1;
            out.append(names[i].0);
            proof {
                reveal_strlit(".");
                let rest = names@.skip(i as int);
                assert(rest.drop_first() =~= names@.skip(i + 1));
                assert(rest[0] == names@[i as int]);
                if rest.len() == 1 {
                    assert(out@ =~= names@[i as int].0@);
                } else {
                    assert(out@ =~= path_text(rest.drop_first()) + seq!['.'] + names@[i as int].0@);
                }
            }
        }
        proof {
            assert(names@.skip(0) =~= names@);
        }
        out
    }
}

impl Number {
    /// The scalar kind of a literal. A float literal whose constant is not a
    /// 64-bit float has none.
    pub open spec fn kind(self) -> Option<Primitive> {
        match self {
            Number::Int(_) => Some(Primitive::I64),
            Number::Float(Value::F64(_)) => Some(Primitive::F64),
            Number::Float(_) => None,
        }
    }

    /// The scalar kind of the literal, if it has one.
    pub fn primitive(&self) -> (out: Option<Primitive>)
        ensures
            out == self.kind(),
    {
        match self {
            Number::Int(_) => Some(Primitive::I64),
            Number::Float(Value::F64(_)) => Some(Primitive::F64),
            Number::Float(_) => None,
        }
    }
}

impl<'a> Statement<'a> {
    /// The source range of a statement; the error placeholder has the empty
    /// range at offset 0.
    pub open spec fn span(self) -> (usize, usize) {
        match self {
            Statement::Number(_, range) => range,
            Statement::Op(_, _, _, range) => range,
            Statement::FunctionCall(_, range) => range,
            Statement::If(_, _, range) => range,
            Statement::IfElse(_, _, _, range) => range,
            Statement::Let(_, range) => range,
            Statement::LetAssign(_, _, range) => range,
            Statement::Assign(_, _, range) => range,
            Statement::Tag(_, range) => range,
            Statement::Ident(_, range) => range,
            Statement::Block(_, range) => range,
            Statement::Error => (0, 0),
        }
    }

    /// The source range of the statement.
    pub fn range(&self) -> (range: (usize, usize))
        ensures
            range == self.span(),
    {
        match self {
            Statement::Number(_, range) => *range,
            Statement::Op(_, _, _, range) => *range,
            Statement::FunctionCall(_, range) => *range,
            Statement::If(_, _, range) => *range,
            Statement::IfElse(_, _, _, range) => *range,
            Statement::Let(_, range) => *range,
            Statement::LetAssign(_, _, range) => *range,
            Statement::Assign(_, _, range) => *range,
            Statement::Tag(_, range) => *range,
            Statement::Ident(_, range) => *range,
            Statement::Block(_, range) => *range,
            Statement::Error => (0, 0),
        }
    }
}

} // verus!
