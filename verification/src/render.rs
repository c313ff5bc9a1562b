//! The syntax tree as source text.
//!
//! Every node of the tree has a `render` method that writes the node the way
//! the language spells it, with operations fully parenthesised.

use crate::ast::{
    ArgDef, ArgDefList, ArgList, CompilationUnit, FunctionCall, FunctionDef, Ident, IdentList,
    Number, Opcode, PropertyList, Statement, StatementList, Tag, TagList, TopLevelDef,
};
use crate::decimal::{i64_text, signed_decimal};
use vstd::prelude::*;
use vstd::string::StringExecFns;
use walrus::ir::Value;

verus! {

/// The text that `Display` gives the number inside a machine constant.
pub uninterp spec fn constant_text(value: Value) -> Seq<char>;

/// `Display` of the number that a machine constant holds, whichever kind of
/// number it is.
#[verifier::external_body]
fn constant_string(value: &Value) -> (out: String)
    ensures
        out@ == constant_text(*value),
{
    match value {
        Value::I32(number) => format!("{}", number),
        Value::I64(number) => format!("{}", number),
        Value::F32(number) => format!("{}", number),
        Value::F64(number) => format!("{}", number),
        Value::V128(number) => format!("{}", number),
    }
}

pub open spec fn opcode_text(op: Opcode) -> Seq<char> {
    match op {
        Opcode::Mul => "*"@,
        Opcode::Div => "/"@,
        Opcode::Add => "+"@,
        Opcode::Sub => "-"@,
        Opcode::Gt => ">"@,
        Opcode::Ge => ">="@,
        Opcode::Lt => "<"@,
        Opcode::Le => "<="@,
        Opcode::Eq => "=="@,
        Opcode::Ne => "!="@,
    }
}

pub open spec fn number_text(number: Number) -> Seq<char> {
    match number {
        Number::Int(value) => signed_decimal(value as int),
        Number::Float(value) => constant_text(value),
    }
}

/// The names of a list in the order of the list, with a dot between two.
pub open spec fn ident_list_text(names: Seq<Ident>) -> Seq<char>
    decreases names.len(),
{
    if names.len() == 0 {
        Seq::empty()
    } else if names.len() == 1 {
        names[0].0@
    } else {
        ident_list_text(names.drop_last()) + "."@ + names.last().0@
    }
}

pub open spec fn property_text(property: (Ident, Ident)) -> Seq<char> {
    property.0.0@ + "="@ + property.1.0@
}

/// Each property after a space.
pub open spec fn properties_text(properties: Seq<(Ident, Ident)>) -> Seq<char>
    decreases properties.len(),
{
    if properties.len() == 0 {
        Seq::empty()
    } else {
        properties_text(properties.drop_last()) + " "@ + property_text(properties.last())
    }
}

pub open spec fn tag_text(tag: Tag) -> Seq<char>
    decreases tag, 0int,
{
    if tag.children.0@.len() == 0 {
        "<"@ + tag.ident.0@ + properties_text(tag.properties.0@) + "/>"@
    } else {
        "<"@ + tag.ident.0@ + properties_text(tag.properties.0@) + ">"@ + tags_text(
            tag.children.0@,
        ) + "</"@ + tag.ident.0@ + ">"@
    }
}

/// Each tag followed by a space.
pub open spec fn tags_spaced(tags: Seq<Tag>) -> Seq<char>
    decreases tags, 0int,
{
    if tags.len() == 0 {
        Seq::empty()
    } else {
        tags_spaced(tags.drop_last()) + tag_text(tags.last()) + " "@
    }
}

/// A space, then each tag followed by a space.
pub open spec fn tags_text(tags: Seq<Tag>) -> Seq<char>
    decreases tags, 1int,
{
    " "@ + tags_spaced(tags)
}

pub open spec fn statement_text(statement: Statement) -> Seq<char>
    decreases statement, 0int,
{
    match statement {
        Statement::Number(number, _) => number_text(number),
        Statement::Op(left, op, right, _) => "("@ + statement_text(*left) + " "@ + opcode_text(op)
            + " "@ + statement_text(*right) + ")"@,
        Statement::FunctionCall(call, _) => call.ident.0@ + args_text(call.args.0@),
        Statement::If(condition, block, _) => "if "@ + statement_text(*condition) + " "@
            + block_text(block.0@),
        Statement::IfElse(condition, consequent, alternative, _) => "if "@ + statement_text(
            *condition,
        ) + " "@ + block_text(consequent.0@) + " else "@ + block_text(alternative.0@),
        Statement::Let(ident, _) => "let "@ + ident.0@,
        Statement::LetAssign(ident, value, _) => "let "@ + ident.0@ + " = "@ + statement_text(
            *value,
        ),
        Statement::Assign(target, value, _) => ident_list_text(target.0@) + " = "@
            + statement_text(*value),
        Statement::Tag(tag, _) => tag_text(tag),
        Statement::Ident(ident, _) => ident.0@,
        Statement::Block(statements, _) => block_text(statements.0@),
        Statement::Error => "error"@,
    }
}

/// The arguments with a comma and a space between two.
pub open spec fn args_joined(args: Seq<Box<Statement>>) -> Seq<char>
    decreases args, 0int,
{
    if args.len() == 0 {
        Seq::empty()
    } else if args.len() == 1 {
        statement_text(*args[0])
    } else {
        args_joined(args.drop_last()) + ", "@ + statement_text(*args.last())
    }
}

/// The arguments of a call, in round brackets.
pub open spec fn args_text(args: Seq<Box<Statement>>) -> Seq<char>
    decreases args, 1int,
{
    "("@ + args_joined(args) + ")"@
}

/// Each statement followed by a semicolon and a line break.
pub open spec fn lines_text(statements: Seq<Box<Statement>>) -> Seq<char>
    decreases statements, 0int,
{
    if statements.len() == 0 {
        Seq::empty()
    } else {
        lines_text(statements.drop_last()) + statement_text(*statements.last()) + ";\n"@
    }
}

/// A statement list in braces, one statement per line; nothing at all for an
/// empty list.
pub open spec fn block_text(statements: Seq<Box<Statement>>) -> Seq<char>
    decreases statements, 1int,
{
    if statements.len() == 0 {
        Seq::empty()
    } else {
        "{ \n"@ + lines_text(statements) + " }"@
    }
}

pub open spec fn arg_def_text(arg: ArgDef) -> Seq<char> {
    arg.name.0@ + ": "@ + arg.chip_type.0@
}

/// The parameters with a comma and a space between two.
pub open spec fn arg_defs_text(args: Seq<ArgDef>) -> Seq<char>
    decreases args.len(),
{
    if args.len() == 0 {
        Seq::empty()
    } else if args.len() == 1 {
        arg_def_text(args[0])
    } else {
        arg_defs_text(args.drop_last()) + ", "@ + arg_def_text(args.last())
    }
}

pub open spec fn function_text(function: FunctionDef) -> Seq<char> {
    match function.return_type {
        Some(return_type) => function.ident.0@ + "("@ + arg_defs_text(function.args.0@) + ") -> "@
            + return_type.0@ + " "@ + block_text(function.block.0@),
        None => function.ident.0@ + "("@ + arg_defs_text(function.args.0@) + ") "@ + block_text(
            function.block.0@,
        ),
    }
}

pub open spec fn top_level_text(item: TopLevelDef) -> Seq<char> {
    match item {
        TopLevelDef::Func(function) => function_text(function),
        TopLevelDef::Export(ident, tags) => "export "@ + ident.0@ + " {\n"@ + tags_text(tags.0@)
            + "}\n"@,
    }
}

/// The items of a unit one after the other.
pub open spec fn unit_text(items: Seq<TopLevelDef>) -> Seq<char>
    decreases items.len(),
{
    if items.len() == 0 {
        Seq::empty()
    } else {
        unit_text(items.drop_last()) + top_level_text(items.last())
    }
}

impl Opcode {
    pub fn render(&self) -> (out: String)
        ensures
            out@ == opcode_text(*self),
    {
        String::from_str(
            match self {
                Opcode::Mul => "*",
                Opcode::Div => "/",
                Opcode::Add => "+",
                Opcode::Sub => "-",
                Opcode::Gt => ">",
                Opcode::Ge => ">=",
                Opcode::Lt => "<",
                Opcode::Le => "<=",
                Opcode::Eq => "==",
                Opcode::Ne => "!=",
            },
        )
    }
}

impl Number {
    pub fn render(&self) -> (out: String)
        ensures
            out@ == number_text(*self),
    {
        match self {
            Number::Int(value) => i64_text(*value),
            Number::Float(value) => constant_string(value),
        }
    }
}

impl<'a> Ident<'a> {
    pub fn render(&self) -> (out: String)
        ensures
            out@ == self.0@,
    {
        String::from_str(self.0)
    }
}

impl<'a> IdentList<'a> {
    pub fn render(&self) -> (out: String)
        ensures
            out@ == ident_list_text(self.0@),
    {
        let names = &self.0;
        let mut out = String::new();
        let mut i: usize = 0;
        proof {
            assert(names@.take(0) =~= Seq::empty());
        }
        while i < names.len()
            invariant
                i <= names.len(),
                out@ == ident_list_text(names@.take(i as int)),
            decreases names.len() - i,
        {
            if i > 0 {
                out.append(".");
            }
            out.append(names[i].0);
            proof {
                let taken = names@.take(i + 1);
                assert(taken.drop_last() =~= names@.take(i as int));
                assert(taken.last() == names@[i as int]);
                if i == 0 {
                    assert(out@ =~= names@[0].0@);
                }
            }
            i += 1;
        }
        proof {
            assert(names@.take(names.len() as int) =~= names@);
        }
        out
    }
}

impl<'a> PropertyList<'a> {
    pub fn render(&self) -> (out: String)
        ensures
            out@ == properties_text(self.0@),
    {
        let items = &self.0;
        let mut out = String::new();
        let mut i: usize = 0;
        proof {
            assert(items@.take(0) =~= Seq::empty());
        }
        while i < items.len()
            invariant
                i <= items.len(),
                out@ == properties_text(items@.take(i as int)),
            decreases items.len() - i,
        {
            out.append(" ");
            out.append(items[i].0.0);
            out.append("=");
            out.append(items[i].1.0);
            proof {
                let taken = items@.take(i + 1);
                assert(taken.drop_last() =~= items@.take(i as int));
                assert(taken.last() == items@[i as int]);
                assert(out@ =~= properties_text(taken.drop_last()) + " "@ + property_text(
                    taken.last(),
                ));
            }
            i += 1;
        }
        proof {
            assert(items@.take(items.len() as int) =~= items@);
        }
        out
    }
}

impl<'a> Tag<'a> {
    pub fn render(&self) -> (out: String)
        ensures
            out@ == tag_text(*self),
        decreases self, 0int,
    {
        let mut out = String::from_str("<");
        out.append(self.ident.0);
        out.append(self.properties.render().as_str());
        if self.children.0.len() == 0 {
            out.append("/>");
            proof {
                assert(out@ =~= tag_text(*self));
            }
        } else {
            out.append(">");
            out.append(self.children.render().as_str());
            out.append("</");
            out.append(self.ident.0);
            out.append(">");
            proof {
                assert(out@ =~= tag_text(*self));
            }
        }
        out
    }
}

impl<'a> TagList<'a> {
    pub fn render(&self) -> (out: String)
        ensures
            out@ == tags_text(self.0@),
        decreases self, 1int,
    {
        let tags = &self.0;
        let mut out = String::from_str(" ");
        let mut i: usize = 0;
        proof {
            assert(tags@.take(0) =~= Seq::empty());
            assert(out@ =~= " "@ + tags_spaced(tags@.take(0)));
        }
        while i < tags.len()
            invariant
                i <= tags.len(),
                tags == &self.0,
                out@ == " "@ + tags_spaced(tags@.take(i as int)),
            decreases tags.len() - i,
        {
            proof {
                assert(decreases_to!(self => self.0));
                assert(decreases_to!(self.0 => self.0@));
                assert(decreases_to!(self.0@ => self.0@[i as int]));
            }
            out.append(tags[i].render().as_str());
            out.append(" ");
            proof {
                let taken = tags@.take(i + 1);
                assert(taken.drop_last() =~= tags@.take(i as int));
                assert(taken.last() == tags@[i as int]);
                assert(out@ =~= " "@ + (tags_spaced(taken.drop_last()) + tag_text(taken.last())
                    + " "@));
            }
            i += 1;
        }
        proof {
            assert(tags@.take(tags.len() as int) =~= tags@);
        }
        out
    }
}

impl<'a> Statement<'a> {
    pub fn render(&self) -> (out: String)
        ensures
            out@ == statement_text(*self),
        decreases self, 0int,
    {
        match self {
            Statement::Number(number, _) => number.render(),
            Statement::Op(left, op, right, _) => {
                let mut out = String::from_str("(");
                out.append(left.render().as_str());
                out.append(" ");
                out.append(op.render().as_str());
                out.append(" ");
                out.append(right.render().as_str());
                out.append(")");
                proof {
                    assert(out@ =~= statement_text(*self));
                }
                out
            },
            Statement::FunctionCall(call, _) => {
                let out = call.render();
                out
            },
            Statement::If(condition, block, _) => {
                let mut out = String::from_str("if ");
                out.append(condition.render().as_str());
                out.append(" ");
                out.append(block.render().as_str());
                proof {
                    assert(out@ =~= statement_text(*self));
                }
                out
            },
            Statement::IfElse(condition, consequent, alternative, _) => {
                let mut out = String::from_str("if ");
                out.append(condition.render().as_str());
                out.append(" ");
                out.append(consequent.render().as_str());
                out.append(" else ");
                out.append(alternative.render().as_str());
                proof {
                    assert(out@ =~= statement_text(*self));
                }
                out
            },
            Statement::Let(ident, _) => {
                let mut out = String::from_str("let ");
                out.append(ident.0);
                out
            },
            Statement::LetAssign(ident, value, _) => {
                let mut out = String::from_str("let ");
                out.append(ident.0);
                out.append(" = ");
                out.append(value.render().as_str());
                proof {
                    assert(out@ =~= statement_text(*self));
                }
                out
            },
            Statement::Assign(target, value, _) => {
                let mut out = target.render();
                out.append(" = ");
                out.append(value.render().as_str());
                proof {
                    assert(out@ =~= statement_text(*self));
                }
                out
            },
            Statement::Tag(tag, _) => tag.render(),
            Statement::Ident(ident, _) => ident.render(),
            Statement::Block(statements, _) => statements.render(),
            Statement::Error => String::from_str("error"),
        }
    }
}

impl<'a> FunctionCall<'a> {
    pub fn render(&self) -> (out: String)
        ensures
            out@ == self.ident.0@ + args_text(self.args.0@),
        decreases self, 2int,
    {
        let mut out = String::from_str(self.ident.0);
        out.append(self.args.render().as_str());
        out
    }
}

impl<'a> ArgList<'a> {
    pub fn render(&self) -> (out: String)
        ensures
            out@ == args_text(self.0@),
        decreases self, 1int,
    {
        let args = &self.0;
        let mut out = String::from_str("(");
        let mut i: usize = 0;
        proof {
            assert(args@.take(0) =~= Seq::empty());
            assert(out@ =~= "("@ + args_joined(args@.take(0)));
        }
        while i < args.len()
            invariant
                i <= args.len(),
                args == &self.0,
                out@ == "("@ + args_joined(args@.take(i as int)),
            decreases args.len() - i,
        {
            proof {
                assert(decreases_to!(self => self.0));
                assert(decreases_to!(self.0 => self.0@));
                assert(decreases_to!(self.0@ => self.0@[i as int]));
            }
            if i > 0 {
                out.append(", ");
            }
            out.append(args[i].render().as_str());
            proof {
                let taken = args@.take(i + 1);
                assert(taken.drop_last() =~= args@.take(i as int));
                assert(taken.last() == args@[i as int]);
                if i == 0 {
                    assert(out@ =~= "("@ + statement_text(*taken[0]));
                } else {
                    assert(out@ =~= "("@ + (args_joined(taken.drop_last()) + ", "@
                        + statement_text(*taken.last())));
                }
            }
            i += 1;
        }
        out.append(")");
        proof {
            assert(args@.take(args.len() as int) =~= args@);
        }
        out
    }
}

impl<'a> StatementList<'a> {
    pub fn render(&self) -> (out: String)
        ensures
            out@ == block_text(self.0@),
        decreases self, 1int,
    {
        let statements = &self.0;
        if statements.len() == 0 {
            return String::new();
        }
        let mut out = String::from_str("{ \n");
        let mut i: usize = 0;
        proof {
            assert(statements@.take(0) =~= Seq::empty());
            assert(out@ =~= "{ \n"@ + lines_text(statements@.take(0)));
        }
        while i < statements.len()
            invariant
                i <= statements.len(),
                statements == &self.0,
                out@ == "{ \n"@ + lines_text(statements@.take(i as int)),
            decreases statements.len() - i,
        {
            proof {
                assert(decreases_to!(self => self.0));
                assert(decreases_to!(self.0 => self.0@));
                assert(decreases_to!(self.0@ => self.0@[i as int]));
            }
            out.append(statements[i].render().as_str());
            out.append(";\n");
            proof {
                let taken = statements@.take(i + 1);
                assert(taken.drop_last() =~= statements@.take(i as int));
                assert(taken.last() == statements@[i as int]);
                assert(out@ =~= "{ \n"@ + (lines_text(taken.drop_last()) + statement_text(
                    *taken.last(),
                ) + ";\n"@));
            }
            i += 1;
        }
        out.append(" }");
        proof {
            assert(statements@.take(statements.len() as int) =~= statements@);
        }
        out
    }
}

impl<'a> ArgDef<'a> {
    pub fn render(&self) -> (out: String)
        ensures
            out@ == arg_def_text(*self),
    {
        let mut out = String::from_str(self.name.0);
        out.append(": ");
        out.append(self.chip_type.0);
        out
    }
}

impl<'a> ArgDefList<'a> {
    pub fn render(&self) -> (out: String)
        ensures
            out@ == arg_defs_text(self.0@),
    {
        let args = &self.0;
        let mut out = String::new();
        let mut i: usize = 0;
        proof {
            assert(args@.take(0) =~= Seq::empty());
        }
        while i < args.len()
            invariant
                i <= args.len(),
                out@ == arg_defs_text(args@.take(i as int)),
            decreases args.len() - i,
        {
            if i > 0 {
                out.append(", ");
            }
            out.append(args[i].render().as_str());
            proof {
                let taken = args@.take(i + 1);
                assert(taken.drop_last() =~= args@.take(i as int));
                assert(taken.last() == args@[i as int]);
                if i == 0 {
                    assert(out@ =~= arg_def_text(taken[0]));
                }
            }
            i += 1;
        }
        proof {
            assert(args@.take(args.len() as int) =~= args@);
        }
        out
    }
}

impl<'a> FunctionDef<'a> {
    pub fn render(&self) -> (out: String)
        ensures
            out@ == function_text(*self),
    {
        let mut out = String::from_str(self.ident.0);
        out.append("(");
        out.append(self.args.render().as_str());
        match &self.return_type {
            Some(return_type) => {
                out.append(") -> ");
                out.append(return_type.0);
                out.append(" ");
            },
            None => {
                out.append(") ");
            },
        }
        out.append(self.block.render().as_str());
        proof {
            assert(out@ =~= function_text(*self));
        }
        out
    }
}

impl<'a> TopLevelDef<'a> {
    pub fn render(&self) -> (out: String)
        ensures
            out@ == top_level_text(*self),
    {
        match self {
            TopLevelDef::Func(function) => function.render(),
            TopLevelDef::Export(ident, tags) => {
                let mut out = String::from_str("export ");
                out.append(ident.0);
                out.append(" {\n");
                out.append(tags.render().as_str());
                out.append("}\n");
                proof {
                    assert(out@ =~= top_level_text(*self));
                }
                out
            },
        }
    }
}

impl<'a> CompilationUnit<'a> {
    pub fn render(&self) -> (out: String)
        ensures
            out@ == unit_text(self.0@),
    {
        let items = &self.0;
        let mut out = String::new();
        let mut i: usize = 0;
        proof {
            assert(items@.take(0) =~= Seq::empty());
        }
        while i < items.len()
            invariant
                i <= items.len(),
                out@ == unit_text(items@.take(i as int)),
            decreases items.len() - i,
        {
            out.append(items[i].render().as_str());
            proof {
                let taken = items@.take(i + 1);
                assert(taken.drop_last() =~= items@.take(i as int));
                assert(taken.last() == items@[i as int]);
            }
            i += 1;
        }
        proof {
            assert(items@.take(items.len() as int) =~= items@);
        }
        out
    }
}

} // verus!
