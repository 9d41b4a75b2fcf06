//! Which names a syntax tree refers to as globals.
//!
//! Each predicate `in_…(node, locals, name)` says whether `node` refers to `name` as a global,
//! where `locals` are the names that the code around `node` has made local.

use vstd::prelude::*;
use crate::names::Name;
use crate::nodes::{
    Arguments, Block, ElseIfExpressionBranch, Expression, FunctionName, Identifier, IfBranch,
    InterpolationSegment, LastStatement, Prefix, Statement, TableEntry, TypedIdentifier, Variable,
};

verus! {

/// The name of the parameter that a method has without listing it.
pub const SELF_PARAMETER: &'static str = "self";

/// The names of a list of identifiers.
pub open spec fn identifier_names(identifiers: Seq<TypedIdentifier>) -> Set<Name> {
    Set::new(
        |name: Name|
            exists|i: int| 0 <= i < identifiers.len() && #[trigger] identifiers[i].name@ == name,
    )
}

/// Whether `statement` itself makes `name` local to the block that it stands in.
pub open spec fn declares(statement: Statement, name: Name) -> bool {
    match statement {
        Statement::LocalAssign(assign) => identifier_names(assign.variables@).contains(name),
        Statement::LocalFunction(function) => function.identifier.name@ == name,
        _ => false,
    }
}

/// The names that a list of statements makes local.
pub open spec fn declared(statements: Seq<Statement>) -> Set<Name> {
    Set::new(
        |name: Name|
            exists|i: int| 0 <= i < statements.len() && #[trigger] declares(statements[i], name),
    )
}

/// The names that a block makes local. After its last statement all of them are.
pub open spec fn block_locals(block: Block) -> Set<Name> {
    declared(block.statements@)
}

/// What the statements of a block make local for the one at `i`: the names that the statements
/// before it declare and, if it is a local function, its own name.
pub open spec fn declared_for(statements: Seq<Statement>, i: int) -> Set<Name> {
    match statements[i] {
        Statement::LocalFunction(function) => declared(statements.take(i)).insert(
            function.identifier.name@,
        ),
        _ => declared(statements.take(i)),
    }
}

/// What a function of this name has local besides its parameters: `self`, if it is a method.
pub open spec fn method_locals(name: FunctionName) -> Set<Name> {
    if name.method is Some {
        set![SELF_PARAMETER@]
    } else {
        Set::empty()
    }
}

pub open spec fn in_identifier(identifier: Identifier, locals: Set<Name>, name: Name) -> bool {
    identifier.name@ == name && !locals.contains(name)
}

pub open spec fn in_variable(variable: Variable, locals: Set<Name>, name: Name) -> bool
    decreases variable,
{
    match variable {
        Variable::Identifier(identifier) => in_identifier(identifier, locals, name),
        Variable::Field(field) => in_prefix(field.prefix, locals, name),
        Variable::Index(index) => in_prefix(index.prefix, locals, name) || in_expression(
            index.index,
            locals,
            name,
        ),
    }
}

pub open spec fn in_variables(variables: Seq<Variable>, locals: Set<Name>, name: Name) -> bool
    decreases variables,
{
    exists|i: int| 0 <= i < variables.len() && in_variable(#[trigger] variables[i], locals, name)
}

pub open spec fn in_prefix(prefix: Prefix, locals: Set<Name>, name: Name) -> bool
    decreases prefix,
{
    match prefix {
        Prefix::Identifier(identifier) => in_identifier(identifier, locals, name),
        Prefix::Field(field) => in_prefix(field.prefix, locals, name),
        Prefix::Index(index) => in_prefix(index.prefix, locals, name) || in_expression(
            index.index,
            locals,
            name,
        ),
        Prefix::Parenthese(parenthese) => in_expression(parenthese.expression, locals, name),
        Prefix::Call(call) => in_prefix(call.prefix, locals, name) || in_arguments(
            call.arguments,
            locals,
            name,
        ),
    }
}

pub open spec fn in_arguments(arguments: Arguments, locals: Set<Name>, name: Name) -> bool
    decreases arguments,
{
    match arguments {
        Arguments::Tuple(tuple) => in_expressions(tuple.values@, locals, name),
        Arguments::String => false,
        Arguments::Table(table) => in_entries(table.entries@, locals, name),
    }
}

pub open spec fn in_entry(entry: TableEntry, locals: Set<Name>, name: Name) -> bool
    decreases entry,
{
    match entry {
        TableEntry::Field(field) => in_expression(field.value, locals, name),
        TableEntry::Index(index) => in_expression(index.key, locals, name) || in_expression(
            index.value,
            locals,
            name,
        ),
        TableEntry::Value(value) => in_expression(*value, locals, name),
    }
}

pub open spec fn in_entries(entries: Seq<TableEntry>, locals: Set<Name>, name: Name) -> bool
    decreases entries,
{
    exists|i: int| 0 <= i < entries.len() && in_entry(#[trigger] entries[i], locals, name)
}

pub open spec fn in_expressions(
    expressions: Seq<Expression>,
    locals: Set<Name>,
    name: Name,
) -> bool
    decreases expressions,
{
    exists|i: int|
        0 <= i < expressions.len() && in_expression(#[trigger] expressions[i], locals, name)
}

pub open spec fn in_else_if(
    branch: ElseIfExpressionBranch,
    locals: Set<Name>,
    name: Name,
) -> bool
    decreases branch,
{
    in_expression(branch.condition, locals, name) || in_expression(branch.result, locals, name)
}

pub open spec fn in_else_ifs(
    branches: Seq<ElseIfExpressionBranch>,
    locals: Set<Name>,
    name: Name,
) -> bool
    decreases branches,
{
    exists|i: int| 0 <= i < branches.len() && in_else_if(#[trigger] branches[i], locals, name)
}

pub open spec fn in_segment(
    segment: InterpolationSegment,
    locals: Set<Name>,
    name: Name,
) -> bool
    decreases segment,
{
    match segment {
        InterpolationSegment::String => false,
        InterpolationSegment::Value(value) => in_expression(*value, locals, name),
    }
}

pub open spec fn in_segments(
    segments: Seq<InterpolationSegment>,
    locals: Set<Name>,
    name: Name,
) -> bool
    decreases segments,
{
    exists|i: int| 0 <= i < segments.len() && in_segment(#[trigger] segments[i], locals, name)
}

/// The type annotation of an identifier.
pub open spec fn in_annotation(
    identifier: TypedIdentifier,
    locals: Set<Name>,
    name: Name,
) -> bool
    decreases identifier,
{
    in_expressions(identifier.type_expressions@, locals, name)
}

pub open spec fn in_annotations(
    identifiers: Seq<TypedIdentifier>,
    locals: Set<Name>,
    name: Name,
) -> bool
    decreases identifiers,
{
    exists|i: int|
        0 <= i < identifiers.len() && in_annotation(#[trigger] identifiers[i], locals, name)
}

/// A function expression makes its parameters local to its block.
pub open spec fn in_expression(expression: Expression, locals: Set<Name>, name: Name) -> bool
    decreases expression,
{
    match expression {
        Expression::Identifier(identifier) => in_identifier(identifier, locals, name),
        Expression::Parenthese(parenthese) => in_expression(parenthese.expression, locals, name),
        Expression::Unary(unary) => in_expression(unary.expression, locals, name),
        Expression::Binary(binary) => in_expression(binary.left, locals, name) || in_expression(
            binary.right,
            locals,
            name,
        ),
        Expression::Function(function) => {
            ||| in_annotations(function.parameters@, locals, name)
            ||| in_expressions(function.type_expressions@, locals, name)
            ||| in_block(
                function.block,
                locals.union(identifier_names(function.parameters@)),
                name,
            )
        },
        Expression::Field(field) => in_prefix(field.prefix, locals, name),
        Expression::Index(index) => in_prefix(index.prefix, locals, name) || in_expression(
            index.index,
            locals,
            name,
        ),
        Expression::Call(call) => in_prefix(call.prefix, locals, name) || in_arguments(
            call.arguments,
            locals,
            name,
        ),
        Expression::Table(table) => in_entries(table.entries@, locals, name),
        Expression::If(if_expression) => {
            ||| in_expression(if_expression.condition, locals, name)
            ||| in_expression(if_expression.result, locals, name)
            ||| in_else_ifs(if_expression.branches@, locals, name)
            ||| in_expression(if_expression.else_result, locals, name)
        },
        Expression::TypeCast(cast) => in_expression(cast.expression, locals, name)
            || in_expressions(cast.type_expressions@, locals, name),
        Expression::InterpolatedString(string) => in_segments(string.segments@, locals, name),
        Expression::Other => false,
    }
}

pub open spec fn in_last_statement(
    last_statement: LastStatement,
    locals: Set<Name>,
    name: Name,
) -> bool
    decreases last_statement,
{
    match last_statement {
        LastStatement::Return(return_statement) => in_expressions(
            return_statement.expressions@,
            locals,
            name,
        ),
        LastStatement::Break => false,
        LastStatement::Continue => false,
    }
}

/// Each statement sees what the statements before it declare, and a local function sees itself.
pub open spec fn in_statements(statements: Seq<Statement>, locals: Set<Name>, name: Name) -> bool
    decreases statements,
{
    exists|i: int|
        0 <= i < statements.len() && in_statement(
            #[trigger] statements[i],
            locals.union(declared_for(statements, i)),
            name,
        )
}

pub open spec fn in_end(
    last_statement: Option<LastStatement>,
    locals: Set<Name>,
    name: Name,
) -> bool
    decreases last_statement,
{
    match last_statement {
        Some(last_statement) => in_last_statement(last_statement, locals, name),
        None => false,
    }
}

pub open spec fn in_block(block: Block, locals: Set<Name>, name: Name) -> bool
    decreases block,
{
    ||| in_statements(block.statements@, locals, name)
    ||| in_end(block.last_statement, locals.union(block_locals(block)), name)
}

pub open spec fn in_branch(branch: IfBranch, locals: Set<Name>, name: Name) -> bool
    decreases branch,
{
    in_expression(branch.condition, locals, name) || in_block(branch.block, locals, name)
}

pub open spec fn in_branches(branches: Seq<IfBranch>, locals: Set<Name>, name: Name) -> bool
    decreases branches,
{
    exists|i: int| 0 <= i < branches.len() && in_branch(#[trigger] branches[i], locals, name)
}

/// Loops make their variables local to their block, functions their parameters, and methods
/// `self`; the condition of a repeat statement sees the locals of its block. What the statement
/// itself declares, it declares for the block around it.
pub open spec fn in_statement(statement: Statement, locals: Set<Name>, name: Name) -> bool
    decreases statement,
{
    match statement {
        Statement::Assign(assign) => {
            ||| in_variables(assign.variables@, locals, name)
            ||| in_expressions(assign.values@, locals, name)
        },
        Statement::Do(do_statement) => in_block(do_statement.block, locals, name),
        Statement::CompoundAssign(assign) => in_variable(assign.variable, locals, name)
            || in_expression(assign.value, locals, name),
        Statement::Call(call) => in_prefix(call.prefix, locals, name) || in_arguments(
            call.arguments,
            locals,
            name,
        ),
        Statement::GenericFor(generic_for) => {
            ||| in_expressions(generic_for.expressions@, locals, name)
            ||| in_annotations(generic_for.identifiers@, locals, name)
            ||| in_block(
                generic_for.block,
                locals.union(identifier_names(generic_for.identifiers@)),
                name,
            )
        },
        Statement::If(if_statement) => {
            ||| in_branches(if_statement.branches@, locals, name)
            ||| match if_statement.else_block {
                Some(block) => in_block(block, locals, name),
                None => false,
            }
        },
        Statement::LocalAssign(assign) => in_annotations(assign.variables@, locals, name)
            || in_expressions(assign.values@, locals, name),
        Statement::LocalFunction(function) => {
            ||| in_annotations(function.parameters@, locals, name)
            ||| in_expressions(function.type_expressions@, locals, name)
            ||| in_block(
                function.block,
                locals.union(identifier_names(function.parameters@)),
                name,
            )
        },
        Statement::NumericFor(numeric_for) => {
            ||| in_expression(numeric_for.start, locals, name)
            ||| in_expression(numeric_for.end, locals, name)
            ||| match numeric_for.step {
                Some(step) => in_expression(step, locals, name),
                None => false,
            }
            ||| in_annotation(numeric_for.identifier, locals, name)
            ||| in_block(numeric_for.block, locals.insert(numeric_for.identifier.name@), name)
        },
        Statement::Repeat(repeat) => in_block(repeat.block, locals, name) || in_expression(
            repeat.condition,
            locals.union(block_locals(repeat.block)),
            name,
        ),
        Statement::While(while_statement) => in_expression(while_statement.condition, locals, name)
            || in_block(while_statement.block, locals, name),
        Statement::Function(function) => {
            ||| in_identifier(function.name.name, locals, name)
            ||| in_annotations(function.parameters@, locals, name)
            ||| in_expressions(function.type_expressions@, locals, name)
            ||| in_block(
                function.block,
                locals.union(method_locals(function.name)).union(
                    identifier_names(function.parameters@),
                ),
                name,
            )
        },
        Statement::TypeDeclaration(declaration) => in_expressions(
            declaration.type_expressions@,
            locals,
            name,
        ),
        Statement::TypeFunction => false,
    }
}

} // verus!
