//! Where names occur in a program, whatever is in scope there, and how the global references of
//! a program relate to that.
//!
//! `uses_…(node, name)` says whether `node` refers to a variable `name` anywhere, and
//! `binds_…(node, name)` whether it makes `name` local anywhere.

use vstd::prelude::*;
use crate::names::Name;
use crate::nodes::{
    Arguments, Block, ElseIfExpressionBranch, Expression, IfBranch, InterpolationSegment,
    LastStatement, Prefix, Statement, TableEntry, TypedIdentifier, Variable,
};
use crate::references;

verus! {

pub open spec fn uses_variable(variable: Variable, name: Name) -> bool
    decreases variable,
{
    match variable {
        Variable::Identifier(identifier) => identifier.name@ == name,
        Variable::Field(field) => uses_prefix(field.prefix, name),
        Variable::Index(index) => {
            ||| uses_prefix(index.prefix, name)
            ||| uses_expression(index.index, name)
        },
    }
}

pub open spec fn uses_prefix(prefix: Prefix, name: Name) -> bool
    decreases prefix,
{
    match prefix {
        Prefix::Identifier(identifier) => identifier.name@ == name,
        Prefix::Field(field) => uses_prefix(field.prefix, name),
        Prefix::Index(index) => {
            ||| uses_prefix(index.prefix, name)
            ||| uses_expression(index.index, name)
        },
        Prefix::Parenthese(parenthese) => uses_expression(parenthese.expression, name),
        Prefix::Call(call) => {
            ||| uses_prefix(call.prefix, name)
            ||| uses_arguments(call.arguments, name)
        },
    }
}

pub open spec fn uses_arguments(arguments: Arguments, name: Name) -> bool
    decreases arguments,
{
    match arguments {
        Arguments::Tuple(tuple) => uses_expressions(tuple.values@, name),
        Arguments::String => false,
        Arguments::Table(table) => uses_entries(table.entries@, name),
    }
}

pub open spec fn uses_entry(entry: TableEntry, name: Name) -> bool
    decreases entry,
{
    match entry {
        TableEntry::Field(field) => uses_expression(field.value, name),
        TableEntry::Index(index) => {
            ||| uses_expression(index.key, name)
            ||| uses_expression(index.value, name)
        },
        TableEntry::Value(value) => uses_expression(*value, name),
    }
}

pub open spec fn uses_segment(segment: InterpolationSegment, name: Name) -> bool
    decreases segment,
{
    match segment {
        InterpolationSegment::String => false,
        InterpolationSegment::Value(value) => uses_expression(*value, name),
    }
}

pub open spec fn uses_annotation(annotation: TypedIdentifier, name: Name) -> bool
    decreases annotation,
{
    ||| uses_expressions(annotation.type_expressions@, name)
}

pub open spec fn uses_else_if(else_if: ElseIfExpressionBranch, name: Name) -> bool
    decreases else_if,
{
    ||| uses_expression(else_if.condition, name)
    ||| uses_expression(else_if.result, name)
}

pub open spec fn uses_expression(expression: Expression, name: Name) -> bool
    decreases expression,
{
    match expression {
        Expression::Identifier(identifier) => identifier.name@ == name,
        Expression::Parenthese(parenthese) => uses_expression(parenthese.expression, name),
        Expression::Unary(unary) => uses_expression(unary.expression, name),
        Expression::Binary(binary) => {
            ||| uses_expression(binary.left, name)
            ||| uses_expression(binary.right, name)
        },
        Expression::Function(function) => {
            ||| uses_annotations(function.parameters@, name)
            ||| uses_expressions(function.type_expressions@, name)
            ||| uses_block(function.block, name)
        },
        Expression::Field(field) => uses_prefix(field.prefix, name),
        Expression::Index(index) => {
            ||| uses_prefix(index.prefix, name)
            ||| uses_expression(index.index, name)
        },
        Expression::Call(call) => {
            ||| uses_prefix(call.prefix, name)
            ||| uses_arguments(call.arguments, name)
        },
        Expression::Table(table) => uses_entries(table.entries@, name),
        Expression::If(if_expression) => {
            ||| uses_expression(if_expression.condition, name)
            ||| uses_expression(if_expression.result, name)
            ||| uses_else_ifs(if_expression.branches@, name)
            ||| uses_expression(if_expression.else_result, name)
        },
        Expression::TypeCast(cast) => {
            ||| uses_expression(cast.expression, name)
            ||| uses_expressions(cast.type_expressions@, name)
        },
        Expression::InterpolatedString(string) => uses_segments(string.segments@, name),
        Expression::Other => false,
    }
}

pub open spec fn uses_last_statement(last_statement: LastStatement, name: Name) -> bool
    decreases last_statement,
{
    match last_statement {
        LastStatement::Return(return_statement) => {
            uses_expressions(return_statement.expressions@, name)
        },
        LastStatement::Break => false,
        LastStatement::Continue => false,
    }
}

pub open spec fn uses_branch(branch: IfBranch, name: Name) -> bool
    decreases branch,
{
    ||| uses_expression(branch.condition, name)
    ||| uses_block(branch.block, name)
}

pub open spec fn uses_statement(statement: Statement, name: Name) -> bool
    decreases statement,
{
    match statement {
        Statement::Assign(assign) => {
            ||| uses_variables(assign.variables@, name)
            ||| uses_expressions(assign.values@, name)
        },
        Statement::Do(do_statement) => uses_block(do_statement.block, name),
        Statement::CompoundAssign(assign) => {
            ||| uses_variable(assign.variable, name)
            ||| uses_expression(assign.value, name)
        },
        Statement::Call(call) => {
            ||| uses_prefix(call.prefix, name)
            ||| uses_arguments(call.arguments, name)
        },
        Statement::GenericFor(generic_for) => {
            ||| uses_expressions(generic_for.expressions@, name)
            ||| uses_annotations(generic_for.identifiers@, name)
            ||| uses_block(generic_for.block, name)
        },
        Statement::If(if_statement) => {
            ||| uses_branches(if_statement.branches@, name)
            ||| match if_statement.else_block {
                Some(block) => uses_block(block, name),
                None => false,
            }
        },
        Statement::LocalAssign(assign) => {
            ||| uses_annotations(assign.variables@, name)
            ||| uses_expressions(assign.values@, name)
        },
        Statement::LocalFunction(function) => {
            ||| uses_annotations(function.parameters@, name)
            ||| uses_expressions(function.type_expressions@, name)
            ||| uses_block(function.block, name)
        },
        Statement::NumericFor(numeric_for) => {
            ||| uses_expression(numeric_for.start, name)
            ||| uses_expression(numeric_for.end, name)
            ||| match numeric_for.step {
                Some(step) => uses_expression(step, name),
                None => false,
            }
            ||| uses_annotation(numeric_for.identifier, name)
            ||| uses_block(numeric_for.block, name)
        },
        Statement::Repeat(repeat) => {
            ||| uses_block(repeat.block, name)
            ||| uses_expression(repeat.condition, name)
        },
        Statement::While(while_statement) => {
            ||| uses_expression(while_statement.condition, name)
            ||| uses_block(while_statement.block, name)
        },
        Statement::Function(function) => {
            ||| function.name.name.name@ == name
            ||| uses_annotations(function.parameters@, name)
            ||| uses_expressions(function.type_expressions@, name)
            ||| uses_block(function.block, name)
        },
        Statement::TypeDeclaration(declaration) => {
            uses_expressions(declaration.type_expressions@, name)
        },
        Statement::TypeFunction => false,
    }
}

pub open spec fn uses_segments(segments: Seq<InterpolationSegment>, name: Name) -> bool
    decreases segments,
{
    exists|i: int| 0 <= i < segments.len() && uses_segment(#[trigger] segments[i], name)
}

pub open spec fn uses_annotations(annotations: Seq<TypedIdentifier>, name: Name) -> bool
    decreases annotations,
{
    exists|i: int| 0 <= i < annotations.len() && uses_annotation(#[trigger] annotations[i], name)
}

pub open spec fn uses_variables(variables: Seq<Variable>, name: Name) -> bool
    decreases variables,
{
    exists|i: int| 0 <= i < variables.len() && uses_variable(#[trigger] variables[i], name)
}

pub open spec fn uses_entries(entries: Seq<TableEntry>, name: Name) -> bool
    decreases entries,
{
    exists|i: int| 0 <= i < entries.len() && uses_entry(#[trigger] entries[i], name)
}

pub open spec fn uses_expressions(expressions: Seq<Expression>, name: Name) -> bool
    decreases expressions,
{
    exists|i: int| 0 <= i < expressions.len() && uses_expression(#[trigger] expressions[i], name)
}

pub open spec fn uses_else_ifs(else_ifs: Seq<ElseIfExpressionBranch>, name: Name) -> bool
    decreases else_ifs,
{
    exists|i: int| 0 <= i < else_ifs.len() && uses_else_if(#[trigger] else_ifs[i], name)
}

pub open spec fn uses_branches(branches: Seq<IfBranch>, name: Name) -> bool
    decreases branches,
{
    exists|i: int| 0 <= i < branches.len() && uses_branch(#[trigger] branches[i], name)
}

pub open spec fn uses_statements(statements: Seq<Statement>, name: Name) -> bool
    decreases statements,
{
    exists|i: int| 0 <= i < statements.len() && uses_statement(#[trigger] statements[i], name)
}

pub open spec fn uses_block(block: Block, name: Name) -> bool
    decreases block,
{
    ||| uses_statements(block.statements@, name)
    ||| match block.last_statement {
        Some(last_statement) => uses_last_statement(last_statement, name),
        None => false,
    }
}

pub open spec fn binds_variable(variable: Variable, name: Name) -> bool
    decreases variable,
{
    match variable {
        Variable::Identifier(identifier) => false,
        Variable::Field(field) => binds_prefix(field.prefix, name),
        Variable::Index(index) => {
            ||| binds_prefix(index.prefix, name)
            ||| binds_expression(index.index, name)
        },
    }
}

pub open spec fn binds_prefix(prefix: Prefix, name: Name) -> bool
    decreases prefix,
{
    match prefix {
        Prefix::Identifier(identifier) => false,
        Prefix::Field(field) => binds_prefix(field.prefix, name),
        Prefix::Index(index) => {
            ||| binds_prefix(index.prefix, name)
            ||| binds_expression(index.index, name)
        },
        Prefix::Parenthese(parenthese) => binds_expression(parenthese.expression, name),
        Prefix::Call(call) => {
            ||| binds_prefix(call.prefix, name)
            ||| binds_arguments(call.arguments, name)
        },
    }
}

pub open spec fn binds_arguments(arguments: Arguments, name: Name) -> bool
    decreases arguments,
{
    match arguments {
        Arguments::Tuple(tuple) => binds_expressions(tuple.values@, name),
        Arguments::String => false,
        Arguments::Table(table) => binds_entries(table.entries@, name),
    }
}

pub open spec fn binds_entry(entry: TableEntry, name: Name) -> bool
    decreases entry,
{
    match entry {
        TableEntry::Field(field) => binds_expression(field.value, name),
        TableEntry::Index(index) => {
            ||| binds_expression(index.key, name)
            ||| binds_expression(index.value, name)
        },
        TableEntry::Value(value) => binds_expression(*value, name),
    }
}

pub open spec fn binds_segment(segment: InterpolationSegment, name: Name) -> bool
    decreases segment,
{
    match segment {
        InterpolationSegment::String => false,
        InterpolationSegment::Value(value) => binds_expression(*value, name),
    }
}

pub open spec fn binds_annotation(annotation: TypedIdentifier, name: Name) -> bool
    decreases annotation,
{
    ||| binds_expressions(annotation.type_expressions@, name)
}

pub open spec fn binds_else_if(else_if: ElseIfExpressionBranch, name: Name) -> bool
    decreases else_if,
{
    ||| binds_expression(else_if.condition, name)
    ||| binds_expression(else_if.result, name)
}

pub open spec fn binds_expression(expression: Expression, name: Name) -> bool
    decreases expression,
{
    match expression {
        Expression::Identifier(identifier) => false,
        Expression::Parenthese(parenthese) => binds_expression(parenthese.expression, name),
        Expression::Unary(unary) => binds_expression(unary.expression, name),
        Expression::Binary(binary) => {
            ||| binds_expression(binary.left, name)
            ||| binds_expression(binary.right, name)
        },
        Expression::Function(function) => {
            ||| references::identifier_names(function.parameters@).contains(name)
            ||| binds_annotations(function.parameters@, name)
            ||| binds_expressions(function.type_expressions@, name)
            ||| binds_block(function.block, name)
        },
        Expression::Field(field) => binds_prefix(field.prefix, name),
        Expression::Index(index) => {
            ||| binds_prefix(index.prefix, name)
            ||| binds_expression(index.index, name)
        },
        Expression::Call(call) => {
            ||| binds_prefix(call.prefix, name)
            ||| binds_arguments(call.arguments, name)
        },
        Expression::Table(table) => binds_entries(table.entries@, name),
        Expression::If(if_expression) => {
            ||| binds_expression(if_expression.condition, name)
            ||| binds_expression(if_expression.result, name)
            ||| binds_else_ifs(if_expression.branches@, name)
            ||| binds_expression(if_expression.else_result, name)
        },
        Expression::TypeCast(cast) => {
            ||| binds_expression(cast.expression, name)
            ||| binds_expressions(cast.type_expressions@, name)
        },
        Expression::InterpolatedString(string) => binds_segments(string.segments@, name),
        Expression::Other => false,
    }
}

pub open spec fn binds_last_statement(last_statement: LastStatement, name: Name) -> bool
    decreases last_statement,
{
    match last_statement {
        LastStatement::Return(return_statement) => {
            binds_expressions(return_statement.expressions@, name)
        },
        LastStatement::Break => false,
        LastStatement::Continue => false,
    }
}

pub open spec fn binds_branch(branch: IfBranch, name: Name) -> bool
    decreases branch,
{
    ||| binds_expression(branch.condition, name)
    ||| binds_block(branch.block, name)
}

pub open spec fn binds_statement(statement: Statement, name: Name) -> bool
    decreases statement,
{
    match statement {
        Statement::Assign(assign) => {
            ||| binds_variables(assign.variables@, name)
            ||| binds_expressions(assign.values@, name)
        },
        Statement::Do(do_statement) => binds_block(do_statement.block, name),
        Statement::CompoundAssign(assign) => {
            ||| binds_variable(assign.variable, name)
            ||| binds_expression(assign.value, name)
        },
        Statement::Call(call) => {
            ||| binds_prefix(call.prefix, name)
            ||| binds_arguments(call.arguments, name)
        },
        Statement::GenericFor(generic_for) => {
            ||| references::identifier_names(generic_for.identifiers@).contains(name)
            ||| binds_expressions(generic_for.expressions@, name)
            ||| binds_annotations(generic_for.identifiers@, name)
            ||| binds_block(generic_for.block, name)
        },
        Statement::If(if_statement) => {
            ||| binds_branches(if_statement.branches@, name)
            ||| match if_statement.else_block {
                Some(block) => binds_block(block, name),
                None => false,
            }
        },
        Statement::LocalAssign(assign) => {
            ||| references::identifier_names(assign.variables@).contains(name)
            ||| binds_annotations(assign.variables@, name)
            ||| binds_expressions(assign.values@, name)
        },
        Statement::LocalFunction(function) => {
            ||| function.identifier.name@ == name
            ||| references::identifier_names(function.parameters@).contains(name)
            ||| binds_annotations(function.parameters@, name)
            ||| binds_expressions(function.type_expressions@, name)
            ||| binds_block(function.block, name)
        },
        Statement::NumericFor(numeric_for) => {
            ||| numeric_for.identifier.name@ == name
            ||| binds_expression(numeric_for.start, name)
            ||| binds_expression(numeric_for.end, name)
            ||| match numeric_for.step {
                Some(step) => binds_expression(step, name),
                None => false,
            }
            ||| binds_annotation(numeric_for.identifier, name)
            ||| binds_block(numeric_for.block, name)
        },
        Statement::Repeat(repeat) => {
            ||| binds_block(repeat.block, name)
            ||| binds_expression(repeat.condition, name)
        },
        Statement::While(while_statement) => {
            ||| binds_expression(while_statement.condition, name)
            ||| binds_block(while_statement.block, name)
        },
        Statement::Function(function) => {
            ||| references::method_locals(function.name).contains(name)
            ||| references::identifier_names(function.parameters@).contains(name)
            ||| binds_annotations(function.parameters@, name)
            ||| binds_expressions(function.type_expressions@, name)
            ||| binds_block(function.block, name)
        },
        Statement::TypeDeclaration(declaration) => {
            binds_expressions(declaration.type_expressions@, name)
        },
        Statement::TypeFunction => false,
    }
}

pub open spec fn binds_segments(segments: Seq<InterpolationSegment>, name: Name) -> bool
    decreases segments,
{
    exists|i: int| 0 <= i < segments.len() && binds_segment(#[trigger] segments[i], name)
}

pub open spec fn binds_annotations(annotations: Seq<TypedIdentifier>, name: Name) -> bool
    decreases annotations,
{
    exists|i: int| 0 <= i < annotations.len() && binds_annotation(#[trigger] annotations[i], name)
}

pub open spec fn binds_variables(variables: Seq<Variable>, name: Name) -> bool
    decreases variables,
{
    exists|i: int| 0 <= i < variables.len() && binds_variable(#[trigger] variables[i], name)
}

pub open spec fn binds_entries(entries: Seq<TableEntry>, name: Name) -> bool
    decreases entries,
{
    exists|i: int| 0 <= i < entries.len() && binds_entry(#[trigger] entries[i], name)
}

pub open spec fn binds_expressions(expressions: Seq<Expression>, name: Name) -> bool
    decreases expressions,
{
    exists|i: int| 0 <= i < expressions.len() && binds_expression(#[trigger] expressions[i], name)
}

pub open spec fn binds_else_ifs(else_ifs: Seq<ElseIfExpressionBranch>, name: Name) -> bool
    decreases else_ifs,
{
    exists|i: int| 0 <= i < else_ifs.len() && binds_else_if(#[trigger] else_ifs[i], name)
}

pub open spec fn binds_branches(branches: Seq<IfBranch>, name: Name) -> bool
    decreases branches,
{
    exists|i: int| 0 <= i < branches.len() && binds_branch(#[trigger] branches[i], name)
}

pub open spec fn binds_statements(statements: Seq<Statement>, name: Name) -> bool
    decreases statements,
{
    exists|i: int| 0 <= i < statements.len() && binds_statement(#[trigger] statements[i], name)
}

pub open spec fn binds_block(block: Block, name: Name) -> bool
    decreases block,
{
    ||| binds_statements(block.statements@, name)
    ||| match block.last_statement {
        Some(last_statement) => binds_last_statement(last_statement, name),
        None => false,
    }
}

/// How the global references of a node relate to the occurrences of a name in it: they are the
/// same under two sets of locals that treat the name alike, each of them is a use of a name that
/// is not local, and a use is one of them unless the name is local or bound in the node.
spec fn agrees(global: bool, elsewhere: bool, used: bool, bound: bool, local: bool) -> bool {
    &&& global == elsewhere
    &&& global ==> used && !local
    &&& used && !bound && !local ==> global
}

proof fn lemma_variable(variable: Variable, outer: Set<Name>, other: Set<Name>, name: Name)
    requires
        outer.contains(name) == other.contains(name),
    ensures
        agrees(
            references::in_variable(variable, outer, name),
            references::in_variable(variable, other, name),
            uses_variable(variable, name),
            binds_variable(variable, name),
            outer.contains(name),
        ),
    decreases variable,
{
    match variable {
        Variable::Identifier(identifier) => {},
        Variable::Field(field) => {
            lemma_prefix(field.prefix, outer, other, name);
        },
        Variable::Index(index) => {
            lemma_prefix(index.prefix, outer, other, name);
            lemma_expression(index.index, outer, other, name);
        },
    }
}

proof fn lemma_prefix(prefix: Prefix, outer: Set<Name>, other: Set<Name>, name: Name)
    requires
        outer.contains(name) == other.contains(name),
    ensures
        agrees(
            references::in_prefix(prefix, outer, name),
            references::in_prefix(prefix, other, name),
            uses_prefix(prefix, name),
            binds_prefix(prefix, name),
            outer.contains(name),
        ),
    decreases prefix,
{
    match prefix {
        Prefix::Identifier(identifier) => {},
        Prefix::Field(field) => {
            lemma_prefix(field.prefix, outer, other, name);
        },
        Prefix::Index(index) => {
            lemma_prefix(index.prefix, outer, other, name);
            lemma_expression(index.index, outer, other, name);
        },
        Prefix::Parenthese(parenthese) => {
            lemma_expression(parenthese.expression, outer, other, name);
        },
        Prefix::Call(call) => {
            lemma_prefix(call.prefix, outer, other, name);
            lemma_arguments(call.arguments, outer, other, name);
        },
    }
}

proof fn lemma_arguments(arguments: Arguments, outer: Set<Name>, other: Set<Name>, name: Name)
    requires
        outer.contains(name) == other.contains(name),
    ensures
        agrees(
            references::in_arguments(arguments, outer, name),
            references::in_arguments(arguments, other, name),
            uses_arguments(arguments, name),
            binds_arguments(arguments, name),
            outer.contains(name),
        ),
    decreases arguments,
{
    match arguments {
        Arguments::Tuple(tuple) => {
            lemma_expressions(tuple.values@, outer, other, name);
        },
        Arguments::String => {},
        Arguments::Table(table) => {
            lemma_entries(table.entries@, outer, other, name);
        },
    }
}

proof fn lemma_entry(entry: TableEntry, outer: Set<Name>, other: Set<Name>, name: Name)
    requires
        outer.contains(name) == other.contains(name),
    ensures
        agrees(
            references::in_entry(entry, outer, name),
            references::in_entry(entry, other, name),
            uses_entry(entry, name),
            binds_entry(entry, name),
            outer.contains(name),
        ),
    decreases entry,
{
    match entry {
        TableEntry::Field(field) => {
            lemma_expression(field.value, outer, other, name);
        },
        TableEntry::Index(index) => {
            lemma_expression(index.key, outer, other, name);
            lemma_expression(index.value, outer, other, name);
        },
        TableEntry::Value(value) => {
            lemma_expression(*value, outer, other, name);
        },
    }
}

proof fn lemma_segment(
    segment: InterpolationSegment,
    outer: Set<Name>,
    other: Set<Name>,
    name: Name,
)
    requires
        outer.contains(name) == other.contains(name),
    ensures
        agrees(
            references::in_segment(segment, outer, name),
            references::in_segment(segment, other, name),
            uses_segment(segment, name),
            binds_segment(segment, name),
            outer.contains(name),
        ),
    decreases segment,
{
    match segment {
        InterpolationSegment::String => {},
        InterpolationSegment::Value(value) => {
            lemma_expression(*value, outer, other, name);
        },
    }
}

proof fn lemma_annotation(
    annotation: TypedIdentifier,
    outer: Set<Name>,
    other: Set<Name>,
    name: Name,
)
    requires
        outer.contains(name) == other.contains(name),
    ensures
        agrees(
            references::in_annotation(annotation, outer, name),
            references::in_annotation(annotation, other, name),
            uses_annotation(annotation, name),
            binds_annotation(annotation, name),
            outer.contains(name),
        ),
    decreases annotation,
{
    lemma_expressions(annotation.type_expressions@, outer, other, name);
}

proof fn lemma_else_if(
    else_if: ElseIfExpressionBranch,
    outer: Set<Name>,
    other: Set<Name>,
    name: Name,
)
    requires
        outer.contains(name) == other.contains(name),
    ensures
        agrees(
            references::in_else_if(else_if, outer, name),
            references::in_else_if(else_if, other, name),
            uses_else_if(else_if, name),
            binds_else_if(else_if, name),
            outer.contains(name),
        ),
    decreases else_if,
{
    lemma_expression(else_if.condition, outer, other, name);
    lemma_expression(else_if.result, outer, other, name);
}

proof fn lemma_expression(expression: Expression, outer: Set<Name>, other: Set<Name>, name: Name)
    requires
        outer.contains(name) == other.contains(name),
    ensures
        agrees(
            references::in_expression(expression, outer, name),
            references::in_expression(expression, other, name),
            uses_expression(expression, name),
            binds_expression(expression, name),
            outer.contains(name),
        ),
    decreases expression,
{
    match expression {
        Expression::Identifier(identifier) => {},
        Expression::Parenthese(parenthese) => {
            lemma_expression(parenthese.expression, outer, other, name);
        },
        Expression::Unary(unary) => {
            lemma_expression(unary.expression, outer, other, name);
        },
        Expression::Binary(binary) => {
            lemma_expression(binary.left, outer, other, name);
            lemma_expression(binary.right, outer, other, name);
        },
        Expression::Function(function) => {
            lemma_annotations(function.parameters@, outer, other, name);
            lemma_expressions(function.type_expressions@, outer, other, name);
            lemma_block(
                function.block,
                outer.union(references::identifier_names(function.parameters@)),
                other.union(references::identifier_names(function.parameters@)),
                name,
            );
        },
        Expression::Field(field) => {
            lemma_prefix(field.prefix, outer, other, name);
        },
        Expression::Index(index) => {
            lemma_prefix(index.prefix, outer, other, name);
            lemma_expression(index.index, outer, other, name);
        },
        Expression::Call(call) => {
            lemma_prefix(call.prefix, outer, other, name);
            lemma_arguments(call.arguments, outer, other, name);
        },
        Expression::Table(table) => {
            lemma_entries(table.entries@, outer, other, name);
        },
        Expression::If(if_expression) => {
            lemma_expression(if_expression.condition, outer, other, name);
            lemma_expression(if_expression.result, outer, other, name);
            lemma_else_ifs(if_expression.branches@, outer, other, name);
            lemma_expression(if_expression.else_result, outer, other, name);
        },
        Expression::TypeCast(cast) => {
            lemma_expression(cast.expression, outer, other, name);
            lemma_expressions(cast.type_expressions@, outer, other, name);
        },
        Expression::InterpolatedString(string) => {
            lemma_segments(string.segments@, outer, other, name);
        },
        Expression::Other => {},
    }
}

proof fn lemma_last_statement(
    last_statement: LastStatement,
    outer: Set<Name>,
    other: Set<Name>,
    name: Name,
)
    requires
        outer.contains(name) == other.contains(name),
    ensures
        agrees(
            references::in_last_statement(last_statement, outer, name),
            references::in_last_statement(last_statement, other, name),
            uses_last_statement(last_statement, name),
            binds_last_statement(last_statement, name),
            outer.contains(name),
        ),
    decreases last_statement,
{
    match last_statement {
        LastStatement::Return(return_statement) => {
            lemma_expressions(return_statement.expressions@, outer, other, name);
        },
        LastStatement::Break => {},
        LastStatement::Continue => {},
    }
}

proof fn lemma_branch(branch: IfBranch, outer: Set<Name>, other: Set<Name>, name: Name)
    requires
        outer.contains(name) == other.contains(name),
    ensures
        agrees(
            references::in_branch(branch, outer, name),
            references::in_branch(branch, other, name),
            uses_branch(branch, name),
            binds_branch(branch, name),
            outer.contains(name),
        ),
    decreases branch,
{
    lemma_expression(branch.condition, outer, other, name);
    lemma_block(branch.block, outer, other, name);
}

proof fn lemma_statement(statement: Statement, outer: Set<Name>, other: Set<Name>, name: Name)
    requires
        outer.contains(name) == other.contains(name),
    ensures
        agrees(
            references::in_statement(statement, outer, name),
            references::in_statement(statement, other, name),
            uses_statement(statement, name),
            binds_statement(statement, name),
            outer.contains(name),
        ),
    decreases statement,
{
    match statement {
        Statement::Assign(assign) => {
            lemma_variables(assign.variables@, outer, other, name);
            lemma_expressions(assign.values@, outer, other, name);
        },
        Statement::Do(do_statement) => {
            lemma_block(do_statement.block, outer, other, name);
        },
        Statement::CompoundAssign(assign) => {
            lemma_variable(assign.variable, outer, other, name);
            lemma_expression(assign.value, outer, other, name);
        },
        Statement::Call(call) => {
            lemma_prefix(call.prefix, outer, other, name);
            lemma_arguments(call.arguments, outer, other, name);
        },
        Statement::GenericFor(generic_for) => {
            lemma_expressions(generic_for.expressions@, outer, other, name);
            lemma_annotations(generic_for.identifiers@, outer, other, name);
            lemma_block(
                generic_for.block,
                outer.union(references::identifier_names(generic_for.identifiers@)),
                other.union(references::identifier_names(generic_for.identifiers@)),
                name,
            );
        },
        Statement::If(if_statement) => {
            lemma_branches(if_statement.branches@, outer, other, name);
            if let Some(block) = if_statement.else_block {
                lemma_block(block, outer, other, name);
            }
        },
        Statement::LocalAssign(assign) => {
            lemma_annotations(assign.variables@, outer, other, name);
            lemma_expressions(assign.values@, outer, other, name);
        },
        Statement::LocalFunction(function) => {
            lemma_annotations(function.parameters@, outer, other, name);
            lemma_expressions(function.type_expressions@, outer, other, name);
            lemma_block(
                function.block,
                outer.union(references::identifier_names(function.parameters@)),
                other.union(references::identifier_names(function.parameters@)),
                name,
            );
        },
        Statement::NumericFor(numeric_for) => {
            lemma_expression(numeric_for.start, outer, other, name);
            lemma_expression(numeric_for.end, outer, other, name);
            if let Some(step) = numeric_for.step {
                lemma_expression(step, outer, other, name);
            }
            lemma_annotation(numeric_for.identifier, outer, other, name);
            lemma_block(
                numeric_for.block,
                outer.insert(numeric_for.identifier.name@),
                other.insert(numeric_for.identifier.name@),
                name,
            );
        },
        Statement::Repeat(repeat) => {
            lemma_declared_is_bound(repeat.block.statements@, name);
            lemma_block(repeat.block, outer, other, name);
            lemma_expression(
                repeat.condition,
                outer.union(references::block_locals(repeat.block)),
                other.union(references::block_locals(repeat.block)),
                name,
            );
        },
        Statement::While(while_statement) => {
            lemma_expression(while_statement.condition, outer, other, name);
            lemma_block(while_statement.block, outer, other, name);
        },
        Statement::Function(function) => {
            lemma_annotations(function.parameters@, outer, other, name);
            lemma_expressions(function.type_expressions@, outer, other, name);
            lemma_block(
                function.block,
                outer.union(references::method_locals(function.name)).union(
                    references::identifier_names(function.parameters@),
                ),
                other.union(references::method_locals(function.name)).union(
                    references::identifier_names(function.parameters@),
                ),
                name,
            );
        },
        Statement::TypeDeclaration(declaration) => {
            lemma_expressions(declaration.type_expressions@, outer, other, name);
        },
        Statement::TypeFunction => {},
    }
}

proof fn lemma_segments(
    segments: Seq<InterpolationSegment>,
    outer: Set<Name>,
    other: Set<Name>,
    name: Name,
)
    requires
        outer.contains(name) == other.contains(name),
    ensures
        agrees(
            references::in_segments(segments, outer, name),
            references::in_segments(segments, other, name),
            uses_segments(segments, name),
            binds_segments(segments, name),
            outer.contains(name),
        ),
    decreases segments,
{
    assert forall|i: int| 0 <= i < segments.len() implies {
        let segment = #[trigger] segments[i];
        agrees(
            references::in_segment(segment, outer, name),
            references::in_segment(segment, other, name),
            uses_segment(segment, name),
            binds_segment(segment, name),
            outer.contains(name),
        )
    } by {
        lemma_segment(segments[i], outer, other, name);
    }
}

proof fn lemma_annotations(
    annotations: Seq<TypedIdentifier>,
    outer: Set<Name>,
    other: Set<Name>,
    name: Name,
)
    requires
        outer.contains(name) == other.contains(name),
    ensures
        agrees(
            references::in_annotations(annotations, outer, name),
            references::in_annotations(annotations, other, name),
            uses_annotations(annotations, name),
            binds_annotations(annotations, name),
            outer.contains(name),
        ),
    decreases annotations,
{
    assert forall|i: int| 0 <= i < annotations.len() implies {
        let annotation = #[trigger] annotations[i];
        agrees(
            references::in_annotation(annotation, outer, name),
            references::in_annotation(annotation, other, name),
            uses_annotation(annotation, name),
            binds_annotation(annotation, name),
            outer.contains(name),
        )
    } by {
        lemma_annotation(annotations[i], outer, other, name);
    }
}

proof fn lemma_variables(variables: Seq<Variable>, outer: Set<Name>, other: Set<Name>, name: Name)
    requires
        outer.contains(name) == other.contains(name),
    ensures
        agrees(
            references::in_variables(variables, outer, name),
            references::in_variables(variables, other, name),
            uses_variables(variables, name),
            binds_variables(variables, name),
            outer.contains(name),
        ),
    decreases variables,
{
    assert forall|i: int| 0 <= i < variables.len() implies {
        let variable = #[trigger] variables[i];
        agrees(
            references::in_variable(variable, outer, name),
            references::in_variable(variable, other, name),
            uses_variable(variable, name),
            binds_variable(variable, name),
            outer.contains(name),
        )
    } by {
        lemma_variable(variables[i], outer, other, name);
    }
}

proof fn lemma_entries(entries: Seq<TableEntry>, outer: Set<Name>, other: Set<Name>, name: Name)
    requires
        outer.contains(name) == other.contains(name),
    ensures
        agrees(
            references::in_entries(entries, outer, name),
            references::in_entries(entries, other, name),
            uses_entries(entries, name),
            binds_entries(entries, name),
            outer.contains(name),
        ),
    decreases entries,
{
    assert forall|i: int| 0 <= i < entries.len() implies {
        let entry = #[trigger] entries[i];
        agrees(
            references::in_entry(entry, outer, name),
            references::in_entry(entry, other, name),
            uses_entry(entry, name),
            binds_entry(entry, name),
            outer.contains(name),
        )
    } by {
        lemma_entry(entries[i], outer, other, name);
    }
}

proof fn lemma_expressions(
    expressions: Seq<Expression>,
    outer: Set<Name>,
    other: Set<Name>,
    name: Name,
)
    requires
        outer.contains(name) == other.contains(name),
    ensures
        agrees(
            references::in_expressions(expressions, outer, name),
            references::in_expressions(expressions, other, name),
            uses_expressions(expressions, name),
            binds_expressions(expressions, name),
            outer.contains(name),
        ),
    decreases expressions,
{
    assert forall|i: int| 0 <= i < expressions.len() implies {
        let expression = #[trigger] expressions[i];
        agrees(
            references::in_expression(expression, outer, name),
            references::in_expression(expression, other, name),
            uses_expression(expression, name),
            binds_expression(expression, name),
            outer.contains(name),
        )
    } by {
        lemma_expression(expressions[i], outer, other, name);
    }
}

proof fn lemma_else_ifs(
    else_ifs: Seq<ElseIfExpressionBranch>,
    outer: Set<Name>,
    other: Set<Name>,
    name: Name,
)
    requires
        outer.contains(name) == other.contains(name),
    ensures
        agrees(
            references::in_else_ifs(else_ifs, outer, name),
            references::in_else_ifs(else_ifs, other, name),
            uses_else_ifs(else_ifs, name),
            binds_else_ifs(else_ifs, name),
            outer.contains(name),
        ),
    decreases else_ifs,
{
    assert forall|i: int| 0 <= i < else_ifs.len() implies {
        let else_if = #[trigger] else_ifs[i];
        agrees(
            references::in_else_if(else_if, outer, name),
            references::in_else_if(else_if, other, name),
            uses_else_if(else_if, name),
            binds_else_if(else_if, name),
            outer.contains(name),
        )
    } by {
        lemma_else_if(else_ifs[i], outer, other, name);
    }
}

proof fn lemma_branches(branches: Seq<IfBranch>, outer: Set<Name>, other: Set<Name>, name: Name)
    requires
        outer.contains(name) == other.contains(name),
    ensures
        agrees(
            references::in_branches(branches, outer, name),
            references::in_branches(branches, other, name),
            uses_branches(branches, name),
            binds_branches(branches, name),
            outer.contains(name),
        ),
    decreases branches,
{
    assert forall|i: int| 0 <= i < branches.len() implies {
        let branch = #[trigger] branches[i];
        agrees(
            references::in_branch(branch, outer, name),
            references::in_branch(branch, other, name),
            uses_branch(branch, name),
            binds_branch(branch, name),
            outer.contains(name),
        )
    } by {
        lemma_branch(branches[i], outer, other, name);
    }
}

proof fn lemma_declared_is_bound(statements: Seq<Statement>, name: Name)
    ensures
        references::declared(statements).contains(name) ==> binds_statements(statements, name),
{
    if references::declared(statements).contains(name) {
        let i = choose|i: int|
            0 <= i < statements.len() && #[trigger] references::declares(statements[i], name);
        assert(binds_statement(statements[i], name));
    }
}

proof fn lemma_statements(
    statements: Seq<Statement>,
    outer: Set<Name>,
    other: Set<Name>,
    name: Name,
)
    requires
        outer.contains(name) == other.contains(name),
    ensures
        agrees(
            references::in_statements(statements, outer, name),
            references::in_statements(statements, other, name),
            uses_statements(statements, name),
            binds_statements(statements, name),
            outer.contains(name),
        ),
    decreases statements,
{
    assert forall|i: int| 0 <= i < statements.len() implies {
        let statement = #[trigger] statements[i];
        let own = references::declared_for(statements, i);
        &&& agrees(
            references::in_statement(statement, outer.union(own), name),
            references::in_statement(statement, other.union(own), name),
            uses_statement(statement, name),
            binds_statement(statement, name),
            outer.union(own).contains(name),
        )
        &&& own.contains(name) ==> binds_statements(statements, name)
    } by {
        let own = references::declared_for(statements, i);
        lemma_statement(statements[i], outer.union(own), other.union(own), name);
        lemma_declared_for_is_bound(statements, i, name);
    }
}

proof fn lemma_declared_for_is_bound(statements: Seq<Statement>, i: int, name: Name)
    requires
        0 <= i < statements.len(),
    ensures
        references::declared_for(statements, i).contains(name) ==> binds_statements(
            statements,
            name,
        ),
{
    let before = statements.take(i);
    if references::declared(before).contains(name) {
        let j = choose|j: int|
            0 <= j < before.len() && #[trigger] references::declares(before[j], name);
        assert(before[j] == statements[j]);
        assert(binds_statement(statements[j], name));
    } else if references::declared_for(statements, i).contains(name) {
        assert(binds_statement(statements[i], name));
    }
}

proof fn lemma_block(block: Block, outer: Set<Name>, other: Set<Name>, name: Name)
    requires
        outer.contains(name) == other.contains(name),
    ensures
        agrees(
            references::in_block(block, outer, name),
            references::in_block(block, other, name),
            uses_block(block, name),
            binds_block(block, name),
            outer.contains(name),
        ),
    decreases block,
{
    let locals = references::block_locals(block);
    lemma_declared_is_bound(block.statements@, name);
    lemma_statements(block.statements@, outer, other, name);
    if let Some(last_statement) = block.last_statement {
        lemma_last_statement(last_statement, outer.union(locals), other.union(locals), name);
    }
}

/// A name that is local around a block is not among the global references of the block.
pub proof fn locals_are_not_global(block: Block, locals: Set<Name>, name: Name)
    requires
        locals.contains(name),
    ensures
        !references::in_block(block, locals, name),
{
    lemma_block(block, locals, locals, name);
}

/// Making names local around a block takes exactly these names away from its global references.
pub proof fn locals_only_remove_their_names(
    block: Block,
    locals: Set<Name>,
    more: Set<Name>,
    name: Name,
)
    ensures
        references::in_block(block, locals.union(more), name) <==> references::in_block(
            block,
            locals,
            name,
        ) && !more.contains(name),
{
    lemma_block(block, locals.union(more), locals.union(more), name);
    if !more.contains(name) {
        lemma_block(block, locals.union(more), locals, name);
    }
}

/// Making names local around a statement takes exactly these names away from its global
/// references.
pub proof fn locals_only_remove_their_names_from_statement(
    statement: Statement,
    locals: Set<Name>,
    more: Set<Name>,
    name: Name,
)
    ensures
        references::in_statement(statement, locals.union(more), name) <==> references::in_statement(
            statement,
            locals,
            name,
        ) && !more.contains(name),
{
    lemma_statement(statement, locals.union(more), locals.union(more), name);
    if !more.contains(name) {
        lemma_statement(statement, locals.union(more), locals, name);
    }
}

/// Making names local around an expression takes exactly these names away from its global
/// references.
pub proof fn locals_only_remove_their_names_from_expression(
    expression: Expression,
    locals: Set<Name>,
    more: Set<Name>,
    name: Name,
)
    ensures
        references::in_expression(expression, locals.union(more), name)
            <==> references::in_expression(expression, locals, name) && !more.contains(name),
{
    lemma_expression(expression, locals.union(more), locals.union(more), name);
    if !more.contains(name) {
        lemma_expression(expression, locals.union(more), locals, name);
    }
}

/// What a statement refers to as a global is among the global references of its block, unless
/// the statements before it declare the name or it is a local function of that name.
pub proof fn undeclared_references_are_global(
    block: Block,
    i: int,
    locals: Set<Name>,
    name: Name,
)
    requires
        0 <= i < block.statements@.len(),
        references::in_statement(block.statements@[i], locals, name),
        !references::declared_for(block.statements@, i).contains(name),
    ensures
        references::in_block(block, locals, name),
{
    locals_only_remove_their_names_from_statement(
        block.statements@[i],
        locals,
        references::declared_for(block.statements@, i),
        name,
    );
}

/// Each global reference of a block is a use of that name in the block.
pub proof fn global_references_are_uses(block: Block, locals: Set<Name>, name: Name)
    requires
        references::in_block(block, locals, name),
    ensures
        uses_block(block, name),
{
    lemma_block(block, locals, locals, name);
}

/// A name that a block uses, and that nothing in it or around it makes local, is among its
/// global references.
pub proof fn unbound_uses_are_global(block: Block, locals: Set<Name>, name: Name)
    requires
        uses_block(block, name),
        !binds_block(block, name),
        !locals.contains(name),
    ensures
        references::in_block(block, locals, name),
{
    lemma_block(block, locals, locals, name);
}

} // verus!
