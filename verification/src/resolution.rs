//! How the global references of each construct of the language follow from those of its parts.
//!
//! Each law relates a whole to its parts under the same locals: what reaches the whole, what the
//! whole hides, and that nothing else comes in.

use vstd::prelude::*;
use crate::names::Name;
use crate::nodes::{
    Arguments, AssignStatement, BinaryExpression, Block, CompoundAssignStatement, DoStatement,
    Expression, FieldExpression, FunctionCall, FunctionExpression, FunctionStatement,
    GenericForStatement, Identifier, IfExpression, IfStatement, IndexExpression,
    InterpolatedStringExpression, InterpolationSegment, LastStatement, LocalAssignStatement,
    LocalFunctionStatement, NumericForStatement, ParentheseExpression, Prefix, RepeatStatement,
    ReturnStatement, Statement, TableEntry, TableExpression, TupleArguments, TypeCastExpression,
    TypeDeclarationStatement, TypedIdentifier, UnaryExpression, Variable, WhileStatement,
};
use crate::occurrences;
use crate::references;

verus! {

/// An identifier refers to its own name as a global, unless that name is local, wherever the
/// identifier stands: as a value, as what is written to, or in front of a field, an index or a
/// call.
pub proof fn identifier_refers_to_its_name(identifier: Identifier, locals: Set<Name>, name: Name)
    ensures
        references::in_expression(Expression::Identifier(identifier), locals, name)
            <==> identifier.name@ == name && !locals.contains(name),
        references::in_variable(Variable::Identifier(identifier), locals, name)
            <==> identifier.name@ == name && !locals.contains(name),
        references::in_prefix(Prefix::Identifier(identifier), locals, name)
            <==> identifier.name@ == name && !locals.contains(name),
{
}

/// Reading or writing a field refers to what its prefix refers to. The name of the field is a key
/// of a table and does not count.
pub proof fn field_refers_to_its_prefix(field: FieldExpression, locals: Set<Name>, name: Name)
    ensures
        references::in_expression(Expression::Field(Box::new(field)), locals, name)
            == references::in_prefix(field.prefix, locals, name),
        references::in_variable(Variable::Field(Box::new(field)), locals, name)
            == references::in_prefix(field.prefix, locals, name),
        references::in_prefix(Prefix::Field(Box::new(field)), locals, name)
            == references::in_prefix(field.prefix, locals, name),
{
}

/// Reading or writing at an index refers to what its prefix and what its index refer to, and to
/// nothing else.
pub proof fn index_refers_to_prefix_and_index(index: IndexExpression, locals: Set<Name>, name: Name)
    ensures
        references::in_prefix(index.prefix, locals, name)
            ==> references::in_expression(Expression::Index(Box::new(index)), locals, name),
        references::in_prefix(index.prefix, locals, name)
            ==> references::in_variable(Variable::Index(Box::new(index)), locals, name),
        references::in_prefix(index.prefix, locals, name)
            ==> references::in_prefix(Prefix::Index(Box::new(index)), locals, name),
        references::in_expression(index.index, locals, name)
            ==> references::in_expression(Expression::Index(Box::new(index)), locals, name),
        references::in_expression(index.index, locals, name)
            ==> references::in_variable(Variable::Index(Box::new(index)), locals, name),
        references::in_expression(index.index, locals, name)
            ==> references::in_prefix(Prefix::Index(Box::new(index)), locals, name),
        references::in_expression(Expression::Index(Box::new(index)), locals, name)
            ==> references::in_prefix(index.prefix, locals, name)
                || references::in_expression(index.index, locals, name),
        references::in_variable(Variable::Index(Box::new(index)), locals, name)
            ==> references::in_prefix(index.prefix, locals, name)
                || references::in_expression(index.index, locals, name),
        references::in_prefix(Prefix::Index(Box::new(index)), locals, name)
            ==> references::in_prefix(index.prefix, locals, name)
                || references::in_expression(index.index, locals, name),
{
}

/// A call refers to what is called and to what its arguments refer to, and to nothing else. The
/// name of a method does not count.
pub proof fn call_refers_to_prefix_and_arguments(call: FunctionCall, locals: Set<Name>, name: Name)
    ensures
        references::in_prefix(call.prefix, locals, name)
            ==> references::in_expression(Expression::Call(Box::new(call)), locals, name),
        references::in_prefix(call.prefix, locals, name)
            ==> references::in_statement(Statement::Call(Box::new(call)), locals, name),
        references::in_prefix(call.prefix, locals, name)
            ==> references::in_prefix(Prefix::Call(Box::new(call)), locals, name),
        references::in_arguments(call.arguments, locals, name)
            ==> references::in_expression(Expression::Call(Box::new(call)), locals, name),
        references::in_arguments(call.arguments, locals, name)
            ==> references::in_statement(Statement::Call(Box::new(call)), locals, name),
        references::in_arguments(call.arguments, locals, name)
            ==> references::in_prefix(Prefix::Call(Box::new(call)), locals, name),
        references::in_expression(Expression::Call(Box::new(call)), locals, name)
            ==> references::in_prefix(call.prefix, locals, name)
                || references::in_arguments(call.arguments, locals, name),
        references::in_statement(Statement::Call(Box::new(call)), locals, name)
            ==> references::in_prefix(call.prefix, locals, name)
                || references::in_arguments(call.arguments, locals, name),
        references::in_prefix(Prefix::Call(Box::new(call)), locals, name)
            ==> references::in_prefix(call.prefix, locals, name)
                || references::in_arguments(call.arguments, locals, name),
{
}

/// Each argument counts, at any position, and a string as the only argument refers to nothing.
pub proof fn arguments_refer_to_each_value(tuple: TupleArguments, locals: Set<Name>, name: Name)
    ensures
        forall|i: int|
            0 <= i < tuple.values@.len()
                && references::in_expression(#[trigger] tuple.values@[i], locals, name)
                ==> references::in_arguments(Arguments::Tuple(tuple), locals, name),
        references::in_arguments(Arguments::Tuple(tuple), locals, name)
            ==> (exists|i: int|
                0 <= i < tuple.values@.len()
                    && references::in_expression(#[trigger] tuple.values@[i], locals, name)),
        !references::in_arguments(Arguments::String, locals, name),
{
    assert(
        references::in_arguments(Arguments::Tuple(tuple), locals, name)
            == references::in_expressions(tuple.values@, locals, name)
    );
}

/// A table refers to the value of each of its entries and to each key in brackets, at any
/// position, and to nothing else. The name of a field does not count.
pub proof fn table_refers_to_each_entry(table: TableExpression, locals: Set<Name>, name: Name)
    ensures
        forall|i: int|
            0 <= i < table.entries@.len()
                && (match #[trigger] table.entries@[i] {
                    TableEntry::Field(field) => {
                        references::in_expression(field.value, locals, name)
                    },
                    TableEntry::Index(index) => {
                        references::in_expression(index.key, locals, name)
                            || references::in_expression(index.value, locals, name)
                    },
                    TableEntry::Value(value) => references::in_expression(*value, locals, name),
                })
                ==> references::in_expression(Expression::Table(table), locals, name),
        references::in_expression(Expression::Table(table), locals, name)
            ==> exists|i: int|
                0 <= i < table.entries@.len()
                    && (match #[trigger] table.entries@[i] {
                        TableEntry::Field(field) => {
                            references::in_expression(field.value, locals, name)
                        },
                        TableEntry::Index(index) => {
                            references::in_expression(index.key, locals, name)
                                || references::in_expression(index.value, locals, name)
                        },
                        TableEntry::Value(value) => references::in_expression(*value, locals, name),
                    }),
        forall|i: int|
            0 <= i < table.entries@.len()
                && (match #[trigger] table.entries@[i] {
                    TableEntry::Field(field) => {
                        references::in_expression(field.value, locals, name)
                    },
                    TableEntry::Index(index) => {
                        references::in_expression(index.key, locals, name)
                            || references::in_expression(index.value, locals, name)
                    },
                    TableEntry::Value(value) => references::in_expression(*value, locals, name),
                })
                ==> references::in_arguments(Arguments::Table(table), locals, name),
        references::in_arguments(Arguments::Table(table), locals, name)
            ==> exists|i: int|
                0 <= i < table.entries@.len()
                    && (match #[trigger] table.entries@[i] {
                        TableEntry::Field(field) => {
                            references::in_expression(field.value, locals, name)
                        },
                        TableEntry::Index(index) => {
                            references::in_expression(index.key, locals, name)
                                || references::in_expression(index.value, locals, name)
                        },
                        TableEntry::Value(value) => references::in_expression(*value, locals, name),
                    }),
{
    assert(
        references::in_expression(Expression::Table(table), locals, name)
            == references::in_entries(table.entries@, locals, name)
    );
    assert(
        references::in_arguments(Arguments::Table(table), locals, name)
            == references::in_entries(table.entries@, locals, name)
    );
    assert forall|i: int|
        0 <= i < table.entries@.len() implies
        references::in_entry(#[trigger] table.entries@[i], locals, name)
            == (match table.entries@[i] {
                TableEntry::Field(field) => references::in_expression(field.value, locals, name),
                TableEntry::Index(index) => {
                    references::in_expression(index.key, locals, name)
                        || references::in_expression(index.value, locals, name)
                },
                TableEntry::Value(value) => references::in_expression(*value, locals, name),
            }) by {}
}

/// Parentheses do not change what the expression in them refers to.
pub proof fn parentheses_change_nothing(
    parenthese: ParentheseExpression,
    locals: Set<Name>,
    name: Name,
)
    ensures
        references::in_expression(Expression::Parenthese(Box::new(parenthese)), locals, name)
            == references::in_expression(parenthese.expression, locals, name),
        references::in_prefix(Prefix::Parenthese(Box::new(parenthese)), locals, name)
            == references::in_expression(parenthese.expression, locals, name),
{
}

/// Operators refer to what their operands refer to, and to nothing else.
pub proof fn operators_refer_to_their_operands(
    unary: UnaryExpression,
    binary: BinaryExpression,
    locals: Set<Name>,
    name: Name,
)
    ensures
        references::in_expression(Expression::Unary(Box::new(unary)), locals, name)
            == references::in_expression(unary.expression, locals, name),
        references::in_expression(binary.left, locals, name)
            ==> references::in_expression(Expression::Binary(Box::new(binary)), locals, name),
        references::in_expression(binary.right, locals, name)
            ==> references::in_expression(Expression::Binary(Box::new(binary)), locals, name),
        references::in_expression(Expression::Binary(Box::new(binary)), locals, name)
            ==> references::in_expression(binary.left, locals, name)
                || references::in_expression(binary.right, locals, name),
{
}

/// An if expression refers to what any of its conditions and any of its results refer to,
/// whichever branch they stand in, and to nothing else.
pub proof fn if_expression_refers_to_each_branch(
    choice: IfExpression,
    locals: Set<Name>,
    name: Name,
)
    ensures
        references::in_expression(choice.condition, locals, name)
            ==> references::in_expression(Expression::If(Box::new(choice)), locals, name),
        references::in_expression(choice.result, locals, name)
            ==> references::in_expression(Expression::If(Box::new(choice)), locals, name),
        references::in_expression(choice.else_result, locals, name)
            ==> references::in_expression(Expression::If(Box::new(choice)), locals, name),
        forall|i: int|
            0 <= i < choice.branches@.len()
                && references::in_expression(
                        (#[trigger] choice.branches@[i]).condition,
                        locals,
                        name,
                    )
                ==> references::in_expression(Expression::If(Box::new(choice)), locals, name),
        forall|i: int|
            0 <= i < choice.branches@.len()
                && references::in_expression((#[trigger] choice.branches@[i]).result, locals, name)
                ==> references::in_expression(Expression::If(Box::new(choice)), locals, name),
        references::in_expression(Expression::If(Box::new(choice)), locals, name)
            ==> references::in_expression(choice.condition, locals, name)
                || references::in_expression(choice.result, locals, name)
                || references::in_expression(choice.else_result, locals, name)
                || (exists|i: int|
                    0 <= i < choice.branches@.len()
                        && (
                            references::in_expression(
                                (#[trigger] choice.branches@[i]).condition,
                                locals,
                                name,
                            )
                                || references::in_expression(
                                        choice.branches@[i].result,
                                        locals,
                                        name,
                                    )
                        )),
{
    let branches = choice.branches@;
    assert forall|i: int|
        0 <= i < branches.len() implies
        references::in_else_if(#[trigger] branches[i], locals, name)
            == (
                references::in_expression(branches[i].condition, locals, name)
                    || references::in_expression(branches[i].result, locals, name)
            ) by {}
    assert(
        references::in_expression(Expression::If(Box::new(choice)), locals, name)
            == (
                references::in_expression(choice.condition, locals, name)
                    || references::in_expression(choice.result, locals, name)
                    || references::in_else_ifs(branches, locals, name)
                    || references::in_expression(choice.else_result, locals, name)
            )
    );
}

/// A cast refers to what the expression under it refers to and to each expression in its type, and
/// to nothing else.
pub proof fn cast_refers_to_expression_and_type(
    cast: TypeCastExpression,
    locals: Set<Name>,
    name: Name,
)
    ensures
        references::in_expression(cast.expression, locals, name)
            ==> references::in_expression(Expression::TypeCast(Box::new(cast)), locals, name),
        forall|i: int|
            0 <= i < cast.type_expressions@.len()
                && references::in_expression(#[trigger] cast.type_expressions@[i], locals, name)
                ==> references::in_expression(Expression::TypeCast(Box::new(cast)), locals, name),
        references::in_expression(Expression::TypeCast(Box::new(cast)), locals, name)
            ==> references::in_expression(cast.expression, locals, name)
                || (exists|i: int|
                    0 <= i < cast.type_expressions@.len()
                        && references::in_expression(
                            #[trigger] cast.type_expressions@[i],
                            locals,
                            name,
                        )),
{
    assert(
        references::in_expression(Expression::TypeCast(Box::new(cast)), locals, name)
            == (
                references::in_expression(cast.expression, locals, name)
                    || references::in_expressions(cast.type_expressions@, locals, name)
            )
    );
}

/// An interpolated string refers to what each expression in it refers to, at any position, and to
/// nothing else.
pub proof fn interpolated_string_refers_to_each_value(
    string: InterpolatedStringExpression,
    locals: Set<Name>,
    name: Name,
)
    ensures
        forall|i: int|
            0 <= i < string.segments@.len()
                && (
                    #[trigger] string.segments@[i] matches InterpolationSegment::Value(value)
                        && references::in_expression(*value, locals, name)
                )
                ==> references::in_expression(Expression::InterpolatedString(string), locals, name),
        references::in_expression(Expression::InterpolatedString(string), locals, name)
            ==> exists|i: int|
                0 <= i < string.segments@.len()
                    && (
                        #[trigger] string.segments@[i] matches InterpolationSegment::Value(value)
                            && references::in_expression(*value, locals, name)
                    ),
{
    let segments = string.segments@;
    assert(
        references::in_expression(Expression::InterpolatedString(string), locals, name)
            == references::in_segments(segments, locals, name)
    );
    assert forall|i: int|
        0 <= i < segments.len() implies
        references::in_segment(#[trigger] segments[i], locals, name)
            == (
                segments[i] matches InterpolationSegment::Value(value)
                    && references::in_expression(*value, locals, name)
            ) by {}
}

/// Literals, `...`, type functions and statements that only leave a block refer to nothing.
pub proof fn literals_refer_to_nothing(locals: Set<Name>, name: Name)
    ensures
        !references::in_expression(Expression::Other, locals, name),
        !references::in_statement(Statement::TypeFunction, locals, name),
        !references::in_last_statement(LastStatement::Break, locals, name),
        !references::in_last_statement(LastStatement::Continue, locals, name),
{
}

/// The annotations of a list of identifiers refer to what the expressions in them refer to.
proof fn lemma_annotations(identifiers: Seq<TypedIdentifier>, locals: Set<Name>, name: Name)
    ensures
        references::in_annotations(identifiers, locals, name)
            <==> (exists|i: int, k: int|
                0 <= i < identifiers.len()
                    && 0 <= k < identifiers[i].type_expressions@.len()
                    && references::in_expression(
                        #[trigger] identifiers[i].type_expressions@[k],
                        locals,
                        name,
                    )),
{
    if references::in_annotations(identifiers, locals, name) {
        let i = choose|i: int|
            0 <= i < identifiers.len()
                && references::in_annotation(#[trigger] identifiers[i], locals, name);
        assert(references::in_expressions(identifiers[i].type_expressions@, locals, name));
        let k = choose|k: int|
            0 <= k < identifiers[i].type_expressions@.len()
                && references::in_expression(
                    #[trigger] identifiers[i].type_expressions@[k],
                    locals,
                    name,
                );
        assert(references::in_expression(identifiers[i].type_expressions@[k], locals, name));
    }
    if (exists|i: int, k: int|
            0 <= i < identifiers.len()
                && 0 <= k < identifiers[i].type_expressions@.len()
                && references::in_expression(
                    #[trigger] identifiers[i].type_expressions@[k],
                    locals,
                    name,
                )) {
        let (i, k) = choose|i: int, k: int|
            0 <= i < identifiers.len()
                && 0 <= k < identifiers[i].type_expressions@.len()
                && references::in_expression(
                    #[trigger] identifiers[i].type_expressions@[k],
                    locals,
                    name,
                );
        assert(references::in_expressions(identifiers[i].type_expressions@, locals, name));
        assert(references::in_annotation(identifiers[i], locals, name));
    }
}

/// In the body of a function each of its parameters is local, at any position in the list, and no
/// other name is. What the annotations refer to, they refer to outside of the body.
pub proof fn function_hides_each_parameter(
    function: FunctionExpression,
    locals: Set<Name>,
    name: Name,
)
    ensures
        forall|i: int, k: int|
            0 <= i < function.parameters@.len()
                && 0 <= k < function.parameters@[i].type_expressions@.len()
                && references::in_expression(
                    #[trigger] function.parameters@[i].type_expressions@[k],
                    locals,
                    name,
                )
                ==> references::in_expression(
                        Expression::Function(Box::new(function)),
                        locals,
                        name,
                    ),
        forall|i: int|
            0 <= i < function.type_expressions@.len()
                && references::in_expression(#[trigger] function.type_expressions@[i], locals, name)
                ==> references::in_expression(
                        Expression::Function(Box::new(function)),
                        locals,
                        name,
                    ),
        references::in_block(function.block, locals, name)
            && (forall|i: int|
                0 <= i < function.parameters@.len()
                    ==> (#[trigger] function.parameters@[i]).name@ != name)
            ==> references::in_expression(Expression::Function(Box::new(function)), locals, name),
        references::in_expression(Expression::Function(Box::new(function)), locals, name)
            && (exists|i: int|
                0 <= i < function.parameters@.len()
                    && (#[trigger] function.parameters@[i]).name@ == name)
            ==> (exists|i: int, k: int|
                0 <= i < function.parameters@.len()
                    && 0 <= k < function.parameters@[i].type_expressions@.len()
                    && references::in_expression(
                        #[trigger] function.parameters@[i].type_expressions@[k],
                        locals,
                        name,
                    ))
                || (exists|i: int|
                    0 <= i < function.type_expressions@.len()
                        && references::in_expression(
                            #[trigger] function.type_expressions@[i],
                            locals,
                            name,
                        )),
        references::in_expression(Expression::Function(Box::new(function)), locals, name)
            ==> (exists|i: int, k: int|
                0 <= i < function.parameters@.len()
                    && 0 <= k < function.parameters@[i].type_expressions@.len()
                    && references::in_expression(
                        #[trigger] function.parameters@[i].type_expressions@[k],
                        locals,
                        name,
                    ))
                || (exists|i: int|
                    0 <= i < function.type_expressions@.len()
                        && references::in_expression(
                            #[trigger] function.type_expressions@[i],
                            locals,
                            name,
                        ))
                || references::in_block(function.block, locals, name),
{
    occurrences::locals_only_remove_their_names(
        function.block,
        locals,
        references::identifier_names(function.parameters@),
        name,
    );
    assert(
        references::in_expression(Expression::Function(Box::new(function)), locals, name)
            == (
                references::in_annotations(function.parameters@, locals, name)
                    || references::in_expressions(function.type_expressions@, locals, name)
                    || references::in_block(
                        function.block,
                        locals.union(references::identifier_names(function.parameters@)),
                        name,
                    )
            )
    );
    lemma_annotations(function.parameters@, locals, name);
    assert(
        references::in_expressions(function.type_expressions@, locals, name)
            == (exists|i: int|
                0 <= i < function.type_expressions@.len()
                    && references::in_expression(
                        #[trigger] function.type_expressions@[i],
                        locals,
                        name,
                    ))
    );
}

/// In the body of a local function each of its parameters is local, at any position in the list,
/// and no other name is. That its own name is local, the block around it decides.
pub proof fn local_function_hides_each_parameter(
    function: LocalFunctionStatement,
    locals: Set<Name>,
    name: Name,
)
    ensures
        forall|i: int, k: int|
            0 <= i < function.parameters@.len()
                && 0 <= k < function.parameters@[i].type_expressions@.len()
                && references::in_expression(
                    #[trigger] function.parameters@[i].type_expressions@[k],
                    locals,
                    name,
                )
                ==> references::in_statement(
                    Statement::LocalFunction(Box::new(function)),
                    locals,
                    name,
                ),
        forall|i: int|
            0 <= i < function.type_expressions@.len()
                && references::in_expression(#[trigger] function.type_expressions@[i], locals, name)
                ==> references::in_statement(
                    Statement::LocalFunction(Box::new(function)),
                    locals,
                    name,
                ),
        references::in_block(function.block, locals, name)
            && (forall|i: int|
                0 <= i < function.parameters@.len()
                    ==> (#[trigger] function.parameters@[i]).name@ != name)
            ==> references::in_statement(
                    Statement::LocalFunction(Box::new(function)),
                    locals,
                    name,
                ),
        references::in_statement(Statement::LocalFunction(Box::new(function)), locals, name)
            && (exists|i: int|
                0 <= i < function.parameters@.len()
                    && (#[trigger] function.parameters@[i]).name@ == name)
            ==> (exists|i: int, k: int|
                0 <= i < function.parameters@.len()
                    && 0 <= k < function.parameters@[i].type_expressions@.len()
                    && references::in_expression(
                        #[trigger] function.parameters@[i].type_expressions@[k],
                        locals,
                        name,
                    ))
                || (exists|i: int|
                    0 <= i < function.type_expressions@.len()
                        && references::in_expression(
                            #[trigger] function.type_expressions@[i],
                            locals,
                            name,
                        )),
        references::in_statement(Statement::LocalFunction(Box::new(function)), locals, name)
            ==> (exists|i: int, k: int|
                0 <= i < function.parameters@.len()
                    && 0 <= k < function.parameters@[i].type_expressions@.len()
                    && references::in_expression(
                        #[trigger] function.parameters@[i].type_expressions@[k],
                        locals,
                        name,
                    ))
                || (exists|i: int|
                    0 <= i < function.type_expressions@.len()
                        && references::in_expression(
                            #[trigger] function.type_expressions@[i],
                            locals,
                            name,
                        ))
                || references::in_block(function.block, locals, name),
{
    occurrences::locals_only_remove_their_names(
        function.block,
        locals,
        references::identifier_names(function.parameters@),
        name,
    );
    assert(
        references::in_statement(Statement::LocalFunction(Box::new(function)), locals, name)
            == (
                references::in_annotations(function.parameters@, locals, name)
                    || references::in_expressions(function.type_expressions@, locals, name)
                    || references::in_block(
                        function.block,
                        locals.union(references::identifier_names(function.parameters@)),
                        name,
                    )
            )
    );
    lemma_annotations(function.parameters@, locals, name);
    assert(
        references::in_expressions(function.type_expressions@, locals, name)
            == (exists|i: int|
                0 <= i < function.type_expressions@.len()
                    && references::in_expression(
                        #[trigger] function.type_expressions@[i],
                        locals,
                        name,
                    ))
    );
}

/// A function statement refers to the first of the names that it assigns to. In its body each of
/// its parameters is local, at any position in the list, and in a method `self` is, and no other
/// name.
pub proof fn function_statement_hides_each_parameter(
    function: FunctionStatement,
    locals: Set<Name>,
    name: Name,
)
    ensures
        function.name.name.name@ == name && !locals.contains(name)
            ==> references::in_statement(Statement::Function(Box::new(function)), locals, name),
        forall|i: int, k: int|
            0 <= i < function.parameters@.len()
                && 0 <= k < function.parameters@[i].type_expressions@.len()
                && references::in_expression(
                    #[trigger] function.parameters@[i].type_expressions@[k],
                    locals,
                    name,
                )
                ==> references::in_statement(Statement::Function(Box::new(function)), locals, name),
        forall|i: int|
            0 <= i < function.type_expressions@.len()
                && references::in_expression(#[trigger] function.type_expressions@[i], locals, name)
                ==> references::in_statement(Statement::Function(Box::new(function)), locals, name),
        references::in_block(function.block, locals, name)
            && (forall|i: int|
                0 <= i < function.parameters@.len()
                    ==> (#[trigger] function.parameters@[i]).name@ != name)
            && !(function.name.method is Some && name == "self"@)
            ==> references::in_statement(Statement::Function(Box::new(function)), locals, name),
        references::in_statement(Statement::Function(Box::new(function)), locals, name)
            && (exists|i: int|
                0 <= i < function.parameters@.len()
                    && (#[trigger] function.parameters@[i]).name@ == name)
            ==> (function.name.name.name@ == name && !locals.contains(name))
                || (exists|i: int, k: int|
                    0 <= i < function.parameters@.len()
                        && 0 <= k < function.parameters@[i].type_expressions@.len()
                        && references::in_expression(
                            #[trigger] function.parameters@[i].type_expressions@[k],
                            locals,
                            name,
                        ))
                || (exists|i: int|
                    0 <= i < function.type_expressions@.len()
                        && references::in_expression(
                            #[trigger] function.type_expressions@[i],
                            locals,
                            name,
                        )),
        references::in_statement(Statement::Function(Box::new(function)), locals, name)
            && (function.name.method is Some && name == "self"@)
            ==> (function.name.name.name@ == name && !locals.contains(name))
                || (exists|i: int, k: int|
                    0 <= i < function.parameters@.len()
                        && 0 <= k < function.parameters@[i].type_expressions@.len()
                        && references::in_expression(
                            #[trigger] function.parameters@[i].type_expressions@[k],
                            locals,
                            name,
                        ))
                || (exists|i: int|
                    0 <= i < function.type_expressions@.len()
                        && references::in_expression(
                            #[trigger] function.type_expressions@[i],
                            locals,
                            name,
                        )),
        references::in_statement(Statement::Function(Box::new(function)), locals, name)
            ==> (function.name.name.name@ == name && !locals.contains(name))
                || (exists|i: int, k: int|
                    0 <= i < function.parameters@.len()
                        && 0 <= k < function.parameters@[i].type_expressions@.len()
                        && references::in_expression(
                            #[trigger] function.parameters@[i].type_expressions@[k],
                            locals,
                            name,
                        ))
                || (exists|i: int|
                    0 <= i < function.type_expressions@.len()
                        && references::in_expression(
                            #[trigger] function.type_expressions@[i],
                            locals,
                            name,
                        ))
                || references::in_block(function.block, locals, name),
{
    let parameters = references::identifier_names(function.parameters@);
    let method = references::method_locals(function.name);
    occurrences::locals_only_remove_their_names(function.block, locals, method, name);
    occurrences::locals_only_remove_their_names(
        function.block,
        locals.union(method),
        parameters,
        name,
    );
    assert(
        references::in_statement(Statement::Function(Box::new(function)), locals, name)
            == (
                references::in_identifier(function.name.name, locals, name)
                    || references::in_annotations(function.parameters@, locals, name)
                    || references::in_expressions(function.type_expressions@, locals, name)
                    || references::in_block(
                        function.block,
                        locals.union(method).union(parameters),
                        name,
                    )
            )
    );
    lemma_annotations(function.parameters@, locals, name);
    assert(
        references::in_expressions(function.type_expressions@, locals, name)
            == (exists|i: int|
                0 <= i < function.type_expressions@.len()
                    && references::in_expression(
                        #[trigger] function.type_expressions@[i],
                        locals,
                        name,
                    ))
    );
}

/// In the block of a loop over expressions each of its variables is local, at any position in the
/// list, and no other name is. The expressions stand outside of the block.
pub proof fn generic_for_hides_each_variable(
    generic_for: GenericForStatement,
    locals: Set<Name>,
    name: Name,
)
    ensures
        forall|i: int|
            0 <= i < generic_for.expressions@.len()
                && references::in_expression(#[trigger] generic_for.expressions@[i], locals, name)
                ==> references::in_statement(
                    Statement::GenericFor(Box::new(generic_for)),
                    locals,
                    name,
                ),
        forall|i: int, k: int|
            0 <= i < generic_for.identifiers@.len()
                && 0 <= k < generic_for.identifiers@[i].type_expressions@.len()
                && references::in_expression(
                    #[trigger] generic_for.identifiers@[i].type_expressions@[k],
                    locals,
                    name,
                )
                ==> references::in_statement(
                    Statement::GenericFor(Box::new(generic_for)),
                    locals,
                    name,
                ),
        references::in_block(generic_for.block, locals, name)
            && (forall|i: int|
                0 <= i < generic_for.identifiers@.len()
                    ==> (#[trigger] generic_for.identifiers@[i]).name@ != name)
            ==> references::in_statement(
                    Statement::GenericFor(Box::new(generic_for)),
                    locals,
                    name,
                ),
        references::in_statement(Statement::GenericFor(Box::new(generic_for)), locals, name)
            && (exists|i: int|
                0 <= i < generic_for.identifiers@.len()
                    && (#[trigger] generic_for.identifiers@[i]).name@ == name)
            ==> (exists|i: int|
                0 <= i < generic_for.expressions@.len()
                    && references::in_expression(
                            #[trigger] generic_for.expressions@[i],
                            locals,
                            name,
                        ))
                || (exists|i: int, k: int|
                    0 <= i < generic_for.identifiers@.len()
                        && 0 <= k < generic_for.identifiers@[i].type_expressions@.len()
                        && references::in_expression(
                            #[trigger] generic_for.identifiers@[i].type_expressions@[k],
                            locals,
                            name,
                        )),
        references::in_statement(Statement::GenericFor(Box::new(generic_for)), locals, name)
            ==> (exists|i: int|
                0 <= i < generic_for.expressions@.len()
                    && references::in_expression(
                            #[trigger] generic_for.expressions@[i],
                            locals,
                            name,
                        ))
                || (exists|i: int, k: int|
                    0 <= i < generic_for.identifiers@.len()
                        && 0 <= k < generic_for.identifiers@[i].type_expressions@.len()
                        && references::in_expression(
                            #[trigger] generic_for.identifiers@[i].type_expressions@[k],
                            locals,
                            name,
                        ))
                || references::in_block(generic_for.block, locals, name),
{
    occurrences::locals_only_remove_their_names(
        generic_for.block,
        locals,
        references::identifier_names(generic_for.identifiers@),
        name,
    );
    assert(
        references::in_statement(Statement::GenericFor(Box::new(generic_for)), locals, name)
            == (
                references::in_expressions(generic_for.expressions@, locals, name)
                    || references::in_annotations(generic_for.identifiers@, locals, name)
                    || references::in_block(
                        generic_for.block,
                        locals.union(references::identifier_names(generic_for.identifiers@)),
                        name,
                    )
            )
    );
    lemma_annotations(generic_for.identifiers@, locals, name);
    assert(
        references::in_expressions(generic_for.expressions@, locals, name)
            == (exists|i: int|
                0 <= i < generic_for.expressions@.len()
                    && references::in_expression(
                            #[trigger] generic_for.expressions@[i],
                            locals,
                            name,
                        ))
    );
}

/// In the block of a numeric loop its variable is local, and no other name is. Its bounds and its
/// step stand outside of the block.
pub proof fn numeric_for_hides_its_variable(
    numeric_for: NumericForStatement,
    locals: Set<Name>,
    name: Name,
)
    ensures
        references::in_expression(numeric_for.start, locals, name)
            ==> references::in_statement(
                    Statement::NumericFor(Box::new(numeric_for)),
                    locals,
                    name,
                ),
        references::in_expression(numeric_for.end, locals, name)
            ==> references::in_statement(
                    Statement::NumericFor(Box::new(numeric_for)),
                    locals,
                    name,
                ),
        (numeric_for.step matches Some(step) && references::in_expression(step, locals, name))
            ==> references::in_statement(
                    Statement::NumericFor(Box::new(numeric_for)),
                    locals,
                    name,
                ),
        forall|i: int|
            0 <= i < numeric_for.identifier.type_expressions@.len()
                && references::in_expression(
                    #[trigger] numeric_for.identifier.type_expressions@[i],
                    locals,
                    name,
                )
                ==> references::in_statement(
                    Statement::NumericFor(Box::new(numeric_for)),
                    locals,
                    name,
                ),
        references::in_block(numeric_for.block, locals, name)
            && numeric_for.identifier.name@ != name
            ==> references::in_statement(
                    Statement::NumericFor(Box::new(numeric_for)),
                    locals,
                    name,
                ),
        references::in_statement(Statement::NumericFor(Box::new(numeric_for)), locals, name)
            && numeric_for.identifier.name@ == name
            ==> references::in_expression(numeric_for.start, locals, name)
                || references::in_expression(numeric_for.end, locals, name)
                || (
                    numeric_for.step matches Some(step)
                        && references::in_expression(step, locals, name)
                )
                || (exists|i: int|
                    0 <= i < numeric_for.identifier.type_expressions@.len()
                        && references::in_expression(
                            #[trigger] numeric_for.identifier.type_expressions@[i],
                            locals,
                            name,
                        )),
        references::in_statement(Statement::NumericFor(Box::new(numeric_for)), locals, name)
            ==> references::in_expression(numeric_for.start, locals, name)
                || references::in_expression(numeric_for.end, locals, name)
                || (
                    numeric_for.step matches Some(step)
                        && references::in_expression(step, locals, name)
                )
                || (exists|i: int|
                    0 <= i < numeric_for.identifier.type_expressions@.len()
                        && references::in_expression(
                            #[trigger] numeric_for.identifier.type_expressions@[i],
                            locals,
                            name,
                        ))
                || references::in_block(numeric_for.block, locals, name),
{
    let own = set![numeric_for.identifier.name@];
    occurrences::locals_only_remove_their_names(numeric_for.block, locals, own, name);
    assert(locals.union(own) =~= locals.insert(numeric_for.identifier.name@));
    assert(
        references::in_annotation(numeric_for.identifier, locals, name)
            == references::in_expressions(numeric_for.identifier.type_expressions@, locals, name)
    );
    assert(
        references::in_expressions(numeric_for.identifier.type_expressions@, locals, name)
            == (exists|i: int|
                0 <= i < numeric_for.identifier.type_expressions@.len()
                    && references::in_expression(
                        #[trigger] numeric_for.identifier.type_expressions@[i],
                        locals,
                        name,
                    ))
    );
}

/// An if statement refers to what any of its conditions refers to, whatever the blocks declare,
/// and to what any of its blocks refers to, each one by itself, and to nothing else.
pub proof fn if_statement_refers_to_each_branch(choice: IfStatement, locals: Set<Name>, name: Name)
    ensures
        forall|i: int|
            0 <= i < choice.branches@.len()
                && references::in_expression(
                        (#[trigger] choice.branches@[i]).condition,
                        locals,
                        name,
                    )
                ==> references::in_statement(Statement::If(Box::new(choice)), locals, name),
        forall|i: int|
            0 <= i < choice.branches@.len()
                && references::in_block((#[trigger] choice.branches@[i]).block, locals, name)
                ==> references::in_statement(Statement::If(Box::new(choice)), locals, name),
        (choice.else_block matches Some(block) && references::in_block(block, locals, name))
            ==> references::in_statement(Statement::If(Box::new(choice)), locals, name),
        references::in_statement(Statement::If(Box::new(choice)), locals, name)
            ==> (choice.else_block matches Some(block) && references::in_block(block, locals, name))
                || (exists|i: int|
                    0 <= i < choice.branches@.len()
                        && (
                            references::in_expression(
                                (#[trigger] choice.branches@[i]).condition,
                                locals,
                                name,
                            )
                                || references::in_block(choice.branches@[i].block, locals, name)
                        )),
{
    let branches = choice.branches@;
    assert forall|i: int|
        0 <= i < branches.len() implies
        references::in_branch(#[trigger] branches[i], locals, name)
            == (
                references::in_expression(branches[i].condition, locals, name)
                    || references::in_block(branches[i].block, locals, name)
            ) by {}
    assert(
        references::in_statement(Statement::If(Box::new(choice)), locals, name)
            == (
                references::in_branches(branches, locals, name)
                    || (
                        choice.else_block matches Some(block)
                            && references::in_block(block, locals, name)
                    )
            )
    );
}

/// A while loop refers to what its condition refers to, whatever its block declares, and to what
/// its block refers to, and to nothing else; a block in `do` and `end` refers to what it refers to
/// alone.
pub proof fn while_refers_to_condition_and_block(
    while_statement: WhileStatement,
    do_statement: DoStatement,
    locals: Set<Name>,
    name: Name,
)
    ensures
        references::in_expression(while_statement.condition, locals, name)
            ==> references::in_statement(Statement::While(Box::new(while_statement)), locals, name),
        references::in_block(while_statement.block, locals, name)
            ==> references::in_statement(Statement::While(Box::new(while_statement)), locals, name),
        references::in_statement(Statement::While(Box::new(while_statement)), locals, name)
            ==> references::in_expression(while_statement.condition, locals, name)
                || references::in_block(while_statement.block, locals, name),
        references::in_statement(Statement::Do(Box::new(do_statement)), locals, name)
            == references::in_block(do_statement.block, locals, name),
{
}

/// An assignment refers to what each of its variables and each of its values refer to, at any
/// position, and to nothing else.
pub proof fn assignment_refers_to_variables_and_values(
    assign: AssignStatement,
    locals: Set<Name>,
    name: Name,
)
    ensures
        forall|i: int|
            0 <= i < assign.variables@.len()
                && references::in_variable(#[trigger] assign.variables@[i], locals, name)
                ==> references::in_statement(Statement::Assign(assign), locals, name),
        forall|i: int|
            0 <= i < assign.values@.len()
                && references::in_expression(#[trigger] assign.values@[i], locals, name)
                ==> references::in_statement(Statement::Assign(assign), locals, name),
        references::in_statement(Statement::Assign(assign), locals, name)
            ==> (exists|i: int|
                0 <= i < assign.variables@.len()
                    && references::in_variable(#[trigger] assign.variables@[i], locals, name))
                || (exists|i: int|
                    0 <= i < assign.values@.len()
                        && references::in_expression(#[trigger] assign.values@[i], locals, name)),
{
    assert(
        references::in_statement(Statement::Assign(assign), locals, name)
            == (
                references::in_variables(assign.variables@, locals, name)
                    || references::in_expressions(assign.values@, locals, name)
            )
    );
}

/// An assignment that combines values refers to its variable and to what its value refers to, and
/// to nothing else.
pub proof fn compound_assignment_refers_to_variable_and_value(
    assign: CompoundAssignStatement,
    locals: Set<Name>,
    name: Name,
)
    ensures
        references::in_variable(assign.variable, locals, name)
            ==> references::in_statement(Statement::CompoundAssign(Box::new(assign)), locals, name),
        references::in_expression(assign.value, locals, name)
            ==> references::in_statement(Statement::CompoundAssign(Box::new(assign)), locals, name),
        references::in_statement(Statement::CompoundAssign(Box::new(assign)), locals, name)
            ==> references::in_variable(assign.variable, locals, name)
                || references::in_expression(assign.value, locals, name),
{
}

/// The values and the annotations of a local assignment do not see the names that it declares: it
/// refers to what each of them refers to, at any position, and to nothing else.
pub proof fn local_assignment_refers_to_its_values(
    assign: LocalAssignStatement,
    locals: Set<Name>,
    name: Name,
)
    ensures
        forall|i: int, k: int|
            0 <= i < assign.variables@.len()
                && 0 <= k < assign.variables@[i].type_expressions@.len()
                && references::in_expression(
                    #[trigger] assign.variables@[i].type_expressions@[k],
                    locals,
                    name,
                )
                ==> references::in_statement(Statement::LocalAssign(assign), locals, name),
        forall|i: int|
            0 <= i < assign.values@.len()
                && references::in_expression(#[trigger] assign.values@[i], locals, name)
                ==> references::in_statement(Statement::LocalAssign(assign), locals, name),
        references::in_statement(Statement::LocalAssign(assign), locals, name)
            ==> (exists|i: int, k: int|
                0 <= i < assign.variables@.len()
                    && 0 <= k < assign.variables@[i].type_expressions@.len()
                    && references::in_expression(
                        #[trigger] assign.variables@[i].type_expressions@[k],
                        locals,
                        name,
                    ))
                || (exists|i: int|
                    0 <= i < assign.values@.len()
                        && references::in_expression(#[trigger] assign.values@[i], locals, name)),
{
    lemma_annotations(assign.variables@, locals, name);
    assert(
        references::in_statement(Statement::LocalAssign(assign), locals, name)
            == (
                references::in_annotations(assign.variables@, locals, name)
                    || references::in_expressions(assign.values@, locals, name)
            )
    );
}

/// A type declaration refers to what each expression in its type refers to, and to nothing else.
pub proof fn type_declaration_refers_to_its_type(
    declaration: TypeDeclarationStatement,
    locals: Set<Name>,
    name: Name,
)
    ensures
        forall|i: int|
            0 <= i < declaration.type_expressions@.len()
                && references::in_expression(
                        #[trigger] declaration.type_expressions@[i],
                        locals,
                        name,
                    )
                ==> references::in_statement(Statement::TypeDeclaration(declaration), locals, name),
        references::in_statement(Statement::TypeDeclaration(declaration), locals, name)
            ==> (exists|i: int|
                0 <= i < declaration.type_expressions@.len()
                    && references::in_expression(
                        #[trigger] declaration.type_expressions@[i],
                        locals,
                        name,
                    )),
{
    assert(
        references::in_statement(Statement::TypeDeclaration(declaration), locals, name)
            == references::in_expressions(declaration.type_expressions@, locals, name)
    );
}

/// What a statement refers to, its block refers to, unless an earlier local assignment declares
/// the name, or an earlier local function or the statement itself as a local function has it.
pub proof fn statement_references_reach_the_block(
    block: Block,
    i: int,
    locals: Set<Name>,
    name: Name,
)
    requires
        0 <= i < block.statements@.len(),
        references::in_statement(block.statements@[i], locals, name),
        forall|j: int|
            0 <= j < i
                ==> match #[trigger] block.statements@[j] {
                    Statement::LocalAssign(assign) => forall|k: int|
                        0 <= k < assign.variables@.len()
                            ==> (#[trigger] assign.variables@[k]).name@ != name,
                    _ => true,
                },
        forall|j: int|
            0 <= j <= i
                ==> match #[trigger] block.statements@[j] {
                    Statement::LocalFunction(function) => function.identifier.name@ != name,
                    _ => true,
                },
    ensures
        references::in_block(block, locals, name),
{
    let own = references::declared_for(block.statements@, i);
    let earlier = block.statements@.take(i);
    if references::declared(earlier).contains(name) {
        let j = choose|j: int|
            0 <= j < earlier.len() && #[trigger] references::declares(earlier[j], name);
        assert(earlier[j] == block.statements@[j]);
        assert(false);
    }
    assert(!own.contains(name));
    occurrences::locals_only_remove_their_names_from_statement(
        block.statements@[i],
        locals,
        own,
        name,
    );
    assert(references::in_statements(block.statements@, locals, name));
}

/// What a block returns counts, unless a statement of the block declares the name.
pub proof fn returned_references_reach_the_block(
    block: Block,
    returned: ReturnStatement,
    i: int,
    locals: Set<Name>,
    name: Name,
)
    requires
        block.last_statement == Some(LastStatement::Return(returned)),
        0 <= i < returned.expressions@.len(),
        references::in_expression(returned.expressions@[i], locals, name),
        forall|j: int|
            0 <= j < block.statements@.len()
                ==> match #[trigger] block.statements@[j] {
                    Statement::LocalAssign(assign) => forall|k: int|
                        0 <= k < assign.variables@.len()
                            ==> (#[trigger] assign.variables@[k]).name@ != name,
                    _ => true,
                },
        forall|j: int|
            0 <= j < block.statements@.len()
                ==> match #[trigger] block.statements@[j] {
                    Statement::LocalFunction(function) => function.identifier.name@ != name,
                    _ => true,
                },
    ensures
        references::in_block(block, locals, name),
{
    let own = references::block_locals(block);
    if own.contains(name) {
        let j = choose|j: int|
            0 <= j < block.statements@.len()
                && #[trigger] references::declares(block.statements@[j], name);
        assert(false);
    }
    occurrences::locals_only_remove_their_names_from_expression(
        returned.expressions@[i],
        locals,
        own,
        name,
    );
    assert(references::in_expressions(returned.expressions@, locals.union(own), name));
    assert(references::in_last_statement(LastStatement::Return(returned), locals.union(own), name));
    assert(references::in_end(block.last_statement, locals.union(own), name));
}

/// A block refers to nothing but what one of its statements or one of the values that it returns
/// refers to.
pub proof fn block_references_come_from_its_parts(block: Block, locals: Set<Name>, name: Name)
    requires
        references::in_block(block, locals, name),
    ensures
        (exists|i: int|
            0 <= i < block.statements@.len()
                && references::in_statement(#[trigger] block.statements@[i], locals, name))
            || (
                block.last_statement matches Some(LastStatement::Return(returned))
                    && exists|i: int| 0 <= i < returned.expressions@.len()
                    && references::in_expression(#[trigger] returned.expressions@[i], locals, name)
            ),
{
    if references::in_statements(block.statements@, locals, name) {
        let i = choose|i: int|
            0 <= i < block.statements@.len()
                && references::in_statement(
                    #[trigger] block.statements@[i],
                    locals.union(references::declared_for(block.statements@, i)),
                    name,
                );
        occurrences::locals_only_remove_their_names_from_statement(
            block.statements@[i],
            locals,
            references::declared_for(block.statements@, i),
            name,
        );
        assert(references::in_statement(block.statements@[i], locals, name));
    } else {
        let own = references::block_locals(block);
        assert(references::in_end(block.last_statement, locals.union(own), name));
        if let Some(LastStatement::Return(returned)) = block.last_statement {
            assert(
                references::in_last_statement(
                    LastStatement::Return(returned),
                    locals.union(own),
                    name,
                )
            );
            assert(references::in_expressions(returned.expressions@, locals.union(own), name));
            let i = choose|i: int|
                0 <= i < returned.expressions@.len()
                    && references::in_expression(
                        #[trigger] returned.expressions@[i],
                        locals.union(own),
                        name,
                    );
            occurrences::locals_only_remove_their_names_from_expression(
                returned.expressions@[i],
                locals,
                own,
                name,
            );
            assert(references::in_expression(returned.expressions@[i], locals, name));
        }
    }
}

/// After a statement that declares `name` the block does not refer to it as a global any more.
proof fn lemma_hidden_after(block: Block, j: int, locals: Set<Name>, name: Name)
    requires
        0 <= j < block.statements@.len(),
        references::declares(block.statements@[j], name),
        references::in_block(block, locals, name),
    ensures
        exists|i: int|
            0 <= i <= j
                && references::in_statement(#[trigger] block.statements@[i], locals, name)
                && !references::declared_for(block.statements@, i).contains(name),
{
    let own = references::block_locals(block);
    assert(own.contains(name));
    if references::in_end(block.last_statement, locals.union(own), name) {
        if let Some(LastStatement::Return(returned)) = block.last_statement {
            assert(
                references::in_last_statement(
                    LastStatement::Return(returned),
                    locals.union(own),
                    name,
                )
            );
            assert(references::in_expressions(returned.expressions@, locals.union(own), name));
            let i = choose|i: int|
                0 <= i < returned.expressions@.len()
                    && references::in_expression(
                        #[trigger] returned.expressions@[i],
                        locals.union(own),
                        name,
                    );
            occurrences::locals_only_remove_their_names_from_expression(
                returned.expressions@[i],
                locals,
                own,
                name,
            );
        }
    }
    assert(references::in_statements(block.statements@, locals, name));
    let i = choose|i: int|
        0 <= i < block.statements@.len()
            && references::in_statement(
                #[trigger] block.statements@[i],
                locals.union(references::declared_for(block.statements@, i)),
                name,
            );
    occurrences::locals_only_remove_their_names_from_statement(
        block.statements@[i],
        locals,
        references::declared_for(block.statements@, i),
        name,
    );
    if i > j {
        assert(block.statements@.take(i)[j] == block.statements@[j]);
        assert(references::declared(block.statements@.take(i)).contains(name));
    }
    assert(references::in_statement(block.statements@[i], locals, name));
}

/// Each name that a local assignment declares, at any position in its list, is local in all that
/// follows: if the block refers to it as a global, that is in the assignment itself or before it.
pub proof fn local_assignment_hides_each_variable(
    block: Block,
    j: int,
    assign: LocalAssignStatement,
    k: int,
    locals: Set<Name>,
    name: Name,
)
    requires
        0 <= j < block.statements@.len(),
        block.statements@[j] == Statement::LocalAssign(assign),
        0 <= k < assign.variables@.len(),
        assign.variables@[k].name@ == name,
        references::in_block(block, locals, name),
    ensures
        exists|i: int|
            0 <= i <= j && references::in_statement(#[trigger] block.statements@[i], locals, name),
{
    assert(references::identifier_names(assign.variables@).contains(name));
    lemma_hidden_after(block, j, locals, name);
}

/// The name of a local function is local in the function and in all that follows: if the block
/// refers to it as a global, that is before the function.
pub proof fn local_function_hides_its_name(
    block: Block,
    j: int,
    function: LocalFunctionStatement,
    locals: Set<Name>,
    name: Name,
)
    requires
        0 <= j < block.statements@.len(),
        block.statements@[j] == Statement::LocalFunction(Box::new(function)),
        function.identifier.name@ == name,
        references::in_block(block, locals, name),
    ensures
        exists|i: int|
            0 <= i < j && references::in_statement(#[trigger] block.statements@[i], locals, name),
{
    lemma_hidden_after(block, j, locals, name);
    let i = choose|i: int|
        0 <= i <= j
            && references::in_statement(#[trigger] block.statements@[i], locals, name)
            && !references::declared_for(block.statements@, i).contains(name);
    assert(i != j);
    assert(references::in_statement(block.statements@[i], locals, name));
}

/// A repeat loop refers to what its block refers to and to what its condition refers to, except
/// for names that a statement of the block declares, and to nothing else.
pub proof fn repeat_refers_to_block_and_condition(
    repeat: RepeatStatement,
    locals: Set<Name>,
    name: Name,
)
    ensures
        references::in_block(repeat.block, locals, name)
            ==> references::in_statement(Statement::Repeat(Box::new(repeat)), locals, name),
        references::in_expression(repeat.condition, locals, name)
            && (forall|j: int|
                0 <= j < repeat.block.statements@.len()
                    ==> match #[trigger] repeat.block.statements@[j] {
                        Statement::LocalAssign(assign) => forall|k: int|
                            0 <= k < assign.variables@.len()
                                ==> (#[trigger] assign.variables@[k]).name@ != name,
                        _ => true,
                    })
            && (forall|j: int|
                0 <= j < repeat.block.statements@.len()
                    ==> match #[trigger] repeat.block.statements@[j] {
                        Statement::LocalFunction(function) => function.identifier.name@ != name,
                        _ => true,
                    })
            ==> references::in_statement(Statement::Repeat(Box::new(repeat)), locals, name),
        references::in_statement(Statement::Repeat(Box::new(repeat)), locals, name)
            ==> references::in_block(repeat.block, locals, name)
                || references::in_expression(repeat.condition, locals, name),
{
    let own = references::block_locals(repeat.block);
    occurrences::locals_only_remove_their_names_from_expression(
        repeat.condition,
        locals,
        own,
        name,
    );
    assert(
        references::in_statement(Statement::Repeat(Box::new(repeat)), locals, name)
            == (
                references::in_block(repeat.block, locals, name)
                    || references::in_expression(repeat.condition, locals.union(own), name)
            )
    );
    if (forall|j: int|
            0 <= j < repeat.block.statements@.len()
                ==> match #[trigger] repeat.block.statements@[j] {
                    Statement::LocalAssign(assign) => forall|k: int|
                        0 <= k < assign.variables@.len()
                            ==> (#[trigger] assign.variables@[k]).name@ != name,
                    _ => true,
                })
            && (forall|j: int|
                0 <= j < repeat.block.statements@.len()
                    ==> match #[trigger] repeat.block.statements@[j] {
                        Statement::LocalFunction(function) => function.identifier.name@ != name,
                        _ => true,
                    })
            && own.contains(name) {
        let j = choose|j: int|
            0 <= j < repeat.block.statements@.len()
                && #[trigger] references::declares(repeat.block.statements@[j], name);
        assert(false);
    }
}

/// The condition of a repeat loop sees each name that a local assignment in its block declares, at
/// any position in its list.
pub proof fn repeat_condition_sees_each_variable(
    repeat: RepeatStatement,
    j: int,
    assign: LocalAssignStatement,
    k: int,
    locals: Set<Name>,
    name: Name,
)
    requires
        0 <= j < repeat.block.statements@.len(),
        repeat.block.statements@[j] == Statement::LocalAssign(assign),
        0 <= k < assign.variables@.len(),
        assign.variables@[k].name@ == name,
    ensures
        references::in_statement(Statement::Repeat(Box::new(repeat)), locals, name)
            == references::in_block(repeat.block, locals, name),
{
    let own = references::block_locals(repeat.block);
    assert(references::declares(repeat.block.statements@[j], name));
    occurrences::locals_only_remove_their_names_from_expression(
        repeat.condition,
        locals,
        own,
        name,
    );
}

/// The condition of a repeat loop sees the local functions in its block.
pub proof fn repeat_condition_sees_local_functions(
    repeat: RepeatStatement,
    j: int,
    function: LocalFunctionStatement,
    locals: Set<Name>,
    name: Name,
)
    requires
        0 <= j < repeat.block.statements@.len(),
        repeat.block.statements@[j] == Statement::LocalFunction(Box::new(function)),
        function.identifier.name@ == name,
    ensures
        references::in_statement(Statement::Repeat(Box::new(repeat)), locals, name)
            == references::in_block(repeat.block, locals, name),
{
    let own = references::block_locals(repeat.block);
    assert(references::declares(repeat.block.statements@[j], name));
    occurrences::locals_only_remove_their_names_from_expression(
        repeat.condition,
        locals,
        own,
        name,
    );
}

/// A block declares each name in the list of each of its local assignments, the name of each of
/// its local functions, and no other.
pub proof fn block_declares_each_name(block: Block, name: Name)
    ensures
        (exists|j: int| 0 <= j < block.statements@.len() && match #[trigger] block.statements@[j] {
            Statement::LocalAssign(assign) => exists|k: int|
                0 <= k < assign.variables@.len() && (#[trigger] assign.variables@[k]).name@ == name,
            Statement::LocalFunction(function) => function.identifier.name@ == name,
            _ => false,
        }) <==> references::block_locals(block).contains(name),
{
    let statements = block.statements@;
    assert forall|j: int| 0 <= j < statements.len() implies references::declares(
        #[trigger] statements[j],
        name,
    ) == match statements[j] {
        Statement::LocalAssign(assign) => exists|k: int|
            0 <= k < assign.variables@.len() && (#[trigger] assign.variables@[k]).name@ == name,
        Statement::LocalFunction(function) => function.identifier.name@ == name,
        _ => false,
    } by {}
    if references::block_locals(block).contains(name) {
        let j = choose|j: int|
            0 <= j < statements.len() && #[trigger] references::declares(statements[j], name);
        assert(references::declares(statements[j], name));
        assert(statements[j] == block.statements@[j]);
    }
}

} // verus!
