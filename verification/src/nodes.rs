//! The syntax tree of a Lua program, as far as it decides which names are in scope where.
//!
//! Operators and literal values are left out: no name is resolved in them. Of types, the
//! expressions that they hold are kept, which stand there as operands of `typeof`.

use vstd::prelude::*;

verus! {

/// A name in the program text.
#[derive(Debug, PartialEq, Eq)]
pub struct Identifier {
    pub name: String,
}

/// A name that is made local, with the expressions in its type annotation.
#[derive(Debug, PartialEq, Eq)]
pub struct TypedIdentifier {
    pub name: String,
    pub type_expressions: Vec<Expression>,
}

/// A sequence of statements, closed by at most one statement that leaves the block.
#[derive(Debug, PartialEq, Eq)]
pub struct Block {
    pub statements: Vec<Statement>,
    pub last_statement: Option<LastStatement>,
}

/// A statement that leaves its block.
#[derive(Debug, PartialEq, Eq)]
pub enum LastStatement {
    Break,
    Continue,
    Return(ReturnStatement),
}

/// `return expressions`
#[derive(Debug, PartialEq, Eq)]
pub struct ReturnStatement {
    pub expressions: Vec<Expression>,
}

/// A statement.
#[derive(Debug, PartialEq, Eq)]
pub enum Statement {
    Assign(AssignStatement),
    Do(Box<DoStatement>),
    Call(Box<FunctionCall>),
    CompoundAssign(Box<CompoundAssignStatement>),
    Function(Box<FunctionStatement>),
    GenericFor(Box<GenericForStatement>),
    If(Box<IfStatement>),
    LocalAssign(LocalAssignStatement),
    LocalFunction(Box<LocalFunctionStatement>),
    NumericFor(Box<NumericForStatement>),
    Repeat(Box<RepeatStatement>),
    While(Box<WhileStatement>),
    TypeDeclaration(TypeDeclarationStatement),
    /// A type function. It runs apart from the program, in an environment of its own, so no
    /// name of the program is resolved in it.
    TypeFunction,
}

/// `type name = type`, with the expressions in the type.
#[derive(Debug, PartialEq, Eq)]
pub struct TypeDeclarationStatement {
    pub type_expressions: Vec<Expression>,
}

/// `variables = values`
#[derive(Debug, PartialEq, Eq)]
pub struct AssignStatement {
    pub variables: Vec<Variable>,
    pub values: Vec<Expression>,
}

/// `do block end`
#[derive(Debug, PartialEq, Eq)]
pub struct DoStatement {
    pub block: Block,
}

/// An assignment that combines the old value with a new one, such as `variable += value`.
#[derive(Debug, PartialEq, Eq)]
pub struct CompoundAssignStatement {
    pub variable: Variable,
    pub value: Expression,
}

/// `function name(parameters) block end`, with the expressions in the types of its variadic
/// parameter and of its results.
#[derive(Debug, PartialEq, Eq)]
pub struct FunctionStatement {
    pub name: FunctionName,
    pub parameters: Vec<TypedIdentifier>,
    pub type_expressions: Vec<Expression>,
    pub block: Block,
}

/// What a function statement assigns to, such as `name.field.field:method`.
#[derive(Debug, PartialEq, Eq)]
pub struct FunctionName {
    pub name: Identifier,
    pub fields: Vec<Identifier>,
    pub method: Option<Identifier>,
}

/// `for identifiers in expressions do block end`
#[derive(Debug, PartialEq, Eq)]
pub struct GenericForStatement {
    pub identifiers: Vec<TypedIdentifier>,
    pub expressions: Vec<Expression>,
    pub block: Block,
}

/// `if condition then block elseif condition then block else else_block end`
#[derive(Debug, PartialEq, Eq)]
pub struct IfStatement {
    pub branches: Vec<IfBranch>,
    pub else_block: Option<Block>,
}

/// One condition of an if statement, with the block that runs when it holds.
#[derive(Debug, PartialEq, Eq)]
pub struct IfBranch {
    pub condition: Expression,
    pub block: Block,
}

/// `local variables = values`
#[derive(Debug, PartialEq, Eq)]
pub struct LocalAssignStatement {
    pub variables: Vec<TypedIdentifier>,
    pub values: Vec<Expression>,
}

/// `local function identifier(parameters) block end`, with the expressions in the types of its
/// variadic parameter and of its results.
#[derive(Debug, PartialEq, Eq)]
pub struct LocalFunctionStatement {
    pub identifier: Identifier,
    pub parameters: Vec<TypedIdentifier>,
    pub type_expressions: Vec<Expression>,
    pub block: Block,
}

/// `for identifier = start, end, step do block end`
#[derive(Debug, PartialEq, Eq)]
pub struct NumericForStatement {
    pub identifier: TypedIdentifier,
    pub start: Expression,
    pub end: Expression,
    pub step: Option<Expression>,
    pub block: Block,
}

/// `repeat block until condition`
#[derive(Debug, PartialEq, Eq)]
pub struct RepeatStatement {
    pub block: Block,
    pub condition: Expression,
}

/// `while condition do block end`
#[derive(Debug, PartialEq, Eq)]
pub struct WhileStatement {
    pub condition: Expression,
    pub block: Block,
}

/// What an assignment can write to.
#[derive(Debug, PartialEq, Eq)]
pub enum Variable {
    Identifier(Identifier),
    Field(Box<FieldExpression>),
    Index(Box<IndexExpression>),
}

/// What a field, an index or a call can be applied to.
#[derive(Debug, PartialEq, Eq)]
pub enum Prefix {
    Call(Box<FunctionCall>),
    Field(Box<FieldExpression>),
    Identifier(Identifier),
    Index(Box<IndexExpression>),
    Parenthese(Box<ParentheseExpression>),
}

/// `prefix.field`
#[derive(Debug, PartialEq, Eq)]
pub struct FieldExpression {
    pub prefix: Prefix,
    pub field: Identifier,
}

/// `prefix[index]`
#[derive(Debug, PartialEq, Eq)]
pub struct IndexExpression {
    pub prefix: Prefix,
    pub index: Expression,
}

/// `(expression)`
#[derive(Debug, PartialEq, Eq)]
pub struct ParentheseExpression {
    pub expression: Expression,
}

/// `prefix arguments` or `prefix:method arguments`
#[derive(Debug, PartialEq, Eq)]
pub struct FunctionCall {
    pub prefix: Prefix,
    pub method: Option<Identifier>,
    pub arguments: Arguments,
}

/// What a function is called with.
#[derive(Debug, PartialEq, Eq)]
pub enum Arguments {
    Tuple(TupleArguments),
    String,
    Table(TableExpression),
}

/// `(values)`
#[derive(Debug, PartialEq, Eq)]
pub struct TupleArguments {
    pub values: Vec<Expression>,
}

/// `{ entries }`
#[derive(Debug, PartialEq, Eq)]
pub struct TableExpression {
    pub entries: Vec<TableEntry>,
}

/// One entry of a table.
#[derive(Debug, PartialEq, Eq)]
pub enum TableEntry {
    Field(Box<TableFieldEntry>),
    Index(Box<TableIndexEntry>),
    Value(Box<Expression>),
}

/// `field = value`
#[derive(Debug, PartialEq, Eq)]
pub struct TableFieldEntry {
    pub field: Identifier,
    pub value: Expression,
}

/// `[key] = value`
#[derive(Debug, PartialEq, Eq)]
pub struct TableIndexEntry {
    pub key: Expression,
    pub value: Expression,
}

/// An expression.
#[derive(Debug, PartialEq, Eq)]
pub enum Expression {
    Binary(Box<BinaryExpression>),
    Call(Box<FunctionCall>),
    Field(Box<FieldExpression>),
    Function(Box<FunctionExpression>),
    Identifier(Identifier),
    If(Box<IfExpression>),
    Index(Box<IndexExpression>),
    InterpolatedString(InterpolatedStringExpression),
    Parenthese(Box<ParentheseExpression>),
    Table(TableExpression),
    TypeCast(Box<TypeCastExpression>),
    Unary(Box<UnaryExpression>),
    /// A literal (a number, a string, `true`, `false` or `nil`) or `...`.
    Other,
}

/// A string with expressions in it.
#[derive(Debug, PartialEq, Eq)]
pub struct InterpolatedStringExpression {
    pub segments: Vec<InterpolationSegment>,
}

/// A piece of an interpolated string: text, or an expression whose value stands there.
#[derive(Debug, PartialEq, Eq)]
pub enum InterpolationSegment {
    String,
    Value(Box<Expression>),
}

/// A binary operator applied to two operands.
#[derive(Debug, PartialEq, Eq)]
pub struct BinaryExpression {
    pub left: Expression,
    pub right: Expression,
}

/// A unary operator applied to its operand.
#[derive(Debug, PartialEq, Eq)]
pub struct UnaryExpression {
    pub expression: Expression,
}

/// `function(parameters) block end`, with the expressions in the types of its variadic parameter
/// and of its results.
#[derive(Debug, PartialEq, Eq)]
pub struct FunctionExpression {
    pub parameters: Vec<TypedIdentifier>,
    pub type_expressions: Vec<Expression>,
    pub block: Block,
}

/// `if condition then result elseif condition then result else else_result`
#[derive(Debug, PartialEq, Eq)]
pub struct IfExpression {
    pub condition: Expression,
    pub result: Expression,
    pub branches: Vec<ElseIfExpressionBranch>,
    pub else_result: Expression,
}

/// One further condition of an if expression, with its result.
#[derive(Debug, PartialEq, Eq)]
pub struct ElseIfExpressionBranch {
    pub condition: Expression,
    pub result: Expression,
}

/// `expression :: type`, with the expressions in the type.
#[derive(Debug, PartialEq, Eq)]
pub struct TypeCastExpression {
    pub expression: Expression,
    pub type_expressions: Vec<Expression>,
}

} // verus!
