use rename_variables::collector::CollectGlobalReferences;
use rename_variables::nodes::{
    Arguments, AssignStatement, BinaryExpression, Block, CompoundAssignStatement, DoStatement,
    ElseIfExpressionBranch, Expression, FieldExpression, FunctionCall, FunctionExpression,
    FunctionName, FunctionStatement, GenericForStatement, Identifier, IfBranch, IfExpression,
    IfStatement, IndexExpression, InterpolatedStringExpression, InterpolationSegment,
    LastStatement, LocalAssignStatement, LocalFunctionStatement, NumericForStatement,
    ParentheseExpression, Prefix, RepeatStatement, ReturnStatement, Statement, TableEntry,
    TableExpression, TableFieldEntry, TableIndexEntry, TupleArguments, TypeCastExpression,
    TypeDeclarationStatement, TypedIdentifier, UnaryExpression, Variable, WhileStatement,
};
use rename_variables::rule::RenameVariables;

fn strings(names: &[&str]) -> Vec<String> {
    names.iter().map(ToString::to_string).collect()
}

fn id(name: &str) -> Identifier {
    Identifier { name: name.to_string() }
}

fn ids(names: &[&str]) -> Vec<Identifier> {
    names.iter().map(|name| id(name)).collect()
}

fn typed(name: &str, type_expressions: Vec<Expression>) -> TypedIdentifier {
    TypedIdentifier { name: name.to_string(), type_expressions }
}

fn declared(names: &[&str]) -> Vec<TypedIdentifier> {
    names.iter().map(|name| typed(name, vec![])).collect()
}

fn method(name: &str, fields: &[&str], method: Option<&str>, block: Block) -> Statement {
    Statement::Function(Box::new(FunctionStatement {
        name: FunctionName { name: id(name), fields: ids(fields), method: method.map(id) },
        parameters: declared(&["x"]),
        type_expressions: vec![],
        block,
    }))
}

fn var(name: &str) -> Expression {
    Expression::Identifier(id(name))
}

fn block(statements: Vec<Statement>) -> Block {
    Block { statements, last_statement: None }
}

fn block_returning(statements: Vec<Statement>, expressions: Vec<Expression>) -> Block {
    let last_statement = LastStatement::Return(ReturnStatement { expressions });
    Block { statements, last_statement: Some(last_statement) }
}

fn function_call(name: &str, values: Vec<Expression>) -> FunctionCall {
    FunctionCall {
        prefix: Prefix::Identifier(id(name)),
        method: None,
        arguments: Arguments::Tuple(TupleArguments { values }),
    }
}

fn call(name: &str, values: Vec<Expression>) -> Statement {
    Statement::Call(Box::new(function_call(name, values)))
}

fn local(names: &[&str], values: Vec<Expression>) -> Statement {
    Statement::LocalAssign(LocalAssignStatement { variables: declared(names), values })
}

fn globals(block: &Block) -> Vec<String> {
    RenameVariables::default().flawless_process(block, Vec::new()).reserved
}

#[test]
fn empty_program_has_no_globals() {
    assert_eq!(globals(&block(vec![])), strings(&[]));
    let ended = Block { statements: vec![], last_statement: Some(LastStatement::Break) };
    assert_eq!(globals(&ended), strings(&[]));
    let continued = Block { statements: vec![], last_statement: Some(LastStatement::Continue) };
    assert_eq!(globals(&continued), strings(&[]));
}

#[test]
fn globals_are_sorted_and_listed_once() {
    let program = block(vec![
        call("print", vec![var("zeta"), var("alpha")]),
        call("assert", vec![var("alpha"), var("print")]),
    ]);
    assert_eq!(globals(&program), strings(&["alpha", "assert", "print", "zeta"]));
}

#[test]
fn local_variables_are_no_globals() {
    let program = block_returning(
        vec![local(&["x", "y"], vec![var("a")])],
        vec![var("x"), var("y"), var("z")],
    );
    assert_eq!(globals(&program), strings(&["a", "z"]));
}

#[test]
fn value_of_a_local_assignment_does_not_see_its_names() {
    let program = block(vec![local(&["print"], vec![var("print")])]);
    assert_eq!(globals(&program), strings(&["print"]));
}

#[test]
fn locals_count_only_after_their_declaration() {
    let program = block(vec![call("f", vec![var("x")]), local(&["x"], vec![])]);
    assert_eq!(globals(&program), strings(&["f", "x"]));
    let program = block(vec![local(&["x"], vec![]), call("f", vec![var("x")])]);
    assert_eq!(globals(&program), strings(&["f"]));
}

#[test]
fn local_function_is_not_local_before_its_declaration() {
    let function = Statement::LocalFunction(Box::new(LocalFunctionStatement {
        identifier: id("f"),
        parameters: vec![],
        type_expressions: vec![],
        block: block(vec![call("f", vec![])]),
    }));
    assert_eq!(globals(&block(vec![call("f", vec![]), function])), strings(&["f"]));
}

#[test]
fn last_statement_sees_all_locals_of_the_block() {
    let program = block_returning(
        vec![local(&["a"], vec![]), local(&["b"], vec![var("a")])],
        vec![var("a"), var("b"), var("c")],
    );
    assert_eq!(globals(&program), strings(&["c"]));
}

#[test]
fn locals_of_an_inner_block_end_with_it() {
    let inner = block(vec![local(&["x"], vec![]), call("f", vec![var("x"), var("y")])]);
    let program = block(vec![
        local(&["y"], vec![]),
        Statement::Do(Box::new(DoStatement { block: inner })),
        call("g", vec![var("x")]),
    ]);
    assert_eq!(globals(&program), strings(&["f", "g", "x"]));
}

#[test]
fn assignments_refer_to_what_they_write() {
    let field = FieldExpression { prefix: Prefix::Identifier(id("t")), field: id("key") };
    let index = IndexExpression { prefix: Prefix::Identifier(id("u")), index: var("i") };
    let program = block(vec![
        Statement::Assign(AssignStatement {
            variables: vec![
                Variable::Identifier(id("a")),
                Variable::Field(Box::new(field)),
                Variable::Index(Box::new(index)),
            ],
            values: vec![var("b")],
        }),
        Statement::CompoundAssign(Box::new(CompoundAssignStatement {
            variable: Variable::Identifier(id("c")),
            value: var("d"),
        })),
    ]);
    assert_eq!(globals(&program), strings(&["a", "b", "c", "d", "i", "t", "u"]));
}

#[test]
fn methods_have_self_as_a_local() {
    let body = block_returning(vec![], vec![var("self"), var("x")]);
    assert_eq!(globals(&block(vec![method("t", &[], Some("m"), body)])), strings(&["t"]));
    let body = block_returning(vec![], vec![var("self"), var("x")]);
    assert_eq!(globals(&block(vec![method("t", &["m"], None, body)])), strings(&["self", "t"]));
    let body = block(vec![]);
    let program = block(vec![method("t", &[], Some("m"), body), call("f", vec![var("self")])]);
    assert_eq!(globals(&program), strings(&["f", "self", "t"]));
}

#[test]
fn field_and_method_names_are_no_references() {
    let program = block(vec![method("object", &["field"], Some("method"), block(vec![]))]);
    assert_eq!(globals(&program), strings(&["object"]));
    let call = FunctionCall {
        prefix: Prefix::Identifier(id("object")),
        method: Some(id("method")),
        arguments: Arguments::String,
    };
    assert_eq!(globals(&block(vec![Statement::Call(Box::new(call))])), strings(&["object"]));
}

#[test]
fn local_function_is_local_in_itself_and_around_it() {
    let program = block(vec![
        Statement::LocalFunction(Box::new(LocalFunctionStatement {
            identifier: id("f"),
            parameters: declared(&["a"]),
            type_expressions: vec![],
            block: block_returning(vec![call("f", vec![var("a"), var("b")])], vec![]),
        })),
        call("f", vec![var("a")]),
    ]);
    assert_eq!(globals(&program), strings(&["a", "b"]));
}

#[test]
fn loops_make_their_variables_local() {
    let program = block(vec![
        Statement::GenericFor(Box::new(GenericForStatement {
            identifiers: declared(&["k", "v"]),
            expressions: vec![Expression::Call(Box::new(function_call("pairs", vec![var("k")])))],
            block: block(vec![call("f", vec![var("k"), var("v")])]),
        })),
        Statement::NumericFor(Box::new(NumericForStatement {
            identifier: typed("i", vec![]),
            start: var("from"),
            end: var("to"),
            step: Some(var("by")),
            block: block(vec![call("g", vec![var("i"), var("v")])]),
        })),
    ]);
    assert_eq!(globals(&program), strings(&["by", "f", "from", "g", "k", "pairs", "to", "v"]));
}

#[test]
fn repeat_condition_sees_the_locals_of_the_loop() {
    let repeat = Statement::Repeat(Box::new(RepeatStatement {
        block: block(vec![local(&["done"], vec![var("source")])]),
        condition: var("done"),
    }));
    assert_eq!(globals(&block(vec![repeat])), strings(&["source"]));
    let repeat = Statement::Repeat(Box::new(RepeatStatement {
        block: block(vec![local(&["done"], vec![])]),
        condition: var("done"),
    }));
    let program = block(vec![repeat, call("f", vec![var("done")])]);
    assert_eq!(globals(&program), strings(&["done", "f"]));
}

#[test]
fn while_condition_does_not_see_the_locals_of_the_loop() {
    let program = block(vec![Statement::While(Box::new(WhileStatement {
        condition: var("done"),
        block: block(vec![local(&["done"], vec![]), call("f", vec![var("done")])]),
    }))]);
    assert_eq!(globals(&program), strings(&["done", "f"]));
}

#[test]
fn branches_have_scopes_of_their_own() {
    let program = block(vec![Statement::If(Box::new(IfStatement {
        branches: vec![
            IfBranch { condition: var("a"), block: block(vec![local(&["x"], vec![])]) },
            IfBranch { condition: var("b"), block: block(vec![call("f", vec![var("x")])]) },
        ],
        else_block: Some(block(vec![call("g", vec![])])),
    }))]);
    assert_eq!(globals(&program), strings(&["a", "b", "f", "g", "x"]));
}

#[test]
fn expressions_are_visited_all_the_way_down() {
    let table = TableExpression {
        entries: vec![
            TableEntry::Field(Box::new(TableFieldEntry { field: id("no"), value: var("a") })),
            TableEntry::Index(Box::new(TableIndexEntry { key: var("b"), value: var("c") })),
            TableEntry::Value(Box::new(var("d"))),
        ],
    };
    let parenthese = ParentheseExpression {
        expression: Expression::Unary(Box::new(UnaryExpression {
            expression: Expression::Binary(Box::new(BinaryExpression {
                left: var("e"),
                right: Expression::TypeCast(Box::new(TypeCastExpression {
                    expression: var("f"),
                    type_expressions: vec![var("m")],
                })),
            })),
        })),
    };
    let choice = IfExpression {
        condition: var("g"),
        result: var("h"),
        branches: vec![ElseIfExpressionBranch { condition: var("i"), result: var("j") }],
        else_result: var("k"),
    };
    let function = FunctionExpression {
        parameters: declared(&["p"]),
        type_expressions: vec![],
        block: block_returning(vec![local(&["q"], vec![])], vec![var("p"), var("q"), var("l")]),
    };
    let program = block_returning(
        vec![],
        vec![
            Expression::Table(table),
            Expression::Parenthese(Box::new(parenthese)),
            Expression::If(Box::new(choice)),
            Expression::Function(Box::new(function)),
            Expression::Other,
        ],
    );
    assert_eq!(
        globals(&program),
        strings(&["a", "b", "c", "d", "e", "f", "g", "h", "i", "j", "k", "l", "m"])
    );
}

#[test]
fn field_and_index_expressions_refer_to_their_prefix() {
    let field = FieldExpression { prefix: Prefix::Identifier(id("math")), field: id("pi") };
    let program = block_returning(vec![], vec![Expression::Field(Box::new(field))]);
    assert_eq!(globals(&program), strings(&["math"]));
    let index = IndexExpression { prefix: Prefix::Identifier(id("t")), index: var("i") };
    let program = block_returning(vec![], vec![Expression::Index(Box::new(index))]);
    assert_eq!(globals(&program), strings(&["i", "t"]));
}

#[test]
fn interpolated_strings_refer_to_what_their_segments_do() {
    let string = InterpolatedStringExpression {
        segments: vec![
            InterpolationSegment::String,
            InterpolationSegment::Value(Box::new(var("name"))),
            InterpolationSegment::Value(Box::new(var("known"))),
        ],
    };
    let program = block_returning(
        vec![local(&["known"], vec![])],
        vec![Expression::InterpolatedString(string)],
    );
    assert_eq!(globals(&program), strings(&["name"]));
}

#[test]
fn types_refer_to_the_expressions_in_them() {
    let function = FunctionExpression {
        parameters: vec![typed("p", vec![var("a"), var("p")])],
        type_expressions: vec![var("b")],
        block: block_returning(vec![], vec![var("p")]),
    };
    let program = block(vec![
        Statement::LocalAssign(LocalAssignStatement {
            variables: vec![typed("x", vec![var("x")])],
            values: vec![Expression::Function(Box::new(function))],
        }),
        Statement::TypeDeclaration(TypeDeclarationStatement {
            type_expressions: vec![var("c"), var("x")],
        }),
    ]);
    assert_eq!(globals(&program), strings(&["a", "b", "c", "p", "x"]));
}

#[test]
fn annotations_of_loops_and_functions_stand_outside_of_their_blocks() {
    let program = block(vec![
        Statement::GenericFor(Box::new(GenericForStatement {
            identifiers: vec![typed("k", vec![var("k")]), typed("v", vec![var("a")])],
            expressions: vec![],
            block: block(vec![]),
        })),
        Statement::NumericFor(Box::new(NumericForStatement {
            identifier: typed("i", vec![var("i"), var("b")]),
            start: Expression::Other,
            end: Expression::Other,
            step: None,
            block: block(vec![]),
        })),
        Statement::Function(Box::new(FunctionStatement {
            name: FunctionName { name: id("t"), fields: vec![], method: Some(id("m")) },
            parameters: vec![typed("p", vec![var("self")])],
            type_expressions: vec![var("p")],
            block: block(vec![]),
        })),
        Statement::LocalFunction(Box::new(LocalFunctionStatement {
            identifier: id("f"),
            parameters: vec![typed("q", vec![var("q"), var("f")])],
            type_expressions: vec![var("c")],
            block: block(vec![]),
        })),
    ]);
    assert_eq!(
        globals(&program),
        strings(&["a", "b", "c", "i", "k", "p", "q", "self", "t"])
    );
}

#[test]
fn locals_remove_their_own_names_and_no_others() {
    let index = || IndexExpression { prefix: Prefix::Identifier(id("t")), index: var("i") };
    let mut collector = CollectGlobalReferences::default();
    collector.enter_scope();
    collector.visit_expression_ref(&Expression::Index(Box::new(index())));
    collector.visit_statement_ref(&call("f", vec![var("x")]));
    assert_eq!(collector.into_globals(), strings(&["f", "i", "t", "x"]));
    let mut collector = CollectGlobalReferences::default();
    collector.enter_scope();
    collector.add_local("i".to_string());
    collector.add_local("f".to_string());
    collector.visit_expression_ref(&Expression::Index(Box::new(index())));
    collector.visit_statement_ref(&call("f", vec![var("x")]));
    assert_eq!(collector.into_globals(), strings(&["t", "x"]));
}

#[test]
fn prefixes_are_visited_all_the_way_down() {
    let nested = Prefix::Call(Box::new(FunctionCall {
        prefix: Prefix::Index(Box::new(IndexExpression {
            prefix: Prefix::Field(Box::new(FieldExpression {
                prefix: Prefix::Parenthese(Box::new(ParentheseExpression { expression: var("a") })),
                field: id("no"),
            })),
            index: var("b"),
        })),
        method: None,
        arguments: Arguments::Table(TableExpression {
            entries: vec![TableEntry::Value(Box::new(var("c")))],
        }),
    }));
    let call = FunctionCall { prefix: nested, method: None, arguments: Arguments::String };
    assert_eq!(globals(&block(vec![Statement::Call(Box::new(call))])), strings(&["a", "b", "c"]));
}

#[test]
fn types_without_expressions_refer_to_nothing() {
    let program = block(vec![
        Statement::TypeDeclaration(TypeDeclarationStatement { type_expressions: vec![] }),
        Statement::TypeFunction,
    ]);
    assert_eq!(globals(&program), strings(&[]));
}

#[test]
fn plan_reserves_globals_then_additional_globals_then_function_names() {
    let program = block(vec![call("print", vec![var("b")])]);
    let rule = RenameVariables::new(strings(&["z", "a"]));
    let plan = rule.flawless_process(&program, strings(&["f", "e"]));
    assert_eq!(plan.reserved, strings(&["b", "print", "z", "a", "f", "e"]));
    assert!(!plan.include_functions);
}

#[test]
fn plan_leaves_function_names_out_where_they_are_renamed() {
    let program = block(vec![call("print", vec![])]);
    let rule = RenameVariables::new(strings(&["z"])).with_function_names();
    let plan = rule.flawless_process(&program, strings(&["f"]));
    assert_eq!(plan.reserved, strings(&["print", "z"]));
    assert!(plan.include_functions);
}

#[test]
fn without_a_scope_nothing_becomes_local() {
    let mut collector = CollectGlobalReferences::default();
    collector.add_local("x".to_string());
    assert!(!collector.is_local("x"));
    collector.exit_scope();
    collector.visit_block_ref(&block(vec![local(&["y"], vec![]), call("f", vec![var("y")])]));
    assert_eq!(collector.into_globals(), strings(&["f", "y"]));
}

#[test]
fn closing_a_scope_forgets_its_locals() {
    let mut collector = CollectGlobalReferences::default();
    collector.enter_scope();
    collector.add_local("outer".to_string());
    collector.enter_scope();
    collector.add_local("inner".to_string());
    assert!(collector.is_local("outer"));
    assert!(collector.is_local("inner"));
    collector.exit_scope();
    assert!(collector.is_local("outer"));
    assert!(!collector.is_local("inner"));
    collector.visit_identifier_ref(&id("outer"));
    collector.visit_identifier_ref(&id("inner"));
    assert_eq!(collector.into_globals(), strings(&["inner"]));
}

#[test]
fn processing_a_block_leaves_it_alone() {
    let mut collector = CollectGlobalReferences::default();
    let mut program = block(vec![call("f", vec![])]);
    collector.process_block(&mut program);
    assert_eq!(program, block(vec![call("f", vec![])]));
    assert_eq!(collector.into_globals(), strings(&[]));
}
