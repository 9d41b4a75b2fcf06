//! The walk that collects the global names that a program refers to.

use vstd::hash_set::StringHashSet;
use vstd::prelude::*;
use crate::names;
use crate::names::Name;
use crate::nodes::{
    Arguments, Block, ElseIfExpressionBranch, Expression, FunctionName, Identifier, IfBranch,
    InterpolationSegment, LastStatement, Prefix, Statement, TableEntry, TypedIdentifier, Variable,
};
use crate::references;

verus! {

/// Visitor that collects the global variable references of a program.
///
/// It keeps the names that the scopes around the visited node have made local, innermost scope
/// last, and records each name that it meets and that none of them has.
pub struct CollectGlobalReferences {
    /// The names recorded so far, each one once.
    globals: Vec<String>,
    /// The same names, for lookup.
    recorded: StringHashSet,
    local_scopes: Vec<StringHashSet>,
}

/// The names that any of `scopes` has.
pub open spec fn visible(scopes: Seq<Set<Name>>) -> Set<Name> {
    Set::new(
        |name: Name|
            exists|i: int| 0 <= i < scopes.len() && #[trigger] scopes[i].contains(name),
    )
}

/// `scopes` after `locals` became local in the innermost one; without a scope, nothing does.
pub open spec fn with_locals(scopes: Seq<Set<Name>>, locals: Set<Name>) -> Seq<Set<Name>> {
    if scopes.len() == 0 {
        scopes
    } else {
        scopes.update(scopes.len() - 1, scopes.last().union(locals))
    }
}

/// Whether a block refers to `name` as a global, where it is visited with `scopes` open: what its
/// statements declare becomes local in the innermost scope, so without a scope nothing does.
pub open spec fn in_visited_block(block: Block, scopes: Seq<Set<Name>>, name: Name) -> bool {
    if scopes.len() > 0 {
        references::in_block(block, visible(scopes), name)
    } else {
        ||| exists|i: int|
            0 <= i < block.statements@.len() && references::in_statement(
                #[trigger] block.statements@[i],
                visible(scopes),
                name,
            )
        ||| references::in_end(block.last_statement, visible(scopes), name)
    }
}

/// Whether the statement at `i` refers to `name` as a global, where the statements are visited
/// one after the other with `scopes` open.
spec fn in_visited_statement(
    statements: Seq<Statement>,
    i: int,
    scopes: Seq<Set<Name>>,
    name: Name,
) -> bool {
    references::in_statement(
        statements[i],
        visible(with_locals(scopes, references::declared_for(statements, i))),
        name,
    )
}

proof fn lemma_visited_block(block: Block, scopes: Seq<Set<Name>>, name: Name)
    ensures
        in_visited_block(block, scopes, name) <==> {
            ||| exists|i: int|
                0 <= i < block.statements@.len() && #[trigger] in_visited_statement(
                    block.statements@,
                    i,
                    scopes,
                    name,
                )
            ||| references::in_end(
                block.last_statement,
                visible(with_locals(scopes, references::block_locals(block))),
                name,
            )
        },
{
    let statements = block.statements@;
    if scopes.len() > 0 {
        lemma_visible_with_locals(scopes, references::block_locals(block));
        assert forall|i: int| 0 <= i < statements.len() implies #[trigger] in_visited_statement(
            statements,
            i,
            scopes,
            name,
        ) == references::in_statement(
            statements[i],
            visible(scopes).union(references::declared_for(statements, i)),
            name,
        ) by {
            lemma_visible_with_locals(scopes, references::declared_for(statements, i));
        }
        if references::in_statements(statements, visible(scopes), name) {
            let i = choose|i: int|
                0 <= i < statements.len() && references::in_statement(
                    #[trigger] statements[i],
                    visible(scopes).union(references::declared_for(statements, i)),
                    name,
                );
            assert(in_visited_statement(statements, i, scopes, name));
        }
        if exists|i: int|
            0 <= i < statements.len() && #[trigger] in_visited_statement(
                statements,
                i,
                scopes,
                name,
            ) {
            let i = choose|i: int|
                0 <= i < statements.len() && #[trigger] in_visited_statement(
                    statements,
                    i,
                    scopes,
                    name,
                );
            assert(references::in_statement(
                statements[i],
                visible(scopes).union(references::declared_for(statements, i)),
                name,
            ));
        }
    } else {
        if exists|i: int|
            0 <= i < statements.len() && references::in_statement(
                #[trigger] statements[i],
                visible(scopes),
                name,
            ) {
            let i = choose|i: int|
                0 <= i < statements.len() && references::in_statement(
                    #[trigger] statements[i],
                    visible(scopes),
                    name,
                );
            assert(in_visited_statement(statements, i, scopes, name));
        }
        if exists|i: int|
            0 <= i < statements.len() && #[trigger] in_visited_statement(
                statements,
                i,
                scopes,
                name,
            ) {
            let i = choose|i: int|
                0 <= i < statements.len() && #[trigger] in_visited_statement(
                    statements,
                    i,
                    scopes,
                    name,
                );
            assert(references::in_statement(statements[i], visible(scopes), name));
        }
    }
}

impl CollectGlobalReferences {
    /// The names recorded so far.
    pub closed spec fn globals(self) -> Set<Name> {
        self.recorded@
    }

    /// The names that each open scope has made local, innermost scope last.
    pub closed spec fn scopes(self) -> Seq<Set<Name>> {
        self.local_scopes@.map_values(|scope: StringHashSet| scope@)
    }

    /// The names that are local at this point.
    pub open spec fn locals(self) -> Set<Name> {
        visible(self.scopes())
    }

    /// The list and the set of recorded names agree, and the list has no name twice.
    pub closed spec fn wf(self) -> bool {
        &&& names::names(self.globals@).no_duplicates()
        &&& forall|name: Name|
            self.recorded@.contains(name) <==> names::names(self.globals@).contains(name)
    }

    /// Gives the recorded names in ascending order.
    pub fn into_globals(self) -> (globals: Vec<String>)
        requires
            self.wf(),
        ensures
            names::ascending(names::names(globals@)),
            names::names(globals@).no_duplicates(),
            forall|name: Name|
                names::names(globals@).contains(name) <==> self.globals().contains(name),
    {
        let ghost unsorted = names::names(self.globals@);
        let globals = names::sort(self.globals);
        proof {
            names::same_multiset_keeps_elements(unsorted, names::names(globals@));
        }
        globals
    }

    /// Whether a scope around this point has made `name` local.
    pub fn is_local(&self, name: &str) -> (local: bool)
        ensures
            local == self.locals().contains(name@),
    {
        let mut i: usize = 0;
        while i < self.local_scopes.len()
            invariant
                i <= self.local_scopes@.len(),
                forall|j: int| 0 <= j < i ==> !(#[trigger] self.scopes()[j]).contains(name@),
            decreases self.local_scopes@.len() - i,
        {
            if self.local_scopes[i].contains(name) {
                assert(self.scopes()[i as int].contains(name@));
                return true;
            }
            i += 1;
        }
        false
    }

    /// Makes `name` local in the innermost scope. Without a scope, nothing changes.
    pub fn add_local(&mut self, name: String)
        requires
            old(self).wf(),
        ensures
            final(self).wf(),
            final(self).globals() == old(self).globals(),
            final(self).scopes() == with_locals(old(self).scopes(), set![name@]),
    {
        let ghost before = *self;
        if let Some(mut scope) = self.local_scopes.pop() {
            scope.insert(name);
            assert(scope@ =~= before.scopes().last().union(set![name@]));
            self.local_scopes.push(scope);
        }
        assert(self.scopes() =~= with_locals(before.scopes(), set![name@]));
    }

    /// Opens a scope in which nothing is local yet.
    pub fn enter_scope(&mut self)
        requires
            old(self).wf(),
        ensures
            final(self).wf(),
            final(self).globals() == old(self).globals(),
            final(self).scopes() == old(self).scopes().push(Set::empty()),
    {
        let ghost before = *self;
        self.local_scopes.push(StringHashSet::new());
        assert(self.scopes() =~= before.scopes().push(Set::empty()));
    }

    /// Closes the innermost scope. Without a scope, nothing changes.
    pub fn exit_scope(&mut self)
        requires
            old(self).wf(),
        ensures
            final(self).wf(),
            final(self).globals() == old(self).globals(),
            final(self).scopes() == (if old(self).scopes().len() == 0 {
                old(self).scopes()
            } else {
                old(self).scopes().drop_last()
            }),
    {
        let ghost before = *self;
        let _scope = self.local_scopes.pop();
        assert(self.scopes() =~= (if before.scopes().len() == 0 {
            before.scopes()
        } else {
            before.scopes().drop_last()
        }));
    }

    /// Records the name of `identifier`, unless it is local.
    pub fn visit_identifier_ref(&mut self, identifier: &Identifier)
        requires
            old(self).wf(),
        ensures
            final(self).wf(),
            final(self).scopes() == old(self).scopes(),
            forall|name: Name|
                final(self).globals().contains(name) <==> (old(self).globals().contains(name)
                    || references::in_identifier(*identifier, old(self).locals(), name)),
    {
        if !self.is_local(identifier.name.as_str()) {
            let ghost before = *self;
            if self.recorded.insert(identifier.name.clone()) {
                self.globals.push(identifier.name.clone());
                proof {
                    let list = names::names(before.globals@);
                    assert(names::names(self.globals@) =~= list.push(identifier.name@));
                    assert(names::names(self.globals@).last() == identifier.name@);
                    assert forall|name: Name|
                        names::names(self.globals@).contains(name) <==> (list.contains(name)
                            || name == identifier.name@) by {
                        if list.contains(name) {
                            let i = list.index_of(name);
                            assert(names::names(self.globals@)[i] == name);
                        }
                    }
                }
            }
            assert(self.scopes() == before.scopes());
        }
    }
}

proof fn lemma_with_locals_again(scopes: Seq<Set<Name>>, first: Set<Name>, second: Set<Name>)
    ensures
        with_locals(with_locals(scopes, first), second) == with_locals(scopes, first.union(second)),
{
    if scopes.len() > 0 {
        assert(scopes.last().union(first).union(second) =~= scopes.last().union(
            first.union(second),
        ));
        assert(with_locals(with_locals(scopes, first), second) =~= with_locals(
            scopes,
            first.union(second),
        ));
    }
}

proof fn lemma_with_no_locals(scopes: Seq<Set<Name>>)
    ensures
        with_locals(scopes, Set::empty()) == scopes,
{
    if scopes.len() > 0 {
        assert(scopes.last().union(Set::empty()) =~= scopes.last());
    }
    assert(with_locals(scopes, Set::empty()) =~= scopes);
}

/// A scope with `locals` on top of `scopes` adds exactly these names to what is visible.
proof fn lemma_visible_in_scope(scopes: Seq<Set<Name>>, locals: Set<Name>)
    ensures
        visible(scopes.push(locals)) == visible(scopes).union(locals),
        scopes.push(locals).drop_last() == scopes,
{
    let inner = scopes.push(locals);
    assert forall|name: Name| visible(inner).contains(name) <==> visible(scopes).union(
        locals,
    ).contains(name) by {
        if visible(scopes).contains(name) {
            let i = choose|i: int| 0 <= i < scopes.len() && #[trigger] scopes[i].contains(name);
            assert(inner[i].contains(name));
        }
        if locals.contains(name) {
            assert(inner[scopes.len() as int].contains(name));
        }
        if visible(inner).contains(name) {
            let i = choose|i: int| 0 <= i < inner.len() && #[trigger] inner[i].contains(name);
            if i < scopes.len() {
                assert(scopes[i].contains(name));
            }
        }
    }
    assert(visible(inner) =~= visible(scopes).union(locals));
    assert(inner.drop_last() =~= scopes);
}

/// What happens to the scopes between opening one, making `first` and then `second` local
/// there, and closing it again.
proof fn lemma_inner_scope(scopes: Seq<Set<Name>>, first: Set<Name>, second: Set<Name>)
    ensures
        with_locals(scopes.push(Set::empty()), first) == scopes.push(first),
        with_locals(scopes.push(first), second) == scopes.push(first.union(second)),
        visible(scopes.push(first)) == visible(scopes).union(first),
        visible(scopes.push(first.union(second))) == visible(scopes).union(first).union(second),
        scopes.push(first.union(second)).drop_last() == scopes,
{
    let empty = scopes.push(Set::empty());
    assert(empty.last().union(first) =~= first);
    assert(with_locals(empty, first) =~= scopes.push(first));
    assert(with_locals(scopes.push(first), second) =~= scopes.push(first.union(second)));
    lemma_visible_in_scope(scopes, first);
    lemma_visible_in_scope(scopes, first.union(second));
    assert(visible(scopes).union(first.union(second)) =~= visible(scopes).union(first).union(
        second,
    ));
}

/// Closing a scope forgets what was made local in it, and nothing else.
pub proof fn closing_a_scope_forgets_its_locals(scopes: Seq<Set<Name>>, locals: Set<Name>)
    ensures
        with_locals(scopes.push(Set::empty()), locals).drop_last() == scopes,
{
    lemma_inner_scope(scopes, locals, Set::empty());
    lemma_visible_in_scope(scopes, locals);
}

/// In an outermost scope in which nothing was made local, nothing is.
pub proof fn nothing_local_at_first()
    ensures
        visible(Seq::empty().push(Set::empty())) == Set::<Name>::empty(),
{
    assert(visible(Seq::empty().push(Set::empty())) =~= Set::<Name>::empty());
}

/// Names that become local in the innermost scope become visible, if there is a scope.
proof fn lemma_visible_with_locals(scopes: Seq<Set<Name>>, locals: Set<Name>)
    requires
        scopes.len() > 0,
    ensures
        visible(with_locals(scopes, locals)) == visible(scopes).union(locals),
{
    let outer = scopes.drop_last();
    let inner = scopes.last();
    assert(scopes =~= outer.push(inner));
    assert(with_locals(scopes, locals) =~= outer.push(inner.union(locals)));
    lemma_visible_in_scope(outer, inner);
    lemma_visible_in_scope(outer, inner.union(locals));
    assert(visible(outer).union(inner.union(locals)) =~= visible(outer).union(inner).union(locals));
}

impl CollectGlobalReferences {
    /// Makes all `identifiers` local in the innermost scope.
    fn add_locals(&mut self, identifiers: &Vec<TypedIdentifier>)
        requires
            old(self).wf(),
        ensures
            final(self).wf(),
            final(self).globals() == old(self).globals(),
            final(self).scopes() == with_locals(
                old(self).scopes(),
                references::identifier_names(identifiers@),
            ),
    {
        let ghost before = *self;
        let mut i: usize = 0;
        proof {
            assert(references::identifier_names(identifiers@.take(0)) =~= Set::empty());
            lemma_with_no_locals(before.scopes());
        }
        while i < identifiers.len()
            invariant
                i <= identifiers@.len(),
                self.wf(),
                self.globals() == before.globals(),
                self.scopes() == with_locals(
                    before.scopes(),
                    references::identifier_names(identifiers@.take(i as int)),
                ),
            decreases identifiers@.len() - i,
        {
            proof {
                let some = identifiers@.take(i as int);
                let more = identifiers@.take(i + 1);
                let name = identifiers@[i as int].name@;
                assert forall|n: Name|
                    references::identifier_names(more).contains(n)
                        <==> references::identifier_names(some).insert(name).contains(n) by {
                    if references::identifier_names(some).contains(n) {
                        let j = choose|j: int|
                            0 <= j < some.len() && #[trigger] some[j].name@ == n;
                        assert(more[j].name@ == n);
                    }
                    if n == name {
                        assert(more[i as int].name@ == n);
                    }
                    if references::identifier_names(more).contains(n) {
                        let j = choose|j: int|
                            0 <= j < more.len() && #[trigger] more[j].name@ == n;
                        if j < i {
                            assert(some[j].name@ == n);
                        }
                    }
                }
                assert(references::identifier_names(more) =~= references::identifier_names(
                    some,
                ).union(set![name]));
                lemma_with_locals_again(
                    before.scopes(),
                    references::identifier_names(some),
                    set![name],
                );
            }
            self.add_local(identifiers[i].name.clone());
            i += 1;
        }
        assert(identifiers@.take(i as int) =~= identifiers@);
    }
}

proof fn lemma_declared_by_one_more(statements: Seq<Statement>, i: int)
    requires
        0 <= i < statements.len(),
    ensures
        references::declared(statements.take(i + 1)) == references::declared(
            statements.take(i),
        ).union(Set::new(|name: Name| references::declares(statements[i], name))),
{
    let some = statements.take(i);
    let more = statements.take(i + 1);
    let own = Set::new(|name: Name| references::declares(statements[i], name));
    assert forall|name: Name| references::declared(more).contains(name) <==> references::declared(
        some,
    ).union(own).contains(name) by {
        if references::declared(some).contains(name) {
            let j = choose|j: int|
                0 <= j < some.len() && #[trigger] references::declares(some[j], name);
            assert(references::declares(more[j], name));
        }
        if own.contains(name) {
            assert(references::declares(more[i], name));
        }
        if references::declared(more).contains(name) {
            let j = choose|j: int|
                0 <= j < more.len() && #[trigger] references::declares(more[j], name);
            if j < i {
                assert(references::declares(some[j], name));
            }
        }
    }
    assert(references::declared(more) =~= references::declared(some).union(own));
}

/// The scopes between the statements of a block: what becomes local before the statement at `i`
/// and after it leads from what the statements before it declare to what it declares too.
proof fn lemma_scopes_around(statements: Seq<Statement>, i: int, scopes: Seq<Set<Name>>)
    requires
        0 <= i < statements.len(),
    ensures
        ({
            let before = with_locals(scopes, references::declared(statements.take(i)));
            let at = with_locals(scopes, references::declared_for(statements, i));
            let after = with_locals(scopes, references::declared(statements.take(i + 1)));
            match statements[i] {
                Statement::LocalFunction(function) => at == with_locals(
                    before,
                    set![function.identifier.name@],
                ) && after == at,
                Statement::LocalAssign(assign) => at == before && after == with_locals(
                    before,
                    references::identifier_names(assign.variables@),
                ),
                _ => at == before && after == before,
            }
        }),
{
    let earlier = references::declared(statements.take(i));
    let own = Set::new(|name: Name| references::declares(statements[i], name));
    lemma_declared_by_one_more(statements, i);
    lemma_with_locals_again(scopes, earlier, own);
    match statements[i] {
        Statement::LocalFunction(function) => {
            assert(own =~= set![function.identifier.name@]);
            assert(earlier.union(own) =~= earlier.insert(function.identifier.name@));
        },
        Statement::LocalAssign(assign) => {
            assert(own =~= references::identifier_names(assign.variables@));
        },
        _ => {
            assert(earlier.union(own) =~= earlier);
        },
    }
}

impl CollectGlobalReferences {
    /// Visits what an assignment writes to.
    pub fn visit_variable_ref(&mut self, variable: &Variable)
        requires
            old(self).wf(),
        ensures
            final(self).wf(),
            final(self).scopes() == old(self).scopes(),
            forall|name: Name|
                final(self).globals().contains(name) <==> (old(self).globals().contains(name)
                    || references::in_variable(*variable, old(self).locals(), name)),
        decreases variable,
    {
        match variable {
            Variable::Identifier(identifier) => {
                self.visit_identifier_ref(identifier);
            },
            Variable::Field(field) => {
                self.visit_prefix_ref(&field.prefix);
            },
            Variable::Index(index) => {
                self.visit_prefix_ref(&index.prefix);
                self.visit_expression_ref(&index.index);
            },
        }
    }

    /// Visits what a field, an index or a call is applied to.
    pub fn visit_prefix_ref(&mut self, prefix: &Prefix)
        requires
            old(self).wf(),
        ensures
            final(self).wf(),
            final(self).scopes() == old(self).scopes(),
            forall|name: Name|
                final(self).globals().contains(name) <==> (old(self).globals().contains(name)
                    || references::in_prefix(*prefix, old(self).locals(), name)),
        decreases prefix,
    {
        match prefix {
            Prefix::Identifier(identifier) => {
                self.visit_identifier_ref(identifier);
            },
            Prefix::Field(field) => {
                self.visit_prefix_ref(&field.prefix);
            },
            Prefix::Index(index) => {
                self.visit_prefix_ref(&index.prefix);
                self.visit_expression_ref(&index.index);
            },
            Prefix::Parenthese(parenthese) => {
                self.visit_expression_ref(&parenthese.expression);
            },
            Prefix::Call(call) => {
                self.visit_prefix_ref(&call.prefix);
                self.visit_arguments_ref(&call.arguments);
            },
        }
    }

    /// Visits the arguments of a call.
    pub fn visit_arguments_ref(&mut self, arguments: &Arguments)
        requires
            old(self).wf(),
        ensures
            final(self).wf(),
            final(self).scopes() == old(self).scopes(),
            forall|name: Name|
                final(self).globals().contains(name) <==> (old(self).globals().contains(name)
                    || references::in_arguments(*arguments, old(self).locals(), name)),
        decreases arguments,
    {
        match arguments {
            Arguments::Tuple(tuple) => {
                self.visit_expressions(&tuple.values);
            },
            Arguments::String => {},
            Arguments::Table(table) => {
                self.visit_entries(&table.entries);
            },
        }
    }

    fn visit_entries(&mut self, entries: &Vec<TableEntry>)
        requires
            old(self).wf(),
        ensures
            final(self).wf(),
            final(self).scopes() == old(self).scopes(),
            forall|name: Name|
                final(self).globals().contains(name) <==> (old(self).globals().contains(name)
                    || references::in_entries(entries@, old(self).locals(), name)),
        decreases entries,
    {
        let ghost start = *self;
        let mut i: usize = 0;
        while i < entries.len()
            invariant
                i <= entries@.len(),
                self.wf(),
                self.scopes() == start.scopes(),
                forall|name: Name|
                    self.globals().contains(name) ==> (start.globals().contains(name)
                        || references::in_entries(entries@, start.locals(), name)),
                forall|name: Name|
                    start.globals().contains(name) ==> self.globals().contains(name),
                forall|name: Name, j: int|
                    #![trigger self.globals().contains(name), entries@[j]]
                    0 <= j < i && references::in_entry(entries@[j], start.locals(), name)
                        ==> self.globals().contains(name),
            decreases entries@.len() - i,
        {
            let entry = &entries[i];
            assert(*entry == entries@[i as int]);
            match entry {
                TableEntry::Field(field) => {
                    self.visit_expression_ref(&field.value);
                },
                TableEntry::Index(index) => {
                    self.visit_expression_ref(&index.key);
                    self.visit_expression_ref(&index.value);
                },
                TableEntry::Value(value) => {
                    self.visit_expression_ref(value);
                },
            }
            i += 1;
        }
    }

    fn visit_expressions(&mut self, expressions: &Vec<Expression>)
        requires
            old(self).wf(),
        ensures
            final(self).wf(),
            final(self).scopes() == old(self).scopes(),
            forall|name: Name|
                final(self).globals().contains(name) <==> (old(self).globals().contains(name)
                    || references::in_expressions(expressions@, old(self).locals(), name)),
        decreases expressions,
    {
        let ghost start = *self;
        let mut i: usize = 0;
        while i < expressions.len()
            invariant
                i <= expressions@.len(),
                self.wf(),
                self.scopes() == start.scopes(),
                forall|name: Name|
                    self.globals().contains(name) ==> (start.globals().contains(name)
                        || references::in_expressions(expressions@, start.locals(), name)),
                forall|name: Name|
                    start.globals().contains(name) ==> self.globals().contains(name),
                forall|name: Name, j: int|
                    #![trigger self.globals().contains(name), expressions@[j]]
                    0 <= j < i && references::in_expression(expressions@[j], start.locals(), name)
                        ==> self.globals().contains(name),
            decreases expressions@.len() - i,
        {
            let expression = &expressions[i];
            assert(*expression == expressions@[i as int]);
            self.visit_expression_ref(expression);
            i += 1;
        }
    }

    fn visit_else_ifs(&mut self, branches: &Vec<ElseIfExpressionBranch>)
        requires
            old(self).wf(),
        ensures
            final(self).wf(),
            final(self).scopes() == old(self).scopes(),
            forall|name: Name|
                final(self).globals().contains(name) <==> (old(self).globals().contains(name)
                    || references::in_else_ifs(branches@, old(self).locals(), name)),
        decreases branches,
    {
        let ghost start = *self;
        let mut i: usize = 0;
        while i < branches.len()
            invariant
                i <= branches@.len(),
                self.wf(),
                self.scopes() == start.scopes(),
                forall|name: Name|
                    self.globals().contains(name) ==> (start.globals().contains(name)
                        || references::in_else_ifs(branches@, start.locals(), name)),
                forall|name: Name|
                    start.globals().contains(name) ==> self.globals().contains(name),
                forall|name: Name, j: int|
                    #![trigger self.globals().contains(name), branches@[j]]
                    0 <= j < i && references::in_else_if(branches@[j], start.locals(), name)
                        ==> self.globals().contains(name),
            decreases branches@.len() - i,
        {
            let branch = &branches[i];
            assert(*branch == branches@[i as int]);
            self.visit_expression_ref(&branch.condition);
            self.visit_expression_ref(&branch.result);
            i += 1;
        }
    }

    fn visit_segments(&mut self, segments: &Vec<InterpolationSegment>)
        requires
            old(self).wf(),
        ensures
            final(self).wf(),
            final(self).scopes() == old(self).scopes(),
            forall|name: Name|
                final(self).globals().contains(name) <==> (old(self).globals().contains(name)
                    || references::in_segments(segments@, old(self).locals(), name)),
        decreases segments,
    {
        let ghost start = *self;
        let mut i: usize = 0;
        while i < segments.len()
            invariant
                i <= segments@.len(),
                self.wf(),
                self.scopes() == start.scopes(),
                forall|name: Name|
                    self.globals().contains(name) ==> (start.globals().contains(name)
                        || references::in_segments(segments@, start.locals(), name)),
                forall|name: Name|
                    start.globals().contains(name) ==> self.globals().contains(name),
                forall|name: Name, j: int|
                    #![trigger self.globals().contains(name), segments@[j]]
                    0 <= j < i && references::in_segment(segments@[j], start.locals(), name)
                        ==> self.globals().contains(name),
            decreases segments@.len() - i,
        {
            let segment = &segments[i];
            assert(*segment == segments@[i as int]);
            match segment {
                InterpolationSegment::String => {},
                InterpolationSegment::Value(value) => {
                    self.visit_expression_ref(value);
                },
            }
            i += 1;
        }
    }

    fn visit_annotations(&mut self, identifiers: &Vec<TypedIdentifier>)
        requires
            old(self).wf(),
        ensures
            final(self).wf(),
            final(self).scopes() == old(self).scopes(),
            forall|name: Name|
                final(self).globals().contains(name) <==> (old(self).globals().contains(name)
                    || references::in_annotations(identifiers@, old(self).locals(), name)),
        decreases identifiers,
    {
        let ghost start = *self;
        let mut i: usize = 0;
        while i < identifiers.len()
            invariant
                i <= identifiers@.len(),
                self.wf(),
                self.scopes() == start.scopes(),
                forall|name: Name|
                    self.globals().contains(name) ==> (start.globals().contains(name)
                        || references::in_annotations(identifiers@, start.locals(), name)),
                forall|name: Name|
                    start.globals().contains(name) ==> self.globals().contains(name),
                forall|name: Name, j: int|
                    #![trigger self.globals().contains(name), identifiers@[j]]
                    0 <= j < i && references::in_annotation(identifiers@[j], start.locals(), name)
                        ==> self.globals().contains(name),
            decreases identifiers@.len() - i,
        {
            let identifier = &identifiers[i];
            assert(*identifier == identifiers@[i as int]);
            self.visit_expressions(&identifier.type_expressions);
            i += 1;
        }
    }

    /// Visits an expression.
    pub fn visit_expression_ref(&mut self, expression: &Expression)
        requires
            old(self).wf(),
        ensures
            final(self).wf(),
            final(self).scopes() == old(self).scopes(),
            forall|name: Name|
                final(self).globals().contains(name) <==> (old(self).globals().contains(name)
                    || references::in_expression(*expression, old(self).locals(), name)),
        decreases expression,
    {
        match expression {
            Expression::Identifier(identifier) => {
                self.visit_identifier_ref(identifier);
            },
            Expression::Parenthese(parenthese) => {
                self.visit_expression_ref(&parenthese.expression);
            },
            Expression::Unary(unary) => {
                self.visit_expression_ref(&unary.expression);
            },
            Expression::Binary(binary) => {
                self.visit_expression_ref(&binary.left);
                self.visit_expression_ref(&binary.right);
            },
            Expression::Function(function) => {
                self.visit_annotations(&function.parameters);
                self.visit_expressions(&function.type_expressions);
                self.visit_function_body(&function.parameters, &function.block);
            },
            Expression::Field(field) => {
                self.visit_prefix_ref(&field.prefix);
            },
            Expression::Index(index) => {
                self.visit_prefix_ref(&index.prefix);
                self.visit_expression_ref(&index.index);
            },
            Expression::Call(call) => {
                self.visit_prefix_ref(&call.prefix);
                self.visit_arguments_ref(&call.arguments);
            },
            Expression::Table(table) => {
                self.visit_entries(&table.entries);
            },
            Expression::If(if_expression) => {
                self.visit_expression_ref(&if_expression.condition);
                self.visit_expression_ref(&if_expression.result);
                self.visit_else_ifs(&if_expression.branches);
                self.visit_expression_ref(&if_expression.else_result);
            },
            Expression::TypeCast(cast) => {
                self.visit_expression_ref(&cast.expression);
                self.visit_expressions(&cast.type_expressions);
            },
            Expression::InterpolatedString(string) => {
                self.visit_segments(&string.segments);
            },
            Expression::Other => {},
        }
    }

    /// Visits a block in a scope of its own, in which `parameters` are local.
    fn visit_function_body(&mut self, parameters: &Vec<TypedIdentifier>, block: &Block)
        requires
            old(self).wf(),
        ensures
            final(self).wf(),
            final(self).scopes() == old(self).scopes(),
            forall|name: Name|
                final(self).globals().contains(name) <==> (old(self).globals().contains(name)
                    || references::in_block(*block, old(self).locals().union(
                        references::identifier_names(parameters@),
                    ), name)),
        decreases block, 1int,
    {
        let ghost start = *self;
        self.enter_scope();
        self.add_locals(parameters);
        proof {
            lemma_inner_scope(
                start.scopes(),
                references::identifier_names(parameters@),
                references::block_locals(*block),
            );
        }
        self.visit_block_ref(block);
        self.exit_scope();
    }

    /// Visits a block in a scope of its own.
    fn visit_inner_block(&mut self, block: &Block)
        requires
            old(self).wf(),
        ensures
            final(self).wf(),
            final(self).scopes() == old(self).scopes(),
            forall|name: Name|
                final(self).globals().contains(name) <==> (old(self).globals().contains(name)
                    || references::in_block(*block, old(self).locals(), name)),
        decreases block, 1int,
    {
        let ghost start = *self;
        self.enter_scope();
        proof {
            lemma_inner_scope(start.scopes(), Set::empty(), references::block_locals(*block));
            assert(start.locals().union(Set::empty()) =~= start.locals());
        }
        self.visit_block_ref(block);
        self.exit_scope();
    }

    /// Visits a block in the scope that is open. What a statement declares becomes local there:
    /// the name of a local function before the function is visited, the names of a local
    /// assignment after its values are.
    pub fn visit_block_ref(&mut self, block: &Block)
        requires
            old(self).wf(),
        ensures
            final(self).wf(),
            final(self).scopes() == with_locals(
                old(self).scopes(),
                references::block_locals(*block),
            ),
            forall|name: Name|
                final(self).globals().contains(name) <==> (old(self).globals().contains(name)
                    || in_visited_block(*block, old(self).scopes(), name)),
        decreases block, 0int,
    {
        let ghost start = *self;
        let ghost statements = block.statements@;
        let mut i: usize = 0;
        proof {
            assert(references::declared(statements.take(0)) =~= Set::empty());
            lemma_with_no_locals(start.scopes());
        }
        while i < block.statements.len()
            invariant
                statements == block.statements@,
                i <= statements.len(),
                self.wf(),
                self.scopes() == with_locals(
                    start.scopes(),
                    references::declared(statements.take(i as int)),
                ),
                forall|name: Name|
                    self.globals().contains(name) ==> (start.globals().contains(name) || exists|
                        j: int,
                    |
                        0 <= j < statements.len() && #[trigger] in_visited_statement(
                            statements,
                            j,
                            start.scopes(),
                            name,
                        )),
                forall|name: Name|
                    start.globals().contains(name) ==> self.globals().contains(name),
                forall|name: Name, j: int|
                    0 <= j < i && #[trigger] in_visited_statement(
                        statements,
                        j,
                        start.scopes(),
                        name,
                    ) ==> self.globals().contains(name),
            decreases statements.len() - i,
        {
            let statement = &block.statements[i];
            assert(*statement == statements[i as int]);
            let ghost previous = *self;
            proof {
                lemma_scopes_around(statements, i as int, start.scopes());
            }
            if let Statement::LocalFunction(function) = statement {
                self.add_local(function.identifier.name.clone());
            }
            assert(self.scopes() == with_locals(
                start.scopes(),
                references::declared_for(statements, i as int),
            ));
            self.visit_statement_ref(statement);
            proof {
                assert forall|name: Name| self.globals().contains(name) <==> (
                previous.globals().contains(name) || in_visited_statement(
                    statements,
                    i as int,
                    start.scopes(),
                    name,
                )) by {}
            }
            if let Statement::LocalAssign(assign) = statement {
                self.add_locals(&assign.variables);
            }
            i += 1;
        }
        assert(statements.take(i as int) =~= statements);
        proof {
            assert forall|name: Name|
                in_visited_block(*block, start.scopes(), name) <==> ((exists|j: int|
                    0 <= j < statements.len() && #[trigger] in_visited_statement(
                        statements,
                        j,
                        start.scopes(),
                        name,
                    )) || references::in_end(block.last_statement, self.locals(), name)) by {
                lemma_visited_block(*block, start.scopes(), name);
            }
        }
        if let Some(LastStatement::Return(return_statement)) = &block.last_statement {
            self.visit_expressions(&return_statement.expressions);
        }
    }

    /// Visits a statement.
    pub fn visit_statement_ref(&mut self, statement: &Statement)
        requires
            old(self).wf(),
        ensures
            final(self).wf(),
            final(self).scopes() == old(self).scopes(),
            forall|name: Name|
                final(self).globals().contains(name) <==> (old(self).globals().contains(name)
                    || references::in_statement(*statement, old(self).locals(), name)),
        decreases statement,
    {
        match statement {
            Statement::Assign(assign) => {
                self.visit_variables(&assign.variables);
                self.visit_expressions(&assign.values);
            },
            Statement::Do(do_statement) => {
                self.visit_inner_block(&do_statement.block);
            },
            Statement::CompoundAssign(assign) => {
                self.visit_variable_ref(&assign.variable);
                self.visit_expression_ref(&assign.value);
            },
            Statement::Call(call) => {
                self.visit_prefix_ref(&call.prefix);
                self.visit_arguments_ref(&call.arguments);
            },
            Statement::GenericFor(generic_for) => {
                self.visit_expressions(&generic_for.expressions);
                self.visit_annotations(&generic_for.identifiers);
                self.visit_function_body(&generic_for.identifiers, &generic_for.block);
            },
            Statement::If(if_statement) => {
                self.visit_branches(&if_statement.branches);
                if let Some(block) = &if_statement.else_block {
                    self.visit_inner_block(block);
                }
            },
            Statement::LocalAssign(assign) => {
                self.visit_annotations(&assign.variables);
                self.visit_expressions(&assign.values);
            },
            Statement::LocalFunction(function) => {
                self.visit_annotations(&function.parameters);
                self.visit_expressions(&function.type_expressions);
                self.visit_function_body(&function.parameters, &function.block);
            },
            Statement::NumericFor(numeric_for) => {
                self.visit_expression_ref(&numeric_for.start);
                self.visit_expression_ref(&numeric_for.end);
                if let Some(step) = &numeric_for.step {
                    self.visit_expression_ref(step);
                }
                self.visit_expressions(&numeric_for.identifier.type_expressions);
                let ghost start = *self;
                self.enter_scope();
                self.add_local(numeric_for.identifier.name.clone());
                proof {
                    let variable = set![numeric_for.identifier.name@];
                    lemma_inner_scope(
                        start.scopes(),
                        variable,
                        references::block_locals(numeric_for.block),
                    );
                    assert(start.locals().union(variable) =~= start.locals().insert(
                        numeric_for.identifier.name@,
                    ));
                }
                self.visit_block_ref(&numeric_for.block);
                self.exit_scope();
            },
            Statement::Repeat(repeat) => {
                let ghost start = *self;
                self.enter_scope();
                proof {
                    lemma_inner_scope(
                        start.scopes(),
                        Set::empty(),
                        references::block_locals(repeat.block),
                    );
                    assert(start.locals().union(Set::empty()) =~= start.locals());
                }
                self.visit_block_ref(&repeat.block);
                self.visit_expression_ref(&repeat.condition);
                self.exit_scope();
            },
            Statement::While(while_statement) => {
                self.visit_expression_ref(&while_statement.condition);
                self.visit_inner_block(&while_statement.block);
            },
            Statement::Function(function) => {
                self.visit_function_name_ref(&function.name);
                self.visit_annotations(&function.parameters);
                self.visit_expressions(&function.type_expressions);
                let ghost start = *self;
                let ghost method = references::method_locals(function.name);
                let ghost parameters = references::identifier_names(function.parameters@);
                proof {
                    lemma_inner_scope(start.scopes(), method, parameters);
                    lemma_inner_scope(
                        start.scopes(),
                        method.union(parameters),
                        references::block_locals(function.block),
                    );
                    lemma_with_no_locals(start.scopes().push(Set::empty()));
                }
                self.enter_scope();
                if function.name.method.is_some() {
                    self.add_local(references::SELF_PARAMETER.to_owned());
                }
                self.add_locals(&function.parameters);
                self.visit_block_ref(&function.block);
                self.exit_scope();
            },
            Statement::TypeDeclaration(declaration) => {
                self.visit_expressions(&declaration.type_expressions);
            },
            Statement::TypeFunction => {},
        }
    }

    fn visit_variables(&mut self, variables: &Vec<Variable>)
        requires
            old(self).wf(),
        ensures
            final(self).wf(),
            final(self).scopes() == old(self).scopes(),
            forall|name: Name|
                final(self).globals().contains(name) <==> (old(self).globals().contains(name)
                    || references::in_variables(variables@, old(self).locals(), name)),
        decreases variables,
    {
        let ghost start = *self;
        let mut i: usize = 0;
        while i < variables.len()
            invariant
                i <= variables@.len(),
                self.wf(),
                self.scopes() == start.scopes(),
                forall|name: Name|
                    self.globals().contains(name) ==> (start.globals().contains(name)
                        || references::in_variables(variables@, start.locals(), name)),
                forall|name: Name|
                    start.globals().contains(name) ==> self.globals().contains(name),
                forall|name: Name, j: int|
                    #![trigger self.globals().contains(name), variables@[j]]
                    0 <= j < i && references::in_variable(variables@[j], start.locals(), name)
                        ==> self.globals().contains(name),
            decreases variables@.len() - i,
        {
            let variable = &variables[i];
            assert(*variable == variables@[i as int]);
            self.visit_variable_ref(variable);
            i += 1;
        }
    }

    fn visit_branches(&mut self, branches: &Vec<IfBranch>)
        requires
            old(self).wf(),
        ensures
            final(self).wf(),
            final(self).scopes() == old(self).scopes(),
            forall|name: Name|
                final(self).globals().contains(name) <==> (old(self).globals().contains(name)
                    || references::in_branches(branches@, old(self).locals(), name)),
        decreases branches,
    {
        let ghost start = *self;
        let mut i: usize = 0;
        while i < branches.len()
            invariant
                i <= branches@.len(),
                self.wf(),
                self.scopes() == start.scopes(),
                forall|name: Name|
                    self.globals().contains(name) ==> (start.globals().contains(name)
                        || references::in_branches(branches@, start.locals(), name)),
                forall|name: Name|
                    start.globals().contains(name) ==> self.globals().contains(name),
                forall|name: Name, j: int|
                    #![trigger self.globals().contains(name), branches@[j]]
                    0 <= j < i && references::in_branch(branches@[j], start.locals(), name)
                        ==> self.globals().contains(name),
            decreases branches@.len() - i,
        {
            let branch = &branches[i];
            assert(*branch == branches@[i as int]);
            self.visit_expression_ref(&branch.condition);
            self.visit_inner_block(&branch.block);
            i += 1;
        }
    }

    /// Leaves `block` and what was recorded as they are.
    pub fn process_block(&mut self, block: &mut Block)
        ensures
            *final(self) == *old(self),
            *final(block) == *old(block),
    {
    }

    /// Visits the name of a function statement. Fields and methods are keys of tables, so only
    /// the first name counts.
    pub fn visit_function_name_ref(&mut self, name: &FunctionName)
        requires
            old(self).wf(),
        ensures
            final(self).wf(),
            final(self).scopes() == old(self).scopes(),
            forall|n: Name|
                final(self).globals().contains(n) <==> (old(self).globals().contains(n)
                    || references::in_identifier(name.name, old(self).locals(), n)),
    {
        self.visit_identifier_ref(&name.name);
    }
}

impl Default for CollectGlobalReferences {
    /// A visitor that has recorded nothing and has no scope open.
    fn default() -> (collector: Self)
        ensures
            collector.wf(),
            collector.globals() == Set::<Name>::empty(),
            collector.scopes() == Seq::<Set<Name>>::empty(),
    {
        let collector = CollectGlobalReferences {
            globals: Vec::new(),
            recorded: StringHashSet::new(),
            local_scopes: Vec::new(),
        };
        assert(collector.scopes() =~= Seq::<Set<Name>>::empty());
        collector
    }
}

/// A name is visible as soon as any of the open scopes has it, however far out, and only then.
pub proof fn each_scope_is_visible(scopes: Seq<Set<Name>>, name: Name)
    ensures
        forall|i: int|
            0 <= i < scopes.len() && (#[trigger] scopes[i]).contains(name) ==> visible(
                scopes,
            ).contains(name),
        (forall|i: int| 0 <= i < scopes.len() ==> !(#[trigger] scopes[i]).contains(name))
            ==> !visible(scopes).contains(name),
{
}

/// Names become local in the innermost scope, next to those that it had, and in no other.
pub proof fn innermost_scope_takes_locals(scopes: Seq<Set<Name>>, locals: Set<Name>)
    ensures
        with_locals(scopes, locals).len() == scopes.len(),
        forall|i: int|
            0 <= i < scopes.len() - 1 ==> #[trigger] with_locals(scopes, locals)[i] == scopes[i],
        scopes.len() > 0 ==> forall|name: Name|
            with_locals(scopes, locals).last().contains(name) <==> scopes.last().contains(name)
                || locals.contains(name),
{
}

/// A block that is visited in a scope refers to what it refers to where the names of all open
/// scopes are local.
pub proof fn visited_block_sees_the_scopes(block: Block, scopes: Seq<Set<Name>>, name: Name)
    requires
        scopes.len() > 0,
    ensures
        in_visited_block(block, scopes, name) <==> references::in_block(
            block,
            visible(scopes),
            name,
        ),
{
}

/// Without a scope, all that the statements of a block and the values that it returns refer to
/// counts, whatever the block declares.
pub proof fn visited_block_without_scope(block: Block, name: Name)
    ensures
        forall|i: int|
            0 <= i < block.statements@.len() && references::in_statement(
                #[trigger] block.statements@[i],
                Set::empty(),
                name,
            ) ==> in_visited_block(block, Seq::empty(), name),
        (block.last_statement matches Some(LastStatement::Return(returned)) && exists|i: int|
            0 <= i < returned.expressions@.len() && references::in_expression(
                #[trigger] returned.expressions@[i],
                Set::empty(),
                name,
            )) ==> in_visited_block(block, Seq::empty(), name),
        in_visited_block(block, Seq::empty(), name) ==> {
            ||| exists|i: int|
                0 <= i < block.statements@.len() && references::in_statement(
                    #[trigger] block.statements@[i],
                    Set::empty(),
                    name,
                )
            ||| block.last_statement matches Some(LastStatement::Return(returned)) && exists|i: int|
                0 <= i < returned.expressions@.len() && references::in_expression(
                    #[trigger] returned.expressions@[i],
                    Set::empty(),
                    name,
                )
        },
{
    assert(visible(Seq::empty()) =~= Set::<Name>::empty());
    if let Some(LastStatement::Return(returned)) = block.last_statement {
        assert(references::in_last_statement(
            LastStatement::Return(returned),
            Set::empty(),
            name,
        ) == references::in_expressions(returned.expressions@, Set::empty(), name));
    }
}

} // verus!
