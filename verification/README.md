# rename_variables

Configuration and name analysis for a rule that renames the variables of Lua programs to short
names, verified with Verus.

- `src/rule.rs`: the rule itself. It reads its settings from properties, writes them back in a
  short form, and works out the names that no variable may be renamed to.
- `src/collector.rs`: the walk that collects the global names that a program refers to.
- `src/references.rs`: what it means that a piece of a program refers to a name as a global.
- `src/occurrences.rs`: where names are used and bound at all, and how global references relate
  to that.
- `src/laws.rs`: what holds of configuring and describing a rule.
- `src/configuration.rs`, `src/identifiers.rs`, `src/names.rs`, `src/nodes.rs`: properties and
  errors, valid identifiers, names and their order, and the syntax tree.
- `app/`: running the rule on a program in a syntax tree of the caller's own.
