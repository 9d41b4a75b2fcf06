//! Configuration and name analysis for a rule that renames the variables of Lua programs.
//!
//! [`rule::RenameVariables`] holds the settings of the rule and works out which names a renaming
//! pass must not give to a variable. [`collector::CollectGlobalReferences`] finds the global
//! names that a program refers to.

pub mod collector;
pub mod configuration;
pub mod identifiers;
pub mod laws;
pub mod names;
pub mod nodes;
pub mod occurrences;
pub mod references;
pub mod resolution;
pub mod rule;
pub mod settings;
pub mod short_form;
