//! Flow-sensitive type narrowing for a static type checker.
//!
//! The clause algebra ([`algebra`], [`negation`], [`truths`]) keeps the
//! conditions that guard a program point as formulas in conjunctive normal
//! form over assertions about variables. The reconciler ([`reconciler`])
//! applies one assertion to the known type of a variable, with the help of
//! the containment of types ([`comparator`]). Around them stand the code
//! base that they consult ([`codebase`], [`interner`], [`names`]), the
//! record of references between symbols ([`symbol_references`]), the
//! analysis of control flow ([`control_flow`]) and the configuration
//! ([`config`]).
pub mod algebra;
pub mod analysis_result;
pub mod assertion;
pub mod clause;
pub mod codebase;
pub mod commutativity;
pub mod comparator;
pub mod config;
pub mod control;
pub mod control_flow;
pub mod ids;
pub mod interner;
pub mod issue;
pub mod keys;
pub mod names;
pub mod negation;
pub mod reconciler;
pub mod seq_set;
pub mod str_map;
pub mod symbol_references;
pub mod text;
pub mod truths;
pub mod types;
