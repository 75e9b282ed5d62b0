//! The RIDL family per-profile semantic passes: the contract-expression
//! checker and evaluator, doc-comment scanning, init-value derivation, the
//! pure parts of name resolution and of the lint and checker passes —
//! declaration, field-type and interaction-member lowering, layout and
//! recursion analysis, exposure and the failure channel.

pub mod chars;
pub mod contracts;
pub mod decls;
pub mod definitions;
pub mod check;
pub mod diag;
pub mod docs;
pub mod exact;
pub mod expr;
pub mod expr_eval;
pub mod exposure;
pub mod init;
pub mod interactions;
pub mod layout;
pub mod lint;
pub mod package;
pub mod positional;
pub mod members;
pub mod recursion;
pub mod resolve;
pub mod fallible;
pub mod field_types;
pub mod syntax;
pub mod text;
pub mod vocabulary;
