//! Verified core of the Sw compiler tool chain: the semantic type model and
//! symbol tables, the type rules (assignability, generic substitution and
//! overload choice), the checker's rules on expressions and statements, the
//! lowering helpers that build the mid-level IR, the source formatter, the
//! language-server text and protocol helpers and the build driver's target,
//! naming and caching rules.

pub mod table;
pub mod text;
pub mod types;
pub mod formatter;
pub mod lsp;
pub mod json;
pub mod symbols;
pub mod mir;
pub mod typing;
pub mod expressions;
pub mod statements;
pub mod members;
pub mod checker;
pub mod finalize;
pub mod body;
pub mod lower;
pub mod lowering;
pub mod naming;
pub mod driver;
