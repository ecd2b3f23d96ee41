//! A grammar-driven text analysis and syntax-highlighting library.
//!
//! A declarative grammar description is compiled into a rule table and
//! checked for structural soundness ([`grammar`]); documents are normalized
//! ([`utils`]) and parsed by a backtracking recursive-descent engine with
//! best-effort syntax-error recovery ([`engine`]); the positioned parse tree
//! is traversed read-only ([`parsed`]) and rendered into a standalone HTML
//! page with token-class highlighting and inline error annotations
//! ([`generate`]). Shared character-sequence utilities live in [`text`].
//!
//! Every public operation carries a contract that pins its result down to a
//! mathematical model of the same computation over character sequences.

pub mod engine;
pub mod generate;
pub mod grammar;
pub mod parsed;
pub mod text;
pub mod utils;
