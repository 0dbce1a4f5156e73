//! Core of a constrained-Horn-clause solver: hash-consed terms with
//! evaluation, the clause and instance data model, translation of
//! counterexamples into learning data, and the parsers and printers of the
//! checker's text format.

pub mod big;
pub mod check;
pub mod clause;
pub mod data;
pub mod err;
pub mod idx;
pub mod instance;
pub mod laws;
pub mod op;
pub mod term;
pub mod text;
pub mod tterm;
pub mod val;

pub use big::Int;
pub use clause::{Clause, PrdInfo, VarInfo};
pub use data::{Cex, Cexs, Cstr, Data, Sample};
pub use err::Error;
pub use idx::{ClsIdx, PrdIdx, VarIdx};
pub use instance::Instance;
pub use op::Op;
pub use term::{Factory, RTerm, Term};
pub use tterm::TTerm;
pub use val::{Typ, Val};
