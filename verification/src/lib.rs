//! Front end of a small compiler: an indentation-sensitive scanner and a
//! constraint-based type-inference engine, with their contracts proved.

pub mod ast;
pub mod bytes;
pub mod constraint;
pub mod env;
pub mod errors;
pub mod infer;
pub mod ir;
pub mod lexer;
pub mod line;
pub mod mir;
pub mod prelude;
pub mod scanner;
pub mod stream;
pub mod symbol;
pub mod tast;
pub mod termination;
pub mod token;
pub mod typeck;
pub mod types;
pub mod unify;

pub use crate::constraint::{Constraint, ConstraintSet};
pub use crate::env::Environment;
pub use crate::errors::Error;
pub use crate::infer::infer;
pub use crate::scanner::Scanner;
pub use crate::symbol::{Symbol, SymbolTable};
pub use crate::token::{ScanError, Token};
pub use crate::types::Type;
pub use crate::unify::{unify, Substitution, TypeError};
