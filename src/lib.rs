//! An interpreter for a small scripting language: `let`, `const`, `shout` and
//! `if` over text, numbers and booleans.
//!
//! Source text goes through the lexer (`lexer`), the parser (`parser`, with
//! arithmetic in `expr`), which checks declarations against its own symbol
//! table, evaluates arithmetic and decides conditions as it goes, and the
//! interpreter (`interpreter`), which runs the resulting statements against
//! its own environment (`env`). Each stage is stated as a spec function and
//! its executable code is proved to compute exactly that; `program` joins
//! them. Numbers are exact fractions (`number`).
use vstd::prelude::*;

pub mod number;
pub mod text;
pub mod lexer;
pub mod env;
pub mod expr;
pub mod ast;
pub mod parser;
pub mod interpreter;
pub mod program;

verus! {

/// The kinds of failure that stop a run.
#[derive(Clone, Copy, Debug, PartialEq, Eq, Structural)]
pub enum LangError {
    /// An unexpected character, or a numeric literal with more than one dot.
    LexError,
    /// A token that the grammar does not allow where it stands, or a missing one.
    SyntaxError,
    /// A declaration whose kind differs from the name's current binding.
    TypeConflictError,
    /// A declaration of a name bound as a constant, or a `const` of a bound name.
    ConstReassignError,
    /// A name that is not bound where a value is needed.
    UnboundIdentifierError,
    /// An `if` condition of none of the accepted forms.
    UnsupportedConditionError,
    /// Division by zero, or a number too large to be held exactly.
    ArithmeticError,
    /// Blocks nested deeper than the parser accepts.
    NestingTooDeep,
}

} // verus!
