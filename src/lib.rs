//! Arithmetic expressions in infix notation: a tokenizer that keeps source places, the
//! shunting-yard arrangement into postfix order, and the bookkeeping of postfix evaluation
//! (operand stack, name tables, identifier lookup), generic in the number type.
use vstd::prelude::*;

pub mod error;
pub mod input_reader;
pub mod interpret;
pub mod lex;
pub mod operator;
pub mod pipeline;
pub mod postfix;
pub mod text;

pub use error::{Error, ErrorView, Located, LocatedView};
pub use input_reader::{InputReader, Position};
pub use interpret::{
    classify_argument, plan_call, resolve_identifiers, Argument, Bindings, CallOp, Definitions,
    Evaluation, Functions, Step,
};
pub use lex::{lex, next_token, render, tokenize, Number, Token, TokenKind};
pub use operator::Operator;
pub use pipeline::to_postfix;
pub use postfix::{shunting_yard, ShuntedStack, ShuntedStackItem};

verus! {

} // verus!
