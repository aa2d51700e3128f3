//! Operators: their characters, binding strengths, and which of them combine two operands.
use vstd::prelude::*;

verus! {

/// The operators and parentheses of the infix language.
#[derive(Debug, Clone, Copy, PartialEq, Eq, Structural)]
pub enum Operator {
    LeftParen,
    RightParen,
    Add,
    Sub,
    Mul,
    Div,
    Mod,
    Assign,
    Pow,
}

/// The operator that a single character stands for: `÷` is a second spelling of `/`.
pub open spec fn operator_of(c: char) -> Option<Operator> {
    if c == '+' {
        Some(Operator::Add)
    } else if c == '-' {
        Some(Operator::Sub)
    } else if c == '*' {
        Some(Operator::Mul)
    } else if c == '/' || c == '÷' {
        Some(Operator::Div)
    } else if c == '%' {
        Some(Operator::Mod)
    } else if c == '^' {
        Some(Operator::Pow)
    } else if c == '=' {
        Some(Operator::Assign)
    } else if c == '(' {
        Some(Operator::LeftParen)
    } else if c == ')' {
        Some(Operator::RightParen)
    } else {
        None
    }
}

impl Operator {
    /// Binding strength: `+ -` bind least, then `* / %`, then `^`; the parentheses and `=`
    /// have none.
    pub open spec fn spec_precedence(self) -> Option<u8> {
        match self {
            Operator::Add | Operator::Sub => Some(0),
            Operator::Mul | Operator::Div | Operator::Mod => Some(1),
            Operator::Pow => Some(2),
            _ => None,
        }
    }

    /// Whether the operator combines two operands (the parentheses and `=` do not).
    pub open spec fn spec_can_apply(self) -> bool {
        !(self is LeftParen || self is RightParen || self is Assign)
    }

    /// The character that writes the operator.
    pub open spec fn spec_symbol(self) -> char {
        match self {
            Operator::LeftParen => '(',
            Operator::RightParen => ')',
            Operator::Add => '+',
            Operator::Sub => '-',
            Operator::Mul => '*',
            Operator::Div => '/',
            Operator::Mod => '%',
            Operator::Assign => '=',
            Operator::Pow => '^',
        }
    }

    pub fn precedence(&self) -> (r: Option<u8>)
        ensures
            r == self.spec_precedence(),
    {
        match self {
            Operator::Add | Operator::Sub => Some(0),
            Operator::Mul | Operator::Div | Operator::Mod => Some(1),
            Operator::Pow => Some(2),
            _ => None,
        }
    }

    pub fn can_apply(&self) -> (r: bool)
        ensures
            r == self.spec_can_apply(),
    {
        match self {
            Operator::LeftParen | Operator::RightParen | Operator::Assign => false,
            _ => true,
        }
    }

    pub fn symbol(&self) -> (r: char)
        ensures
            r == self.spec_symbol(),
    {
        match self {
            Operator::LeftParen => '(',
            Operator::RightParen => ')',
            Operator::Add => '+',
            Operator::Sub => '-',
            Operator::Mul => '*',
            Operator::Div => '/',
            Operator::Mod => '%',
            Operator::Assign => '=',
            Operator::Pow => '^',
        }
    }

    /// The operator written as text, one character long.
    pub fn to_text(&self) -> (r: String)
        ensures
            r@ == seq![self.spec_symbol()],
    {
        let v: Vec<char> = vec![self.symbol()];
        crate::text::string_of(&v)
    }

    /// The operator that `c` writes, if any.
    pub fn from_char(c: char) -> (r: Option<Operator>)
        ensures
            r == operator_of(c),
    {
        if c == '+' {
            Some(Operator::Add)
        } else if c == '-' {
            Some(Operator::Sub)
        } else if c == '*' {
            Some(Operator::Mul)
        } else if c == '/' || c == '÷' {
            Some(Operator::Div)
        } else if c == '%' {
            Some(Operator::Mod)
        } else if c == '^' {
            Some(Operator::Pow)
        } else if c == '=' {
            Some(Operator::Assign)
        } else if c == '(' {
            Some(Operator::LeftParen)
        } else if c == ')' {
            Some(Operator::RightParen)
        } else {
            None
        }
    }
}

/// Reading back the character of an operator gives the operator.
pub proof fn symbol_round_trip(op: Operator)
    ensures
        operator_of(op.spec_symbol()) == Some(op),
{
}

} // verus!
