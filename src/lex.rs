//! The tokenizer: its grammar as spec functions over the characters and an index, the code
//! proved to follow it, the source form of tokens, and the law that reading back the source
//! form gives the same tokens.
use vstd::prelude::*;
use crate::error::{found_at, Error, ErrorView, Located, LocatedView};
use crate::input_reader::{position_after, InputReader, Position};
use crate::operator::{operator_of, Operator};
use crate::text::{alphabetic, ascii_digit, numeric};

verus! {

/// A numeric literal as it was written, with the sign that unary minus gave it.
#[derive(Debug, Clone)]
pub struct Number {
    pub negative: bool,
    pub text: String,
}

#[derive(Debug)]
pub enum TokenKind {
    Operator(Operator),
    Identifier(String),
    Number(Number),
    Function(String, Vec<Token>),
}

/// A token with the place of its first character.
#[derive(Debug)]
pub struct Token {
    pub kind: TokenKind,
    pub position: Position,
}

pub enum KindView {
    Operator(Operator),
    Identifier(Seq<char>),
    Number(bool, Seq<char>),
    Function(Seq<char>, Seq<TokenView>),
}

pub struct TokenView {
    pub kind: KindView,
    pub position: Position,
}

impl View for TokenKind {
    type V = KindView;

    open spec fn view(&self) -> KindView
        decreases self,
    {
        match self {
            TokenKind::Operator(op) => KindView::Operator(*op),
            TokenKind::Identifier(name) => KindView::Identifier(name@),
            TokenKind::Number(n) => KindView::Number(n.negative, n.text@),
            TokenKind::Function(name, args) => KindView::Function(
                name@,
                Seq::new(
                    args@.len(),
                    |i: int|
                        if 0 <= i < args@.len() {
                            args@[i].view()
                        } else {
                            TokenView {
                                kind: KindView::Operator(Operator::Add),
                                position: Position { line: 0, column: 0 },
                            }
                        },
                ),
            ),
        }
    }
}

impl View for Token {
    type V = TokenView;

    open spec fn view(&self) -> TokenView
        decreases self,
    {
        TokenView { kind: self.kind.view(), position: self.position }
    }
}

/// The views of a sequence of tokens.
pub open spec fn views(ts: Seq<Token>) -> Seq<TokenView> {
    Seq::new(ts.len(), |i: int| ts[i]@)
}

/// Space, tab, carriage return and newline separate tokens.
pub open spec fn blank(c: char) -> bool {
    c == ' ' || c == '\t' || c == '\r' || c == '\n'
}

/// A character that may start an identifier.
pub open spec fn ident_start(c: char) -> bool {
    alphabetic(c) || c == '_'
}

/// A character that may continue an identifier.
pub open spec fn ident_char(c: char) -> bool {
    alphabetic(c) || numeric(c)
}

/// How many identifier characters stand at `j` and after.
pub open spec fn ident_run(s: Seq<char>, j: int) -> nat
    decreases s.len() - j,
{
    if 0 <= j < s.len() && ident_char(s[j]) {
        1 + ident_run(s, j + 1)
    } else {
        0
    }
}

/// How many blank characters stand at `j` and after.
pub open spec fn blank_run(s: Seq<char>, j: int) -> nat
    decreases s.len() - j,
{
    if 0 <= j < s.len() && blank(s[j]) {
        1 + blank_run(s, j + 1)
    } else {
        0
    }
}

/// How many characters of a numeric literal stand at `j` and after (numeric characters and
/// decimal points), and whether the run was cut by a second decimal point. `dot` tells
/// whether a point was already seen.
pub open spec fn number_run(s: Seq<char>, j: int, dot: bool) -> (nat, bool)
    decreases s.len() - j,
{
    if 0 <= j < s.len() && numeric(s[j]) {
        let (n, cut) = number_run(s, j + 1, dot);
        (n + 1, cut)
    } else if 0 <= j < s.len() && s[j] == '.' {
        if dot {
            (0, true)
        } else {
            let (n, cut) = number_run(s, j + 1, true);
            (n + 1, cut)
        }
    } else {
        (0, false)
    }
}

/// How many decimal points `t` holds.
pub open spec fn dot_count(t: Seq<char>) -> nat
    decreases t.len(),
{
    if t.len() == 0 {
        0
    } else {
        dot_count(t.drop_last()) + if t.last() == '.' { 1nat } else { 0nat }
    }
}

/// A literal that reads as a double: ASCII digits with at most one decimal point.
pub open spec fn valid_literal(t: Seq<char>) -> bool {
    &&& forall|k: int| 0 <= k < t.len() ==> ascii_digit(#[trigger] t[k]) || t[k] == '.'
    &&& dot_count(t) <= 1
}

/// The place of the character at `i` (of the end, for `i` at the end).
pub open spec fn place(s: Seq<char>, i: int) -> Position {
    position_after(s.take(i))
}

/// The end of the text, where running out of input is reported.
pub open spec fn end_of(s: Seq<char>) -> Position {
    position_after(s)
}

/// The numeric literal that starts at `i`, with the index after it.
pub open spec fn number_at(s: Seq<char>, i: int) -> Result<(KindView, int), LocatedView> {
    let (n, cut) = number_run(s, i, false);
    let t = s.subrange(i, i + n);
    if cut || !valid_literal(t) {
        Err(found_at(ErrorView::InvalidNumber { found: t }, place(s, i)))
    } else {
        Ok((KindView::Number(false, t), i + n))
    }
}

/// What the argument list of a call reports where its separator was expected.
pub open spec fn separator_text() -> Seq<char> {
    seq![',', ' ', 'o', 'r', ' ', ')']
}

/// The token that starts at `i` (blanks are not skipped), with the index after it.
pub open spec fn token_at(s: Seq<char>, i: int, allow: bool) -> Result<(TokenView, int), LocatedView>
    decreases s.len() - i, 2int,
{
    if i < 0 || i >= s.len() {
        Err(found_at(ErrorView::UnexpectedEOI, end_of(s)))
    } else {
        let c = s[i];
        let here = place(s, i);
        if operator_of(c) is Some {
            Ok((TokenView { kind: KindView::Operator(operator_of(c)->0), position: here }, i + 1))
        } else if ident_start(c) && allow {
            match ident_at(s, i, allow) {
                Ok((k, e)) => Ok((TokenView { kind: k, position: here }, e)),
                Err(e) => Err(e),
            }
        } else if numeric(c) {
            match number_at(s, i) {
                Ok((k, e)) => Ok((TokenView { kind: k, position: here }, e)),
                Err(e) => Err(e),
            }
        } else {
            Err(found_at(ErrorView::InvalidCharacter { c }, here))
        }
    }
}

/// The identifier or function call that starts at `i`; its first character is taken as it
/// is, then identifier characters follow. A `(` right after the name opens an argument list.
pub open spec fn ident_at(s: Seq<char>, i: int, allow: bool) -> Result<(KindView, int), LocatedView>
    decreases s.len() - i, 1int,
{
    if i < 0 || i >= s.len() {
        Err(found_at(ErrorView::UnexpectedEOI, end_of(s)))
    } else {
        let j = i + 1 + ident_run(s, i + 1);
        let name = s.subrange(i, j);
        if j < s.len() && s[j] == '(' {
            match args_from(s, j + 1, allow) {
                Ok((args, e)) => Ok((KindView::Function(name, args), e)),
                Err(e) => Err(e),
            }
        } else {
            Ok((KindView::Identifier(name), j))
        }
    }
}

/// The arguments of a call from `k` to the closing parenthesis, with the index after it.
/// Arguments are separated by commas; blanks around them are skipped.
pub open spec fn args_from(s: Seq<char>, k: int, allow: bool) -> Result<(Seq<TokenView>, int), LocatedView>
    decreases s.len() - k, 3int,
{
    if k < 0 || k >= s.len() {
        Err(found_at(ErrorView::UnexpectedEOI, end_of(s)))
    } else if blank(s[k]) {
        args_from(s, k + 1, allow)
    } else if s[k] == ')' {
        Ok((Seq::empty(), k + 1))
    } else {
        match token_at(s, k, allow) {
            Err(e) => Err(e),
            Ok((t, m)) => {
                let m2 = m + blank_run(s, m);
                if m2 >= s.len() || m2 <= k {
                    Err(found_at(ErrorView::UnexpectedEOI, end_of(s)))
                } else if s[m2] == ')' {
                    Ok((seq![t], m2 + 1))
                } else if s[m2] == ',' {
                    match args_from(s, m2 + 1, allow) {
                        Ok((rest, e)) => Ok((seq![t] + rest, e)),
                        Err(e) => Err(e),
                    }
                } else {
                    Err(
                        found_at(
                            ErrorView::Expected { expected: separator_text(), found: seq![s[m2]] },
                            place(s, m2),
                        ),
                    )
                }
            },
        }
    }
}

/// The tokens from `i` to the end, blanks skipped.
pub open spec fn tokens_from(s: Seq<char>, i: int, allow: bool) -> Result<Seq<TokenView>, LocatedView>
    decreases s.len() - i,
{
    if i < 0 || i >= s.len() {
        Ok(Seq::empty())
    } else if blank(s[i]) {
        tokens_from(s, i + 1, allow)
    } else {
        match token_at(s, i, allow) {
            Err(e) => Err(e),
            Ok((t, m)) => if i < m <= s.len() {
                match tokens_from(s, m, allow) {
                    Ok(rest) => Ok(seq![t] + rest),
                    Err(e) => Err(e),
                }
            } else {
                Err(found_at(ErrorView::UnexpectedEOI, end_of(s)))
            },
        }
    }
}

/// The tokens of a whole text. With `allow` false, a letter or `_` is an invalid character.
pub open spec fn lex_spec(s: Seq<char>, allow: bool) -> Result<Seq<TokenView>, LocatedView> {
    tokens_from(s, 0, allow)
}


fn is_blank(c: char) -> (r: bool)
    ensures
        r == blank(c),
{
    c == ' ' || c == '\t' || c == '\r' || c == '\n'
}

/// Whether `t` is a literal that reads as a number.
pub fn literal_is_valid(t: &Vec<char>) -> (r: bool)
    ensures
        r == valid_literal(t@),
{
    let mut dots: usize = 0;
    let mut k: usize = 0;
    while k < t.len()
        invariant
            k <= t.len(),
            dots == dot_count(t@.take(k as int)),
            dots <= k,
            forall|j: int| 0 <= j < k ==> ascii_digit(#[trigger] t@[j]) || t@[j] == '.',
        decreases t.len() - k,
    {
        let c = t[k];
        if !(('0' <= c && c <= '9') || c == '.') {
            return false;
        }
        assert(t@.take(k + 1).drop_last() =~= t@.take(k as int));
        if c == '.' {
            dots = dots + 1;
        }
        k = k + 1;
    }
    assert(t@.take(k as int) =~= t@);
    dots <= 1
}

/// Moves the reader past the blanks in front of it.
fn skip_blanks(input: &mut InputReader)
    requires
        old(input).wf(),
    ensures
        final(input).wf(),
        final(input).spec_text() == old(input).spec_text(),
        final(input).spec_index() == old(input).spec_index() + blank_run(
            old(input).spec_text(),
            old(input).spec_index() as int,
        ),
        blank_run(final(input).spec_text(), final(input).spec_index() as int) == 0,
{
    let ghost s = input.spec_text();
    let ghost i = input.spec_index() as int;
    loop
        invariant
            input.wf(),
            input.spec_text() == s,
            s == old(input).spec_text(),
            i == old(input).spec_index(),
            i + blank_run(s, i) == input.spec_index() + blank_run(s, input.spec_index() as int),
        ensures
            blank_run(s, input.spec_index() as int) == 0,
        decreases s.len() - input.spec_index(),
    {
        let ghost idx = input.spec_index() as int;
        match input.peek() {
            Some(c) => {
                if is_blank(c) {
                    input.consume();
                } else {
                    assert(blank_run(s, idx) == 0);
                    break ;
                }
            },
            None => {
                assert(blank_run(s, idx) == 0);
                break ;
            },
        }
    }
}

/// Reads the numeric literal in front of the reader.
fn lex_number(input: &mut InputReader) -> (r: Result<Number, Located>)
    requires
        old(input).wf(),
    ensures
        final(input).wf(),
        final(input).spec_index() >= old(input).spec_index(),
        final(input).spec_text() == old(input).spec_text(),
        match number_at(old(input).spec_text(), old(input).spec_index() as int) {
            Ok((k, e)) => r is Ok && k == KindView::Number(r->Ok_0.negative, r->Ok_0.text@)
                && final(input).spec_index() == e,
            Err(e) => r is Err && r->Err_0@ == e,
        },
{
    let ghost s = input.spec_text();
    let ghost i = input.spec_index() as int;
    let start = input.position();
    let mut buf: Vec<char> = Vec::new();
    let mut dot = false;
    loop
        invariant
            start == place(s, i),
            input.wf(),
            input.spec_text() == s,
            s == old(input).spec_text(),
            i == old(input).spec_index(),
            input.spec_index() == i + buf.len(),
            buf@ == s.subrange(i, input.spec_index() as int),
            number_run(s, i, false) == (
                (buf.len() + number_run(s, input.spec_index() as int, dot).0) as nat,
                number_run(s, input.spec_index() as int, dot).1,
            ),
        ensures
            number_run(s, input.spec_index() as int, dot) == (0nat, false),
        decreases s.len() - input.spec_index(),
    {
        let ghost idx = input.spec_index() as int;
        match input.peek() {
            Some(c) => {
                if crate::text::is_numeric(c) {
                    buf.push(c);
                    input.consume();
                    assert(buf@ =~= s.subrange(i, idx + 1));
                } else if c == '.' {
                    if dot {
                        assert(number_run(s, idx, dot) == (0nat, true));
                        return Err(
                            Located::at(
                                Error::InvalidNumber { found: crate::text::string_of(&buf) },
                                start,
                            ),
                        );
                    }
                    dot = true;
                    buf.push(c);
                    input.consume();
                    assert(buf@ =~= s.subrange(i, idx + 1));
                } else {
                    assert(number_run(s, idx, dot) == (0nat, false));
                    break ;
                }
            },
            None => {
                assert(number_run(s, idx, dot) == (0nat, false));
                break ;
            },
        }
    }
    if literal_is_valid(&buf) {
        Ok(Number { negative: false, text: crate::text::string_of(&buf) })
    } else {
        Err(Located::at(Error::InvalidNumber { found: crate::text::string_of(&buf) }, start))
    }
}


proof fn lemma_args_skip(s: Seq<char>, k: int, allow: bool)
    requires
        0 <= k,
    ensures
        args_from(s, k, allow) == args_from(s, k + blank_run(s, k), allow),
    decreases s.len() - k,
{
    if k < s.len() && blank(s[k]) {
        lemma_args_skip(s, k + 1, allow);
    }
}

/// Reads the token in front of the reader.
pub fn next_token(input: &mut InputReader, allow_idents: bool) -> (r: Result<Token, Located>)
    requires
        old(input).wf(),
    ensures
        final(input).wf(),
        final(input).spec_text() == old(input).spec_text(),
        final(input).spec_index() >= old(input).spec_index(),
        r is Ok ==> final(input).spec_index() > old(input).spec_index(),
        match token_at(old(input).spec_text(), old(input).spec_index() as int, allow_idents) {
            Ok((t, e)) => r is Ok && r->Ok_0@ == t && final(input).spec_index() == e,
            Err(e) => r is Err && r->Err_0@ == e,
        },
    decreases old(input).spec_text().len() - old(input).spec_index(), 2int,
{
    let position = input.position();
    let ghost s = input.spec_text();
    let ghost i = input.spec_index() as int;
    match input.peek() {
        None => {
            assert(s.take(s.len() as int) =~= s);
            Err(Located::at(Error::UnexpectedEOI, position))
        },
        Some(c) => {
            match Operator::from_char(c) {
                Some(op) => {
                    input.consume();
                    Ok(Token { kind: TokenKind::Operator(op), position })
                },
                None => {
                    if (crate::text::is_alphabetic(c) || c == '_') && allow_idents {
                        match lex_ident(input, allow_idents) {
                            Ok(kind) => Ok(Token { kind, position }),
                            Err(e) => Err(e),
                        }
                    } else if crate::text::is_numeric(c) {
                        match lex_number(input) {
                            Ok(n) => Ok(Token { kind: TokenKind::Number(n), position }),
                            Err(e) => Err(e),
                        }
                    } else {
                        Err(Located::at(Error::InvalidCharacter { c }, position))
                    }
                },
            }
        },
    }
}

/// Reads an identifier, or a function call with its arguments, in front of the reader.
fn lex_ident(input: &mut InputReader, allow_idents: bool) -> (r: Result<TokenKind, Located>)
    requires
        old(input).wf(),
    ensures
        final(input).wf(),
        final(input).spec_text() == old(input).spec_text(),
        final(input).spec_index() >= old(input).spec_index(),
        r is Ok ==> final(input).spec_index() > old(input).spec_index(),
        match ident_at(old(input).spec_text(), old(input).spec_index() as int, allow_idents) {
            Ok((k, e)) => r is Ok && r->Ok_0@ == k && final(input).spec_index() == e,
            Err(e) => r is Err && r->Err_0@ == e,
        },
    decreases old(input).spec_text().len() - old(input).spec_index(), 1int,
{
    let ghost s = input.spec_text();
    let ghost i = input.spec_index() as int;
    let mut name: Vec<char> = Vec::new();
    match input.consume() {
        Some(c) => name.push(c),
        None => {
            assert(s.take(s.len() as int) =~= s);
            return Err(Located::at(Error::UnexpectedEOI, input.position()));
        },
    }
    assert(name@ =~= s.subrange(i, i + 1));
    loop
        invariant
            input.wf(),
            input.spec_text() == s,
            s == old(input).spec_text(),
            i == old(input).spec_index(),
            i + 1 <= input.spec_index() <= s.len(),
            name@ == s.subrange(i, input.spec_index() as int),
            i + 1 + ident_run(s, i + 1) == input.spec_index() + ident_run(
                s,
                input.spec_index() as int,
            ),
        ensures
            ident_run(s, input.spec_index() as int) == 0,
        decreases s.len() - input.spec_index(),
    {
        let ghost idx = input.spec_index() as int;
        match input.peek() {
            Some(c) => {
                if crate::text::is_alphabetic(c) || crate::text::is_numeric(c) {
                    name.push(c);
                    input.consume();
                    assert(name@ =~= s.subrange(i, idx + 1));
                } else {
                    assert(ident_run(s, idx) == 0);
                    break ;
                }
            },
            None => {
                assert(ident_run(s, idx) == 0);
                break ;
            },
        }
    }
    let text = crate::text::string_of(&name);
    if input.peek() == Some('(') {
        input.consume();
        match lex_args(input, allow_idents) {
            Ok(args) => {
                let kind = TokenKind::Function(text, args);
                proof {
                    let ghost k = kind@;
                    assert(k->Function_1 =~= views(args@));
                }
                Ok(kind)
            },
            Err(e) => Err(e),
        }
    } else {
        Ok(TokenKind::Identifier(text))
    }
}

/// Reads the arguments of a call up to and including the closing parenthesis.
fn lex_args(input: &mut InputReader, allow_idents: bool) -> (r: Result<Vec<Token>, Located>)
    requires
        old(input).wf(),
    ensures
        final(input).wf(),
        final(input).spec_text() == old(input).spec_text(),
        final(input).spec_index() >= old(input).spec_index(),
        match args_from(old(input).spec_text(), old(input).spec_index() as int, allow_idents) {
            Ok((ts, e)) => r is Ok && views(r->Ok_0@) == ts && final(input).spec_index() == e,
            Err(e) => r is Err && r->Err_0@ == e,
        },
    decreases old(input).spec_text().len() - old(input).spec_index(), 3int,
{
    let ghost s = input.spec_text();
    let ghost i = input.spec_index() as int;
    proof {
        lemma_args_skip(s, i, allow_idents);
    }
    skip_blanks(input);
    let ghost k = input.spec_index() as int;
    match input.peek() {
        None => {
            assert(s.take(s.len() as int) =~= s);
            Err(Located::at(Error::UnexpectedEOI, input.position()))
        },
        Some(c) => {
            assert(c == s[k] && !blank(s[k]));
            if c == ')' {
                input.consume();
                let v: Vec<Token> = Vec::new();
                assert(views(v@) =~= Seq::<TokenView>::empty());
                Ok(v)
            } else {
                let t = match next_token(input, allow_idents) {
                    Ok(t) => t,
                    Err(e) => {
                        return Err(e);
                    },
                };
                let ghost m = input.spec_index() as int;
                skip_blanks(input);
                let ghost m2 = input.spec_index() as int;
                assert(token_at(s, k, allow_idents) == Ok::<(TokenView, int), LocatedView>((t@, m)));
                match input.peek() {
                    None => {
                        assert(s.take(s.len() as int) =~= s);
                        Err(Located::at(Error::UnexpectedEOI, input.position()))
                    },
                    Some(c2) => {
                        assert(c2 == s[m2] && m2 > k);
                        if c2 == ')' {
                            input.consume();
                            let mut v: Vec<Token> = Vec::new();
                            v.push(t);
                            assert(views(v@) =~= seq![t@]);
                            Ok(v)
                        } else if c2 == ',' {
                            input.consume();
                            match lex_args(input, allow_idents) {
                                Ok(rest) => {
                                    let mut v = rest;
                                    let ghost tail = v@;
                                    v.insert(0, t);
                                    assert(views(v@) =~= seq![t@] + views(tail));
                                    Ok(v)
                                },
                                Err(e) => Err(e),
                            }
                        } else {
                            let expected: Vec<char> = vec![',', ' ', 'o', 'r', ' ', ')'];
                            let found: Vec<char> = vec![c2];
                            assert(expected@ =~= separator_text());
                            assert(found@ =~= seq![c2]);
                            Err(
                                Located::at(
                                    Error::Expected {
                                        expected: crate::text::string_of(&expected),
                                        found: crate::text::string_of(&found),
                                    },
                                    input.position(),
                                ),
                            )
                        }
                    },
                }
            }
        },
    }
}


/// `a` followed by the tokens of `r`, or the error of `r`.
pub open spec fn prepend(a: Seq<TokenView>, r: Result<Seq<TokenView>, LocatedView>) -> Result<
    Seq<TokenView>,
    LocatedView,
> {
    match r {
        Ok(x) => Ok(a + x),
        Err(e) => Err(e),
    }
}

proof fn lemma_tokens_skip(s: Seq<char>, k: int, allow: bool)
    requires
        0 <= k,
    ensures
        tokens_from(s, k, allow) == tokens_from(s, k + blank_run(s, k), allow),
    decreases s.len() - k,
{
    if k < s.len() && blank(s[k]) {
        lemma_tokens_skip(s, k + 1, allow);
    }
}

/// Reads every token left in the reader.
pub fn lex(input: &mut InputReader, allow_idents: bool) -> (r: Result<Vec<Token>, Located>)
    requires
        old(input).wf(),
    ensures
        final(input).wf(),
        final(input).spec_text() == old(input).spec_text(),
        match tokens_from(old(input).spec_text(), old(input).spec_index() as int, allow_idents) {
            Ok(ts) => r is Ok && views(r->Ok_0@) == ts,
            Err(e) => r is Err && r->Err_0@ == e,
        },
        r is Ok ==> final(input).spec_index() == final(input).spec_text().len(),
{
    let ghost s = input.spec_text();
    let ghost i = input.spec_index() as int;
    let mut tokens: Vec<Token> = Vec::new();
    assert(views(tokens@) + Seq::<TokenView>::empty() =~= Seq::<TokenView>::empty());
    loop
        invariant
            input.wf(),
            input.spec_text() == s,
            s == old(input).spec_text(),
            i == old(input).spec_index(),
            tokens_from(s, i, allow_idents) == prepend(
                views(tokens@),
                tokens_from(s, input.spec_index() as int, allow_idents),
            ),
        ensures
            tokens_from(s, i, allow_idents) == Ok::<Seq<TokenView>, LocatedView>(views(tokens@)),
            input.spec_index() == s.len(),
        decreases s.len() - input.spec_index(),
    {
        proof {
            lemma_tokens_skip(s, input.spec_index() as int, allow_idents);
        }
        skip_blanks(input);
        let ghost k = input.spec_index() as int;
        if input.is_empty() {
            assert(views(tokens@) + Seq::<TokenView>::empty() =~= views(tokens@));
            break ;
        }
        assert(!blank(s[k]));
        let t = match next_token(input, allow_idents) {
            Ok(t) => t,
            Err(e) => {
                return Err(e);
            },
        };
        let ghost before = views(tokens@);
        tokens.push(t);
        proof {
            assert(views(tokens@) =~= before + seq![t@]);
            match tokens_from(s, input.spec_index() as int, allow_idents) {
                Ok(x) => {
                    assert(before + (seq![t@] + x) =~= (before + seq![t@]) + x);
                },
                Err(_) => {},
            }
        }
    }
    Ok(tokens)
}

/// The tokens of `source`. With `allow_idents` false, a letter or `_` is an invalid character.
pub fn tokenize(source: &str, allow_idents: bool) -> (r: Result<Vec<Token>, Located>)
    ensures
        match lex_spec(source@, allow_idents) {
            Ok(ts) => r is Ok && views(r->Ok_0@) == ts,
            Err(e) => r is Err && r->Err_0@ == e,
        },
{
    let mut input = InputReader::new(source);
    lex(&mut input, allow_idents)
}


/// The source form of a token: what reads back as the same token.
pub open spec fn token_text(t: TokenView) -> Seq<char>
    decreases t, 1nat, 0nat,
{
    match t.kind {
        KindView::Operator(op) => seq![op.spec_symbol()],
        KindView::Identifier(name) => name,
        KindView::Number(neg, text) => if neg {
            seq!['-'] + text
        } else {
            text
        },
        KindView::Function(name, args) => name + seq!['('] + args_text(t, args.len()) + seq![')'],
    }
}

/// The first `n` arguments of the call `t`, each followed by `,` and a space but the last.
pub open spec fn args_text(t: TokenView, n: nat) -> Seq<char>
    decreases t, 0nat, n,
{
    match t.kind {
        KindView::Function(name, args) => if n == 0 || n > args.len() {
            Seq::empty()
        } else if n == 1 {
            token_text(args[0])
        } else {
            args_text(t, (n - 1) as nat) + seq![',', ' '] + token_text(args[n - 1])
        },
        _ => Seq::empty(),
    }
}


/// Tokens in source form, each followed by a space.
pub open spec fn render_spec(ts: Seq<TokenView>) -> Seq<char>
    decreases ts.len(),
{
    if ts.len() == 0 {
        Seq::empty()
    } else {
        token_text(ts[0]) + seq![' '] + render_spec(ts.drop_first())
    }
}

fn append_str(out: &mut Vec<char>, s: &String)
    ensures
        final(out)@ == old(out)@ + s@,
{
    let mut chars = crate::text::chars_of(s.as_str());
    out.append(&mut chars);
}

/// Appends the source form of `t` to `out`.
fn write_token(t: &Token, out: &mut Vec<char>)
    ensures
        final(out)@ == old(out)@ + token_text(t@),
    decreases t,
{
    match &t.kind {
        TokenKind::Operator(op) => {
            out.push(op.symbol());
        },
        TokenKind::Identifier(name) => {
            append_str(out, name);
        },
        TokenKind::Number(n) => {
            if n.negative {
                out.push('-');
            }
            append_str(out, &n.text);
        },
        TokenKind::Function(name, args) => {
            append_str(out, name);
            out.push('(');
            let ghost v = t@;
            let ghost start = out@;
            assert(v.kind == t.kind@);
            assert(v.kind->Function_1 =~= views(args@));
            let mut i: usize = 0;
            while i < args.len()
                invariant
                    v == t@,
                    t.kind is Function,
                    t.kind->Function_1 == *args,
                    i <= args@.len(),
                    v.kind == KindView::Function(name@, v.kind->Function_1),
                    v.kind->Function_1.len() == args@.len(),
                    forall|k: int| 0 <= k < args@.len() ==> v.kind->Function_1[k] == #[trigger] args@[k]@,
                    out@ == start + args_text(v, i as nat),
                decreases args@.len() - i,
            {
                proof {
                    broadcast use vstd::std_specs::vec::axiom_vec_index_decreases;
                    assert(decreases_to!(*args => args[i as int]));
                    assert(decreases_to!(*t => args[i as int]));
                }
                if i > 0 {
                    out.push(',');
                    out.push(' ');
                }
                write_token(&args[i], out);
                proof {
                    if i == 0 {
                        assert(out@ =~= start + args_text(v, 1));
                    } else {
                        assert(out@ =~= start + args_text(v, (i + 1) as nat));
                    }
                }
                i = i + 1;
            }
            out.push(')');
            assert(out@ =~= old(out)@ + token_text(v));
        },
    }
    assert(final(out)@ =~= old(out)@ + token_text(t@));
}

/// The tokens written back as source text, each followed by a space.
pub fn render(tokens: &Vec<Token>) -> (r: String)
    ensures
        r@ == render_spec(views(tokens@)),
{
    let ghost ts = views(tokens@);
    let ghost n = ts.len() as int;
    let mut out: Vec<char> = Vec::new();
    let mut i: usize = 0;
    assert(ts.subrange(0, n) =~= ts);
    while i < tokens.len()
        invariant
            ts == views(tokens@),
            n == ts.len(),
            i <= n,
            out@ + render_spec(ts.subrange(i as int, n)) == render_spec(ts),
        decreases n - i,
    {
        let ghost before = out@;
        assert(ts.subrange(i as int, n).drop_first() =~= ts.subrange(i + 1, n));
        write_token(&tokens[i], &mut out);
        out.push(' ');
        assert(out@ + render_spec(ts.subrange(i + 1, n)) =~= before + render_spec(ts.subrange(i as int, n)));
        i = i + 1;
    }
    assert(out@ + render_spec(ts.subrange(n, n)) =~= out@);
    crate::text::string_of(&out)
}


/// A token that its source form, followed by a blank, reads back as: an operator; an
/// identifier that starts with a letter or `_` (no operator character) and goes on with
/// letters and digits; or an unsigned valid literal that starts with an ASCII digit.
pub open spec fn plain_token(t: TokenView) -> bool {
    match t.kind {
        KindView::Operator(_) => true,
        KindView::Identifier(name) => {
            &&& name.len() >= 1
            &&& ident_start(name[0])
            &&& operator_of(name[0]) is None
            &&& forall|k: int| 1 <= k < name.len() ==> ident_char(#[trigger] name[k])
        },
        KindView::Number(neg, text) => {
            &&& !neg
            &&& text.len() >= 1
            &&& ascii_digit(text[0])
            &&& valid_literal(text)
        },
        KindView::Function(_, _) => false,
    }
}

/// The kinds of a token sequence, places left out.
pub open spec fn kinds(ts: Seq<TokenView>) -> Seq<KindView> {
    Seq::new(ts.len(), |i: int| ts[i].kind)
}

proof fn lemma_dot_count_prefix(t: Seq<char>, k: int)
    requires
        0 <= k <= t.len(),
    ensures
        dot_count(t.take(k)) <= dot_count(t),
    decreases t.len(),
{
    if k < t.len() {
        assert(t.drop_last().take(k) =~= t.take(k));
        lemma_dot_count_prefix(t.drop_last(), k);
    } else {
        assert(t.take(k) =~= t);
    }
}

/// The literal `text`, written at `i` in `s` and followed by a blank, is read whole.
proof fn lemma_number_run(s: Seq<char>, i: int, text: Seq<char>, j: int)
    requires
        0 <= i <= j <= i + text.len(),
        i + text.len() < s.len(),
        s.subrange(i, i + text.len() as int) == text,
        s[i + text.len()] == ' ',
        valid_literal(text),
    ensures
        number_run(s, j, dot_count(text.take(j - i)) > 0) == ((i + text.len() - j) as nat, false),
    decreases i + text.len() - j,
{
    let e = i + text.len();
    if j < e {
        let k = j - i;
        assert(s[j] == text[k]);
        assert(text.take(k + 1).drop_last() =~= text.take(k));
        lemma_number_run(s, i, text, j + 1);
        if text[k] == '.' {
            lemma_dot_count_prefix(text, k + 1);
        }
    }
}

/// The identifier characters of `name` after its first, written at `i` in `s` and followed
/// by a blank, are read whole.
proof fn lemma_ident_run(s: Seq<char>, i: int, name: Seq<char>, j: int)
    requires
        0 <= i < j <= i + name.len(),
        i + name.len() < s.len(),
        s.subrange(i, i + name.len() as int) == name,
        s[i + name.len()] == ' ',
        forall|k: int| 1 <= k < name.len() ==> ident_char(#[trigger] name[k]),
    ensures
        ident_run(s, j) == i + name.len() - j,
    decreases i + name.len() - j,
{
    if j < i + name.len() {
        assert(s[j] == name[j - i]);
        lemma_ident_run(s, i, name, j + 1);
    }
}

/// The source form of a plain token, at `i` in `s` and followed by a blank, reads back as
/// that token's kind and ends where the blank stands.
proof fn lemma_token_back(s: Seq<char>, i: int, t: TokenView, allow: bool)
    requires
        plain_token(t),
        allow || !(t.kind is Identifier),
        0 <= i,
        i + token_text(t).len() < s.len(),
        s.subrange(i, i + token_text(t).len() as int) == token_text(t),
        s[i + token_text(t).len()] == ' ',
    ensures
        token_at(s, i, allow) is Ok,
        token_at(s, i, allow)->Ok_0.0.kind == t.kind,
        token_at(s, i, allow)->Ok_0.1 == i + token_text(t).len(),
{
    let text = token_text(t);
    assert(s[i] == text[0]);
    match t.kind {
        KindView::Operator(op) => {
            crate::operator::symbol_round_trip(op);
        },
        KindView::Identifier(name) => {
            lemma_ident_run(s, i, name, i + 1);
            assert(s.subrange(i, i + name.len()) =~= name);
        },
        KindView::Number(neg, lit) => {
            lemma_number_run(s, i, lit, i);
            assert(lit.take(0) =~= Seq::<char>::empty());
            assert(s.subrange(i, i + lit.len()) =~= lit);
        },
        KindView::Function(_, _) => {},
    }
}

proof fn lemma_tokens_back(s: Seq<char>, i: int, us: Seq<TokenView>, allow: bool)
    requires
        0 <= i <= s.len(),
        s.subrange(i, s.len() as int) == render_spec(us),
        forall|k: int| 0 <= k < us.len() ==> plain_token(#[trigger] us[k]),
        forall|k: int| 0 <= k < us.len() ==> allow || !((#[trigger] us[k]).kind is Identifier),
    ensures
        tokens_from(s, i, allow) is Ok,
        kinds(tokens_from(s, i, allow)->Ok_0) == kinds(us),
    decreases us.len(),
{
    if us.len() == 0 {
        assert(s.subrange(i, s.len() as int).len() == 0);
        assert(kinds(Seq::<TokenView>::empty()) =~= kinds(us));
    } else {
        let u = us[0];
        let text = token_text(u);
        let n = text.len() as int;
        let rest = render_spec(us.drop_first());
        assert(s.subrange(i, s.len() as int) == text + seq![' '] + rest);
        assert(s.subrange(i, i + n) =~= text);
        assert(s[i + n] == (text + seq![' '] + rest)[n]);
        let w = text + seq![' '] + rest;
        assert(s.subrange(i + n + 1, s.len() as int) =~= w.subrange(n + 1, w.len() as int));
        assert(w.subrange(n + 1, w.len() as int) =~= rest);
        assert(plain_token(us[0]));
        assert(allow || !(us[0].kind is Identifier));
        lemma_token_back(s, i, u, allow);
        if u.kind is Number {
            assert(text[0] == u.kind->Number_1[0]);
        }
        assert(!blank(s[i])) by {
            match u.kind {
                KindView::Identifier(name) => {
                    assert(text[0] == name[0]);
                },
                KindView::Number(_, lit) => {
                    assert(text[0] == lit[0]);
                },
                _ => {},
            }
        }
        assert forall|k: int| 0 <= k < us.drop_first().len() implies plain_token(
            #[trigger] us.drop_first()[k],
        ) by {
            assert(us.drop_first()[k] == us[k + 1]);
        }
        assert forall|k: int| 0 <= k < us.drop_first().len() implies allow || !((
        #[trigger] us.drop_first()[k]).kind is Identifier) by {
            assert(us.drop_first()[k] == us[k + 1]);
        }
        lemma_tokens_back(s, i + n + 1, us.drop_first(), allow);
        let t = token_at(s, i, allow)->Ok_0.0;
        let later = tokens_from(s, i + n + 1, allow)->Ok_0;
        assert(tokens_from(s, i + n, allow) == tokens_from(s, i + n + 1, allow));
        assert(tokens_from(s, i, allow) == Ok::<Seq<TokenView>, LocatedView>(seq![t] + later));
        assert(kinds(later) == kinds(us.drop_first()));
        assert(later.len() == kinds(later).len());
        assert(later.len() == us.len() - 1);
        assert forall|k: int| 0 <= k < us.len() implies #[trigger] kinds(seq![t] + later)[k]
            == kinds(us)[k] by {
            if k > 0 {
                assert(kinds(later)[k - 1] == kinds(us.drop_first())[k - 1]);
            }
        }
        assert(kinds(seq![t] + later) =~= kinds(us));
    }
}

/// Tokenizing the source form of a sequence of plain tokens gives tokens of the same kinds,
/// in the same order (identifiers only where they are allowed).
pub proof fn retokenize_plain(ts: Seq<TokenView>, allow: bool)
    requires
        forall|k: int| 0 <= k < ts.len() ==> plain_token(#[trigger] ts[k]),
        forall|k: int| 0 <= k < ts.len() ==> allow || !((#[trigger] ts[k]).kind is Identifier),
    ensures
        lex_spec(render_spec(ts), allow) is Ok,
        kinds(lex_spec(render_spec(ts), allow)->Ok_0) == kinds(ts),
{
    let s = render_spec(ts);
    assert(s.subrange(0, s.len() as int) =~= s);
    lemma_tokens_back(s, 0, ts, allow);
}


proof fn lemma_ident_run_chars(s: Seq<char>, j: int, k: int)
    requires
        0 <= j <= k < j + ident_run(s, j),
    ensures
        ident_char(s[k]),
    decreases k - j,
{
    if j < k {
        lemma_ident_run_chars(s, j + 1, k);
    }
}

proof fn lemma_ident_run_bound(s: Seq<char>, j: int)
    requires
        0 <= j <= s.len(),
    ensures
        j + ident_run(s, j) <= s.len(),
    decreases s.len() - j,
{
    if j < s.len() {
        lemma_ident_run_bound(s, j + 1);
    }
}

proof fn lemma_number_run_bound(s: Seq<char>, j: int, dot: bool)
    requires
        0 <= j <= s.len(),
    ensures
        j + number_run(s, j, dot).0 <= s.len(),
    decreases s.len() - j,
{
    if j < s.len() {
        lemma_number_run_bound(s, j + 1, dot);
        lemma_number_run_bound(s, j + 1, true);
    }
}

proof fn lemma_number_run_first(s: Seq<char>, i: int)
    requires
        0 <= i < s.len(),
        numeric(s[i]),
    ensures
        number_run(s, i, false).0 >= 1,
{
}

/// A token read at `i` is a call or a plain token.
proof fn lemma_token_plain(s: Seq<char>, i: int, allow: bool)
    requires
        token_at(s, i, allow) is Ok,
    ensures
        token_at(s, i, allow)->Ok_0.0.kind is Function || plain_token(token_at(s, i, allow)->Ok_0.0),
        !allow ==> !(token_at(s, i, allow)->Ok_0.0.kind is Identifier),
{
    assert(0 <= i < s.len());
    let c = s[i];
    if operator_of(c) is None && ident_start(c) && allow {
        lemma_ident_run_bound(s, i + 1);
        let j = i + 1 + ident_run(s, i + 1);
        if !(j < s.len() && s[j] == '(') {
            let name = s.subrange(i, j);
            assert(name[0] == c);
            assert forall|k: int| 1 <= k < name.len() implies ident_char(#[trigger] name[k]) by {
                lemma_ident_run_chars(s, i + 1, i + k);
            }
        }
    } else if operator_of(c) is None && numeric(c) {
        lemma_number_run_first(s, i);
        lemma_number_run_bound(s, i, false);
        let n = number_run(s, i, false).0;
        if !number_run(s, i, false).1 && i + n <= s.len() {
            let t = s.subrange(i, i + n);
            assert(t[0] == c);
            assert(valid_literal(t) ==> ascii_digit(t[0]));
        }
    }
}

/// The tokens read from `i` on are calls or plain tokens.
proof fn lemma_tokens_plain(s: Seq<char>, i: int, allow: bool)
    requires
        0 <= i,
        tokens_from(s, i, allow) is Ok,
    ensures
        forall|k: int| 0 <= k < tokens_from(s, i, allow)->Ok_0.len() ==> (#[trigger] tokens_from(s, i, allow)->Ok_0[k]).kind is Function
            || plain_token(tokens_from(s, i, allow)->Ok_0[k]),
        forall|k: int| 0 <= k < tokens_from(s, i, allow)->Ok_0.len() ==> allow || !((#[trigger] tokens_from(s, i, allow)->Ok_0[k]).kind is Identifier),
    decreases s.len() - i,
{
    if i < s.len() {
        if blank(s[i]) {
            lemma_tokens_plain(s, i + 1, allow);
        } else {
            lemma_token_plain(s, i, allow);
            let m = token_at(s, i, allow)->Ok_0.1;
            lemma_tokens_plain(s, m, allow);
            let t = token_at(s, i, allow)->Ok_0.0;
            let all = tokens_from(s, i, allow)->Ok_0;
            let rest = tokens_from(s, m, allow)->Ok_0;
            assert(all == seq![t] + rest);
            assert forall|k: int| 0 <= k < all.len() implies (#[trigger] all[k]).kind is Function
                || plain_token(all[k]) by {
                if k > 0 {
                    assert(all[k] == rest[k - 1]);
                }
            }
            assert forall|k: int| 0 <= k < all.len() implies allow || !((#[trigger] all[k]).kind is Identifier) by {
                if k > 0 {
                    assert(all[k] == rest[k - 1]);
                }
            }
        }
    }
}

/// Tokenizing a text, writing the tokens back and tokenizing again, with identifiers allowed
/// or not, gives tokens of the same kinds, wherever the first reading holds no function call.
pub proof fn retokenize_lexed(s: Seq<char>, allow: bool)
    requires
        lex_spec(s, allow) is Ok,
        forall|k: int| 0 <= k < lex_spec(s, allow)->Ok_0.len() ==> !((#[trigger] lex_spec(s, allow)->Ok_0[k]).kind is Function),
    ensures
        lex_spec(render_spec(lex_spec(s, allow)->Ok_0), allow) is Ok,
        kinds(lex_spec(render_spec(lex_spec(s, allow)->Ok_0), allow)->Ok_0) == kinds(lex_spec(s, allow)->Ok_0),
{
    lemma_tokens_plain(s, 0, allow);
    retokenize_plain(lex_spec(s, allow)->Ok_0, allow);
}

} // verus!
