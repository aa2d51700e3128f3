//! The shunting-yard arrangement of tokens in postfix order, as a step function on a state and
//! the code proved to follow it.
use vstd::prelude::*;
use crate::error::{found_at, Error, ErrorView, Located, LocatedView};
use crate::input_reader::Position;
use crate::lex::{views, KindView, Number, Token, TokenKind, TokenView};
use crate::operator::Operator;

verus! {

/// One item of a postfix sequence.
#[derive(Debug)]
pub enum ShuntedStackItem {
    Operator(Operator),
    Operand(Token),
}

pub enum ItemView {
    Operator(Operator),
    Operand(TokenView),
}

impl View for ShuntedStackItem {
    type V = ItemView;

    open spec fn view(&self) -> ItemView {
        match self {
            ShuntedStackItem::Operator(op) => ItemView::Operator(*op),
            ShuntedStackItem::Operand(t) => ItemView::Operand(t@),
        }
    }
}

impl ShuntedStackItem {
    pub fn new_operand(statement: Token) -> (r: ShuntedStackItem)
        ensures
            r@ == ItemView::Operand(statement@),
    {
        ShuntedStackItem::Operand(statement)
    }

    pub fn new_operator(operator: Operator) -> (r: ShuntedStackItem)
        ensures
            r@ == ItemView::Operator(operator),
    {
        ShuntedStackItem::Operator(operator)
    }

    pub fn is_operator(&self) -> (r: bool)
        ensures
            r == (self@ is Operator),
    {
        match self {
            ShuntedStackItem::Operator(_) => true,
            ShuntedStackItem::Operand(_) => false,
        }
    }

    pub fn is_operand(&self) -> (r: bool)
        ensures
            r == (self@ is Operand),
    {
        match self {
            ShuntedStackItem::Operator(_) => false,
            ShuntedStackItem::Operand(_) => true,
        }
    }

    pub fn get_operator(&self) -> (r: Option<Operator>)
        ensures
            self@ is Operator ==> r == Some(self@->Operator_0),
            self@ is Operand ==> r is None,
    {
        match self {
            ShuntedStackItem::Operator(op) => Some(*op),
            ShuntedStackItem::Operand(_) => None,
        }
    }

    pub fn get_operand(&self) -> (r: Option<&Token>)
        ensures
            self@ is Operand ==> r is Some && r->0@ == self@->Operand_0,
            self@ is Operator ==> r is None,
    {
        match self {
            ShuntedStackItem::Operator(_) => None,
            ShuntedStackItem::Operand(t) => Some(t),
        }
    }
}

/// A sequence of items in postfix order.
#[derive(Debug)]
pub struct ShuntedStack {
    items: Vec<ShuntedStackItem>,
}

/// The views of a sequence of items.
pub open spec fn item_views(items: Seq<ShuntedStackItem>) -> Seq<ItemView> {
    Seq::new(items.len(), |i: int| items[i]@)
}

impl View for ShuntedStack {
    type V = Seq<ItemView>;

    closed spec fn view(&self) -> Seq<ItemView> {
        item_views(self.items@)
    }
}

impl ShuntedStack {
    pub fn new() -> (r: ShuntedStack)
        ensures
            r@ == Seq::<ItemView>::empty(),
    {
        let r = ShuntedStack { items: Vec::new() };
        assert(r@ =~= Seq::<ItemView>::empty());
        r
    }

    pub fn push(&mut self, item: ShuntedStackItem)
        ensures
            final(self)@ == old(self)@.push(item@),
    {
        self.items.push(item);
        assert(self@ =~= old(self)@.push(item@));
    }

    pub fn peek_at(&self, index: usize) -> (r: Option<&ShuntedStackItem>)
        ensures
            index < self@.len() ==> r is Some && r->0@ == self@[index as int],
            index >= self@.len() ==> r is None,
    {
        if index < self.items.len() {
            Some(&self.items[index])
        } else {
            None
        }
    }

    pub fn replace(&mut self, index: usize, item: ShuntedStackItem)
        requires
            index < old(self)@.len(),
        ensures
            final(self)@ == old(self)@.update(index as int, item@),
    {
        self.items.set(index, item);
        assert(self@ =~= old(self)@.update(index as int, item@));
    }

    pub fn len(&self) -> (r: usize)
        ensures
            r == self@.len(),
    {
        self.items.len()
    }
}

/// Whether `top`, on the operator stack, binds at least as tightly as `op`.
pub open spec fn binds_at_least(top: Operator, op: Operator) -> bool {
    match (top.spec_precedence(), op.spec_precedence()) {
        (Some(a), Some(b)) => a >= b,
        _ => false,
    }
}

/// The running state of the transform.
pub struct ShuntState {
    pub output: Seq<ItemView>,
    pub stack: Seq<Operator>,
    /// A `-` where an operand was due: the next number is negated.
    pub negative: bool,
    /// Whether the last token ended an operand (a number, a name, a call or a `)`).
    pub last_was_operand: bool,
    /// The places of the `(` still open, innermost last.
    pub parens: Seq<Position>,
}

/// Moves operators from the stack to the output while the top is not `(` and binds at least
/// as tightly as `op`.
pub open spec fn pop_higher(output: Seq<ItemView>, stack: Seq<Operator>, op: Operator) -> (
    Seq<ItemView>,
    Seq<Operator>,
)
    decreases stack.len(),
{
    if stack.len() > 0 && stack.last() != Operator::LeftParen && binds_at_least(stack.last(), op) {
        pop_higher(output.push(ItemView::Operator(stack.last())), stack.drop_last(), op)
    } else {
        (output, stack)
    }
}

/// Moves operators from the stack to the output down to the nearest `(`, which is dropped;
/// `None` if there is none.
pub open spec fn pop_to_paren(output: Seq<ItemView>, stack: Seq<Operator>) -> Option<
    (Seq<ItemView>, Seq<Operator>),
>
    decreases stack.len(),
{
    if stack.len() == 0 {
        None
    } else if stack.last() == Operator::LeftParen {
        Some((output, stack.drop_last()))
    } else {
        pop_to_paren(output.push(ItemView::Operator(stack.last())), stack.drop_last())
    }
}

/// The error for a `(` left open; it stands at the innermost open place.
pub open spec fn unclosed(parens: Seq<Position>) -> LocatedView {
    LocatedView {
        error: ErrorView::MismatchedParentheses { found: '(', missing: ')' },
        position: if parens.len() > 0 {
            Some(parens.last())
        } else {
            None
        },
    }
}

/// Moves every operator left on the stack to the output; a `(` there has no partner.
pub open spec fn pop_all(output: Seq<ItemView>, stack: Seq<Operator>, parens: Seq<Position>) -> Result<
    Seq<ItemView>,
    LocatedView,
>
    decreases stack.len(),
{
    if stack.len() == 0 {
        Ok(output)
    } else if stack.last() == Operator::LeftParen {
        Err(unclosed(parens))
    } else {
        pop_all(output.push(ItemView::Operator(stack.last())), stack.drop_last(), parens)
    }
}

/// An operand as it goes to the output: a number takes a pending negation.
pub open spec fn negated(t: TokenView, negative: bool) -> TokenView {
    match t.kind {
        KindView::Number(neg, text) => if negative {
            TokenView { kind: KindView::Number(!neg, text), position: t.position }
        } else {
            t
        },
        _ => t,
    }
}

/// What an operand is reported as, where one was due and something else came.
pub open spec fn operand_text() -> Seq<char> {
    seq!['o', 'p', 'e', 'r', 'a', 'n', 'd']
}

/// What a negation needs after it: a `-` where an operand is due negates a number only.
pub open spec fn number_text() -> Seq<char> {
    seq!['n', 'u', 'm', 'b', 'e', 'r']
}

/// The state after one token.
pub open spec fn shunt_step(st: ShuntState, t: TokenView) -> Result<ShuntState, LocatedView> {
    match t.kind {
        KindView::Operator(op) => {
            if op == Operator::LeftParen {
                if st.last_was_operand {
                    Err(found_at(ErrorView::MissingOperator, t.position))
                } else if st.negative {
                    Err(
                        found_at(
                            ErrorView::Expected { expected: number_text(), found: seq!['('] },
                            t.position,
                        ),
                    )
                } else {
                    Ok(
                        ShuntState {
                            output: st.output,
                            stack: st.stack.push(op),
                            negative: false,
                            last_was_operand: false,
                            parens: st.parens.push(t.position),
                        },
                    )
                }
            } else if op == Operator::RightParen {
                if !st.last_was_operand {
                    Err(
                        found_at(
                            ErrorView::Expected { expected: operand_text(), found: seq![')'] },
                            t.position,
                        ),
                    )
                } else {
                    match pop_to_paren(st.output, st.stack) {
                        None => Err(
                            found_at(
                                ErrorView::MismatchedParentheses { found: ')', missing: '(' },
                                t.position,
                            ),
                        ),
                        Some((out, stack)) => Ok(
                            ShuntState {
                                output: out,
                                stack,
                                negative: false,
                                last_was_operand: true,
                                parens: if st.parens.len() > 0 {
                                    st.parens.drop_last()
                                } else {
                                    st.parens
                                },
                            },
                        ),
                    }
                }
            } else if op == Operator::Assign {
                Err(found_at(ErrorView::InvalidOperator { op: seq![op.spec_symbol()] }, t.position))
            } else if !st.last_was_operand {
                if op == Operator::Sub {
                    Ok(ShuntState { negative: true, ..st })
                } else {
                    Err(found_at(ErrorView::InvalidOperator { op: seq![op.spec_symbol()] }, t.position))
                }
            } else {
                let (out, stack) = pop_higher(st.output, st.stack, op);
                Ok(
                    ShuntState {
                        output: out,
                        stack: stack.push(op),
                        negative: false,
                        last_was_operand: false,
                        parens: st.parens,
                    },
                )
            }
        },
        _ => {
            if st.last_was_operand {
                Err(found_at(ErrorView::TwoOperandsInARow, t.position))
            } else {
                Ok(
                    ShuntState {
                        output: st.output.push(ItemView::Operand(negated(t, st.negative))),
                        stack: st.stack,
                        negative: false,
                        last_was_operand: true,
                        parens: st.parens,
                    },
                )
            }
        },
    }
}

/// The state after all of `ts`, or the first error.
pub open spec fn shunt_run(st: ShuntState, ts: Seq<TokenView>) -> Result<ShuntState, LocatedView>
    decreases ts.len(),
{
    if ts.len() == 0 {
        Ok(st)
    } else {
        match shunt_step(st, ts[0]) {
            Ok(next) => shunt_run(next, ts.drop_first()),
            Err(e) => Err(e),
        }
    }
}

/// The state before any token.
pub open spec fn initial() -> ShuntState {
    ShuntState {
        output: Seq::empty(),
        stack: Seq::empty(),
        negative: false,
        last_was_operand: false,
        parens: Seq::empty(),
    }
}

/// The postfix form of a token sequence. An empty sequence is rejected, and so is a leading
/// operator other than `-` (which negates) and `(`. A `-` where an operand is due negates the
/// next number, and a `(` right after it is rejected; any other operator where an operand is
/// due is rejected. An expression that ends where an
/// operand is due is cut short, reported at its last token.
pub open spec fn postfix_spec(ts: Seq<TokenView>) -> Result<Seq<ItemView>, LocatedView> {
    if ts.len() == 0 {
        Err(LocatedView { error: ErrorView::EmptyExpression, position: None })
    } else {
        match ts[0].kind {
            KindView::Operator(op) if op != Operator::Sub && op != Operator::LeftParen => Err(
                found_at(
                    ErrorView::InvalidLeadingOperator { op: seq![op.spec_symbol()] },
                    ts[0].position,
                ),
            ),
            _ => match shunt_run(initial(), ts) {
                Ok(st) => if st.last_was_operand {
                    pop_all(st.output, st.stack, st.parens)
                } else {
                    Err(found_at(ErrorView::UnexpectedEOI, ts.last().position))
                },
                Err(e) => Err(e),
            },
        }
    }
}

fn binds(top: Operator, op: Operator) -> (r: bool)
    ensures
        r == binds_at_least(top, op),
{
    match (top.precedence(), op.precedence()) {
        (Some(a), Some(b)) => a >= b,
        _ => false,
    }
}

/// The transform's running state.
struct Shunter {
    output: ShuntedStack,
    stack: Vec<Operator>,
    negative: bool,
    last_was_operand: bool,
    parens: Vec<Position>,
}

impl Shunter {
    spec fn state(&self) -> ShuntState {
        ShuntState {
            output: self.output@,
            stack: self.stack@,
            negative: self.negative,
            last_was_operand: self.last_was_operand,
            parens: self.parens@,
        }
    }

    fn pop_higher(&mut self, op: Operator)
        ensures
            (final(self).output@, final(self).stack@) == pop_higher(
                old(self).output@,
                old(self).stack@,
                op,
            ),
            final(self).negative == old(self).negative,
            final(self).last_was_operand == old(self).last_was_operand,
            final(self).parens@ == old(self).parens@,
    {
        loop
            invariant
                pop_higher(old(self).output@, old(self).stack@, op) == pop_higher(
                    self.output@,
                    self.stack@,
                    op,
                ),
                self.negative == old(self).negative,
                self.last_was_operand == old(self).last_was_operand,
                self.parens@ == old(self).parens@,
            ensures
                pop_higher(old(self).output@, old(self).stack@, op) == (self.output@, self.stack@),
            decreases self.stack@.len(),
        {
            let n = self.stack.len();
            if n == 0 {
                break ;
            }
            let top = self.stack[n - 1];
            if top == Operator::LeftParen || !binds(top, op) {
                break ;
            }
            let ghost st = self.stack@;
            self.stack.pop();
            assert(self.stack@ =~= st.drop_last());
            self.output.push(ShuntedStackItem::new_operator(top));
        }
    }

    /// Pops down to the nearest `(`; false if there is none.
    fn pop_to_paren(&mut self) -> (found: bool)
        ensures
            match pop_to_paren(old(self).output@, old(self).stack@) {
                Some((out, stack)) => found && final(self).output@ == out && final(self).stack@
                    == stack,
                None => !found,
            },
            final(self).negative == old(self).negative,
            final(self).last_was_operand == old(self).last_was_operand,
            final(self).parens@ == old(self).parens@,
    {
        loop
            invariant
                pop_to_paren(old(self).output@, old(self).stack@) == pop_to_paren(
                    self.output@,
                    self.stack@,
                ),
                self.negative == old(self).negative,
                self.last_was_operand == old(self).last_was_operand,
                self.parens@ == old(self).parens@,
            decreases self.stack@.len(),
        {
            let ghost st = self.stack@;
            match self.stack.pop() {
                None => {
                    return false;
                },
                Some(top) => {
                    assert(self.stack@ =~= st.drop_last());
                    if top == Operator::LeftParen {
                        return true;
                    }
                    self.output.push(ShuntedStackItem::new_operator(top));
                },
            }
        }
    }

    fn step(&mut self, t: Token) -> (r: Result<(), Located>)
        ensures
            match shunt_step(old(self).state(), t@) {
                Ok(st) => r is Ok && final(self).state() == st,
                Err(e) => r is Err && r->Err_0@ == e,
            },
    {
        let position = t.position;
        match t.kind {
            TokenKind::Operator(op) => {
                if op == Operator::LeftParen {
                    if self.last_was_operand {
                        return Err(Located::at(Error::MissingOperator, position));
                    }
                    if self.negative {
                        let expected: Vec<char> = vec!['n', 'u', 'm', 'b', 'e', 'r'];
                        let found: Vec<char> = vec!['('];
                        assert(expected@ =~= number_text());
                        assert(found@ =~= seq!['(']);
                        return Err(
                            Located::at(
                                Error::Expected {
                                    expected: crate::text::string_of(&expected),
                                    found: crate::text::string_of(&found),
                                },
                                position,
                            ),
                        );
                    }
                    self.stack.push(op);
                    self.parens.push(position);
                    self.negative = false;
                    self.last_was_operand = false;
                    Ok(())
                } else if op == Operator::RightParen {
                    if !self.last_was_operand {
                        let expected: Vec<char> = vec!['o', 'p', 'e', 'r', 'a', 'n', 'd'];
                        let found: Vec<char> = vec![')'];
                        assert(expected@ =~= operand_text());
                        assert(found@ =~= seq![')']);
                        return Err(
                            Located::at(
                                Error::Expected {
                                    expected: crate::text::string_of(&expected),
                                    found: crate::text::string_of(&found),
                                },
                                position,
                            ),
                        );
                    }
                    if !self.pop_to_paren() {
                        return Err(
                            Located::at(
                                Error::MismatchedParentheses { found: ')', missing: '(' },
                                position,
                            ),
                        );
                    }
                    let ghost before = self.parens@;
                    if self.parens.len() > 0 {
                        self.parens.pop();
                        assert(self.parens@ =~= before.drop_last());
                    }
                    self.negative = false;
                    self.last_was_operand = true;
                    Ok(())
                } else if op == Operator::Assign {
                    Err(Located::at(Error::InvalidOperator { op: op.to_text() }, position))
                } else if !self.last_was_operand {
                    if op == Operator::Sub {
                        self.negative = true;
                        Ok(())
                    } else {
                        Err(Located::at(Error::InvalidOperator { op: op.to_text() }, position))
                    }
                } else {
                    self.pop_higher(op);
                    self.stack.push(op);
                    self.negative = false;
                    self.last_was_operand = false;
                    Ok(())
                }
            },
            kind => {
                if self.last_was_operand {
                    return Err(Located::at(Error::TwoOperandsInARow, position));
                }
                let operand = match kind {
                    TokenKind::Number(n) => {
                        let negative = if self.negative {
                            !n.negative
                        } else {
                            n.negative
                        };
                        Token {
                            kind: TokenKind::Number(Number { negative, text: n.text }),
                            position,
                        }
                    },
                    other => Token { kind: other, position },
                };
                self.output.push(ShuntedStackItem::new_operand(operand));
                self.negative = false;
                self.last_was_operand = true;
                Ok(())
            },
        }
    }

    /// Moves what is left on the stack to the output.
    fn finish(self) -> (r: Result<ShuntedStack, Located>)
        ensures
            match pop_all(self.output@, self.stack@, self.parens@) {
                Ok(items) => r is Ok && r->Ok_0@ == items,
                Err(e) => r is Err && r->Err_0@ == e,
            },
    {
        let ghost o0 = self.output@;
        let ghost s0 = self.stack@;
        let ghost open0 = self.parens@;
        let mut output = self.output;
        let mut stack = self.stack;
        let parens = self.parens;
        loop
            invariant
                o0 == self.output@,
                s0 == self.stack@,
                open0 == self.parens@,
                open0 == parens@,
                pop_all(o0, s0, open0) == pop_all(output@, stack@, open0),
            decreases stack@.len(),
        {
            let ghost st = stack@;
            match stack.pop() {
                None => {
                    return Ok(output);
                },
                Some(top) => {
                    assert(stack@ =~= st.drop_last());
                    if top == Operator::LeftParen {
                        let n = parens.len();
                        let position = if n > 0 {
                            Some(parens[n - 1])
                        } else {
                            None
                        };
                        return Err(
                            Located {
                                error: Error::MismatchedParentheses { found: '(', missing: ')' },
                                position,
                            },
                        );
                    }
                    output.push(ShuntedStackItem::new_operator(top));
                },
            }
        }
    }
}


/// The views of `rev` read from its last item to its first.
pub open spec fn rev_views(rev: Seq<Token>) -> Seq<TokenView> {
    Seq::new(rev.len(), |k: int| rev[rev.len() - 1 - k]@)
}

/// The tokens in reverse order, so that popping hands them out from the first.
fn reversed(tokens: Vec<Token>) -> (rev: Vec<Token>)
    ensures
        rev_views(rev@) == views(tokens@),
{
    let ghost ts = views(tokens@);
    let ghost n = ts.len() as int;
    let mut tokens = tokens;
    let mut rev: Vec<Token> = Vec::new();
    while tokens.len() > 0
        invariant
            n == ts.len(),
            tokens@.len() + rev@.len() == n,
            forall|k: int| 0 <= k < tokens@.len() ==> #[trigger] tokens@[k]@ == ts[k],
            forall|k: int| 0 <= k < rev@.len() ==> #[trigger] rev@[k]@ == ts[n - 1 - k],
        decreases tokens@.len(),
    {
        let t = tokens.pop().unwrap();
        rev.push(t);
    }
    assert(rev_views(rev@) =~= ts);
    rev
}

impl Shunter {
    /// Feeds every token of `rev`, last item first.
    fn run(&mut self, rev: Vec<Token>) -> (r: Result<(), Located>)
        ensures
            match shunt_run(old(self).state(), rev_views(rev@)) {
                Ok(st) => r is Ok && final(self).state() == st,
                Err(e) => r is Err && r->Err_0@ == e,
            },
    {
        let ghost goal = shunt_run(self.state(), rev_views(rev@));
        let ghost rev0 = rev@;
        let mut pending = rev;
        while pending.len() > 0
            invariant
                rev0 == rev@,
                goal == shunt_run(old(self).state(), rev_views(rev0)),
                goal == shunt_run(self.state(), rev_views(pending@)),
            ensures
                goal == shunt_run(self.state(), rev_views(pending@)),
                pending@.len() == 0,
            decreases pending@.len(),
        {
            let ghost before = pending@;
            let ghost pre = self.state();
            let t = pending.pop().unwrap();
            assert(rev_views(pending@) =~= rev_views(before).drop_first());
            assert(rev_views(before)[0] == t@);
            match self.step(t) {
                Ok(()) => {},
                Err(e) => {
                    assert(rev_views(before).len() > 0);
                    assert(goal == shunt_run(pre, rev_views(before)));
                    assert(shunt_run(pre, rev_views(before)) == Err::<ShuntState, LocatedView>(e@));
                    return Err(e);
                },
            }
        }
        assert(rev_views(pending@) =~= Seq::<TokenView>::empty());
        Ok(())
    }
}

/// Arranges a token sequence in postfix order (shunting yard, all operators left-associative).
pub fn shunting_yard(tokens: Vec<Token>) -> (r: Result<ShuntedStack, Located>)
    ensures
        match postfix_spec(views(tokens@)) {
            Ok(items) => r is Ok && r->Ok_0@ == items,
            Err(e) => r is Err && r->Err_0@ == e,
        },
        r is Ok ==> well_formed(r->Ok_0@),
{
    let ghost ts = views(tokens@);
    proof {
        postfix_well_formed(ts);
    }
    if tokens.len() == 0 {
        return Err(Located { error: Error::EmptyExpression, position: None });
    }
    let first = tokens[0].position;
    let last = tokens[tokens.len() - 1].position;
    match &tokens[0].kind {
        TokenKind::Operator(op) => {
            let op = *op;
            if op != Operator::Sub && op != Operator::LeftParen {
                return Err(Located::at(Error::InvalidLeadingOperator { op: op.to_text() }, first));
            }
        },
        _ => {},
    }
    let rev = reversed(tokens);
    let mut sh = Shunter {
        output: ShuntedStack::new(),
        stack: Vec::new(),
        negative: false,
        last_was_operand: false,
        parens: Vec::new(),
    };
    assert(sh.state() =~= initial());
    match sh.run(rev) {
        Ok(()) => {
            if !sh.last_was_operand {
                return Err(Located::at(Error::UnexpectedEOI, last));
            }
            sh.finish()
        },
        Err(e) => Err(e),
    }
}

/// Every operator among `items` combines two operands: no parenthesis and no `=`.
pub open spec fn operators_apply(items: Seq<ItemView>) -> bool {
    forall|i: int| 0 <= i < items.len() && (#[trigger] items[i]) is Operator ==> items[i]->Operator_0.spec_can_apply()
}

/// How many values a walk over `items` leaves on its stack, or `None` if an operator finds
/// fewer than two.
pub open spec fn depth(items: Seq<ItemView>) -> Option<int>
    decreases items.len(),
{
    if items.len() == 0 {
        Some(0)
    } else {
        match depth(items.drop_last()) {
            Some(d) => match items.last() {
                ItemView::Operand(_) => Some(d + 1),
                ItemView::Operator(_) => if d >= 2 {
                    Some(d - 1)
                } else {
                    None
                },
            },
            None => None,
        }
    }
}

/// Postfix that evaluates: every operator finds two operands, and one value is left.
pub open spec fn well_formed(items: Seq<ItemView>) -> bool {
    depth(items) == Some(1int)
}

spec fn stack_ok(stack: Seq<Operator>) -> bool {
    forall|i: int| 0 <= i < stack.len() ==> (#[trigger] stack[i]) == Operator::LeftParen || stack[i].spec_can_apply()
}

/// How many operators (no `(`) the stack holds.
spec fn binops(stack: Seq<Operator>) -> nat
    decreases stack.len(),
{
    if stack.len() == 0 {
        0
    } else {
        binops(stack.drop_last()) + if stack.last() != Operator::LeftParen {
            1nat
        } else {
            0nat
        }
    }
}

spec fn state_ok(st: ShuntState) -> bool {
    &&& operators_apply(st.output)
    &&& stack_ok(st.stack)
    &&& depth(st.output) == Some(
        binops(st.stack) + if st.last_was_operand {
            1int
        } else {
            0int
        },
    )
}

proof fn lemma_moved_operator(output: Seq<ItemView>, stack: Seq<Operator>)
    requires
        operators_apply(output),
        stack_ok(stack),
        depth(output) == Some(binops(stack) + 1int),
        stack.len() > 0,
        stack.last() != Operator::LeftParen,
    ensures
        operators_apply(output.push(ItemView::Operator(stack.last()))),
        stack_ok(stack.drop_last()),
        depth(output.push(ItemView::Operator(stack.last()))) == Some(binops(stack.drop_last()) + 1int),
{
    let o = output.push(ItemView::Operator(stack.last()));
    assert(stack.last() == stack[stack.len() - 1]);
    assert(o.drop_last() =~= output);
    assert forall|i: int| 0 <= i < o.len() && (#[trigger] o[i]) is Operator implies o[i]->Operator_0.spec_can_apply() by {
        if i < output.len() {
            assert(o[i] == output[i]);
        }
    }
    assert forall|i: int| 0 <= i < stack.drop_last().len() implies (#[trigger] stack.drop_last()[i]) == Operator::LeftParen
        || stack.drop_last()[i].spec_can_apply() by {
        assert(stack.drop_last()[i] == stack[i]);
    }
}

proof fn lemma_pushed(st: ShuntState, op: Operator)
    requires
        stack_ok(st.stack),
        op == Operator::LeftParen || op.spec_can_apply(),
    ensures
        stack_ok(st.stack.push(op)),
        binops(st.stack.push(op)) == binops(st.stack) + if op != Operator::LeftParen {
            1nat
        } else {
            0nat
        },
{
    let p = st.stack.push(op);
    assert(p.drop_last() =~= st.stack);
    assert forall|i: int| 0 <= i < p.len() implies (#[trigger] p[i]) == Operator::LeftParen
        || p[i].spec_can_apply() by {
        if i < st.stack.len() {
            assert(p[i] == st.stack[i]);
        }
    }
}

proof fn lemma_pop_higher_ok(output: Seq<ItemView>, stack: Seq<Operator>, op: Operator)
    requires
        operators_apply(output),
        stack_ok(stack),
        depth(output) == Some(binops(stack) + 1int),
    ensures
        operators_apply(pop_higher(output, stack, op).0),
        stack_ok(pop_higher(output, stack, op).1),
        depth(pop_higher(output, stack, op).0) == Some(binops(pop_higher(output, stack, op).1) + 1int),
    decreases stack.len(),
{
    if stack.len() > 0 && stack.last() != Operator::LeftParen && binds_at_least(stack.last(), op) {
        lemma_moved_operator(output, stack);
        lemma_pop_higher_ok(output.push(ItemView::Operator(stack.last())), stack.drop_last(), op);
    }
}

proof fn lemma_pop_to_paren_ok(output: Seq<ItemView>, stack: Seq<Operator>)
    requires
        operators_apply(output),
        stack_ok(stack),
        depth(output) == Some(binops(stack) + 1int),
    ensures
        match pop_to_paren(output, stack) {
            Some((o, s)) => operators_apply(o) && stack_ok(s) && depth(o) == Some(binops(s) + 1int),
            None => true,
        },
    decreases stack.len(),
{
    if stack.len() > 0 {
        if stack.last() == Operator::LeftParen {
            assert forall|i: int| 0 <= i < stack.drop_last().len() implies (#[trigger] stack.drop_last()[i])
                == Operator::LeftParen || stack.drop_last()[i].spec_can_apply() by {
                assert(stack.drop_last()[i] == stack[i]);
            }
        } else {
            lemma_moved_operator(output, stack);
            lemma_pop_to_paren_ok(output.push(ItemView::Operator(stack.last())), stack.drop_last());
        }
    }
}

proof fn lemma_pop_all_ok(output: Seq<ItemView>, stack: Seq<Operator>, parens: Seq<Position>)
    requires
        operators_apply(output),
        stack_ok(stack),
        depth(output) == Some(binops(stack) + 1int),
    ensures
        pop_all(output, stack, parens) is Ok ==> operators_apply(pop_all(output, stack, parens)->Ok_0)
            && well_formed(pop_all(output, stack, parens)->Ok_0),
    decreases stack.len(),
{
    if stack.len() > 0 && stack.last() != Operator::LeftParen {
        lemma_moved_operator(output, stack);
        lemma_pop_all_ok(output.push(ItemView::Operator(stack.last())), stack.drop_last(), parens);
    }
}

proof fn lemma_step_ok(st: ShuntState, t: TokenView)
    requires
        state_ok(st),
    ensures
        shunt_step(st, t) is Ok ==> state_ok(shunt_step(st, t)->Ok_0),
{
    match t.kind {
        KindView::Operator(op) => {
            if op == Operator::LeftParen {
                lemma_pushed(st, op);
            } else if op == Operator::RightParen {
                if st.last_was_operand {
                    lemma_pop_to_paren_ok(st.output, st.stack);
                }
            } else if op != Operator::Assign && st.last_was_operand {
                lemma_pop_higher_ok(st.output, st.stack, op);
                let (out, stack) = pop_higher(st.output, st.stack, op);
                lemma_pushed(ShuntState { output: out, stack, ..st }, op);
            }
        },
        _ => {
            if shunt_step(st, t) is Ok {
                let next = shunt_step(st, t)->Ok_0;
                assert(next.output.drop_last() =~= st.output);
                assert forall|i: int| 0 <= i < next.output.len() && (#[trigger] next.output[i]) is Operator
                    implies next.output[i]->Operator_0.spec_can_apply() by {
                    if i < st.output.len() {
                        assert(next.output[i] == st.output[i]);
                    }
                }
            }
        },
    }
}

proof fn lemma_run_ok(st: ShuntState, ts: Seq<TokenView>)
    requires
        state_ok(st),
    ensures
        shunt_run(st, ts) is Ok ==> state_ok(shunt_run(st, ts)->Ok_0),
    decreases ts.len(),
{
    if ts.len() > 0 {
        lemma_step_ok(st, ts[0]);
        if shunt_step(st, ts[0]) is Ok {
            lemma_run_ok(shunt_step(st, ts[0])->Ok_0, ts.drop_first());
        }
    }
}

proof fn lemma_postfix_ok(ts: Seq<TokenView>)
    ensures
        postfix_spec(ts) is Ok ==> operators_apply(postfix_spec(ts)->Ok_0) && well_formed(
            postfix_spec(ts)->Ok_0,
        ),
{
    lemma_run_ok(initial(), ts);
    let run = shunt_run(initial(), ts);
    if run is Ok && run->Ok_0.last_was_operand {
        lemma_pop_all_ok(run->Ok_0.output, run->Ok_0.stack, run->Ok_0.parens);
    }
}

/// A successful arrangement holds no parenthesis and no `=`: every operator in it combines
/// two operands.
pub proof fn postfix_operators_apply(ts: Seq<TokenView>)
    ensures
        postfix_spec(ts) is Ok ==> operators_apply(postfix_spec(ts)->Ok_0),
{
    lemma_postfix_ok(ts);
}

/// A successful arrangement is postfix that evaluates: walking it, every operator finds two
/// operands, and exactly one value is left at the end.
pub proof fn postfix_well_formed(ts: Seq<TokenView>)
    ensures
        postfix_spec(ts) is Ok ==> well_formed(postfix_spec(ts)->Ok_0),
{
    lemma_postfix_ok(ts);
}

} // verus!
