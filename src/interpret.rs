//! Evaluation bookkeeping, generic in the number type: name tables, identifier lookup, the
//! classification of call arguments and the walk over a postfix sequence with its operand stack.
use vstd::prelude::*;
use crate::error::{found_at, Error, ErrorView, Located, LocatedView};
use crate::lex::{KindView, Number, Token, TokenKind, TokenView};
use crate::input_reader::Position;
use crate::operator::Operator;
use crate::postfix::{ItemView, ShuntedStack, ShuntedStackItem};

verus! {

/// The value bound to `name` in `entries`: the first entry with that name.
pub open spec fn lookup<V>(entries: Seq<(Seq<char>, V)>, name: Seq<char>) -> Option<V>
    decreases entries.len(),
{
    if entries.len() == 0 {
        None
    } else if entries[0].0 == name {
        Some(entries[0].1)
    } else {
        lookup(entries.drop_first(), name)
    }
}

/// A table from names to values. Looking a name up gives its first entry, and registering
/// a name that is there replaces that entry's value.
pub struct Bindings<V> {
    entries: Vec<(String, V)>,
}

/// Variable bindings: names to numbers.
pub type Definitions<V> = Bindings<V>;

/// Registered functions: names to callables.
pub type Functions<F> = Bindings<F>;

impl<V> Bindings<V> {
    pub closed spec fn pairs(&self) -> Seq<(Seq<char>, V)> {
        Seq::new(self.entries@.len(), |i: int| (self.entries@[i].0@, self.entries@[i].1))
    }

    /// The value bound to `name`, if any.
    pub open spec fn value_of(&self, name: Seq<char>) -> Option<V> {
        lookup(self.pairs(), name)
    }

    /// An empty table.
    pub fn new() -> (r: Bindings<V>)
        ensures
            forall|k: Seq<char>| r.value_of(k) is None,
    {
        let r = Bindings { entries: Vec::new() };
        assert(r.pairs() =~= Seq::<(Seq<char>, V)>::empty());
        r
    }

    /// Where `name` is bound.
    fn find(&self, name: &String) -> (r: Option<usize>)
        ensures
            match r {
                Some(i) => i < self.pairs().len() && self.pairs()[i as int].0 == name@
                    && self.value_of(name@) == Some(self.pairs()[i as int].1)
                    && forall|j: int| 0 <= j < i ==> self.pairs()[j].0 != name@,
                None => self.value_of(name@) is None,
            },
    {
        let ghost ps = self.pairs();
        let mut i: usize = 0;
        assert(ps.subrange(0, ps.len() as int) =~= ps);
        while i < self.entries.len()
            invariant
                ps == self.pairs(),
                i <= ps.len(),
                lookup(ps, name@) == lookup(ps.subrange(i as int, ps.len() as int), name@),
                forall|j: int| 0 <= j < i ==> ps[j].0 != name@,
            decreases ps.len() - i,
        {
            assert(ps.subrange(i as int, ps.len() as int).drop_first() =~= ps.subrange(
                i + 1,
                ps.len() as int,
            ));
            if self.entries[i].0 == *name {
                return Some(i);
            }
            i = i + 1;
        }
        None
    }

    /// Binds `name` to `value`, in place of what it was bound to.
    pub fn register(&mut self, name: String, value: V)
        ensures
            final(self).value_of(name@) == Some(value),
            forall|k: Seq<char>| k != name@ ==> final(self).value_of(k) == old(self).value_of(k),
    {
        let ghost ps = self.pairs();
        match self.find(&name) {
            Some(i) => {
                self.entries.set(i, (name, value));
                proof {
                    let qs = self.pairs();
                    assert(qs =~= ps.update(i as int, (name@, value)));
                    assert forall|k: Seq<char>| k != name@ implies lookup(qs, k) == lookup(ps, k) by {
                        lemma_lookup_update(ps, i as int, name@, value, k);
                    }
                    lemma_lookup_update(ps, i as int, name@, value, name@);
                }
            },
            None => {
                self.entries.push((name, value));
                proof {
                    let qs = self.pairs();
                    assert(qs =~= ps.push((name@, value)));
                    assert forall|k: Seq<char>| k != name@ implies lookup(qs, k) == lookup(ps, k) by {
                        lemma_lookup_push(ps, name@, value, k);
                    }
                    lemma_lookup_push(ps, name@, value, name@);
                }
            },
        }
    }

    /// Whether `ident` is bound.
    pub fn contains(&self, ident: &str) -> (r: bool)
        ensures
            r == (self.value_of(ident@) is Some),
    {
        let name = ident.to_owned();
        self.find(&name).is_some()
    }

    /// The value bound to `ident`, if any.
    pub fn get(&self, ident: &str) -> (r: Option<&V>)
        ensures
            match self.value_of(ident@) {
                Some(v) => r is Some && *r->0 == v,
                None => r is None,
            },
    {
        let name = ident.to_owned();
        match self.find(&name) {
            Some(i) => Some(&self.entries[i].1),
            None => None,
        }
    }
}

proof fn lemma_lookup_update<V>(ps: Seq<(Seq<char>, V)>, i: int, name: Seq<char>, value: V, k: Seq<char>)
    requires
        0 <= i < ps.len(),
        ps[i].0 == name,
        forall|j: int| 0 <= j < i ==> ps[j].0 != name,
    ensures
        k == name ==> lookup(ps.update(i, (name, value)), k) == Some(value),
        k != name ==> lookup(ps.update(i, (name, value)), k) == lookup(ps, k),
    decreases ps.len(),
{
    let qs = ps.update(i, (name, value));
    if i > 0 {
        assert(qs.drop_first() =~= ps.drop_first().update(i - 1, (name, value)));
        lemma_lookup_update(ps.drop_first(), i - 1, name, value, k);
    } else if k != name {
        assert(qs.drop_first() =~= ps.drop_first());
    }
}

proof fn lemma_lookup_push<V>(ps: Seq<(Seq<char>, V)>, name: Seq<char>, value: V, k: Seq<char>)
    requires
        lookup(ps, name) is None,
    ensures
        k == name ==> lookup(ps.push((name, value)), k) == Some(value),
        k != name ==> lookup(ps.push((name, value)), k) == lookup(ps, k),
    decreases ps.len(),
{
    let qs = ps.push((name, value));
    if ps.len() > 0 {
        assert(qs.drop_first() =~= ps.drop_first().push((name, value)));
        assert(qs[0] == ps[0]);
        lemma_lookup_push(ps.drop_first(), name, value, k);
    } else {
        assert(qs.drop_first() =~= Seq::<(Seq<char>, V)>::empty());
        assert(lookup(qs.drop_first(), k) is None);
    }
}


/// The operand stack of a postfix evaluation. Operands are pushed as they come; an operator
/// takes the two on top (the right operand on top) and its result is pushed in their place.
pub struct Evaluation<V> {
    stack: Vec<V>,
    next: usize,
}

/// What the walk over a postfix sequence asks for next.
pub enum Step<V> {
    /// The operand at this index needs its value pushed.
    Operand(usize),
    /// The operator needs to be applied to these operands, left then right, and the result
    /// pushed.
    Apply(Operator, V, V),
    /// The walk is over; this is the value of the expression.
    Done(V),
}

impl<V> Evaluation<V> {
    pub closed spec fn operands(&self) -> Seq<V> {
        self.stack@
    }

    /// How many items of the sequence the walk has passed.
    pub closed spec fn cursor(&self) -> nat {
        self.next as nat
    }

    pub fn new() -> (r: Evaluation<V>)
        ensures
            r.operands() == Seq::<V>::empty(),
            r.cursor() == 0,
    {
        Evaluation { stack: Vec::new(), next: 0 }
    }

    pub fn push(&mut self, value: V)
        ensures
            final(self).operands() == old(self).operands().push(value),
            final(self).cursor() == old(self).cursor(),
    {
        self.stack.push(value);
    }

    /// The operands of `op`, left then right. `op` must combine two operands, and two must be
    /// there.
    pub fn take_operands(&mut self, op: Operator) -> (r: Result<(V, V), Error>)
        ensures
            final(self).cursor() == old(self).cursor(),
            !op.spec_can_apply() ==> {
                &&& r is Err
                &&& r->Err_0@ == ErrorView::InvalidOperator { op: seq![op.spec_symbol()] }
                &&& final(self).operands() == old(self).operands()
            },
            op.spec_can_apply() && old(self).operands().len() < 2 ==> {
                &&& r is Err
                &&& r->Err_0@ is InvalidExpression
                &&& final(self).operands() == old(self).operands()
            },
            op.spec_can_apply() && old(self).operands().len() >= 2 ==> {
                let s = old(self).operands();
                &&& r == Ok::<(V, V), Error>((s[s.len() - 2], s[s.len() - 1]))
                &&& final(self).operands() == s.subrange(0, s.len() - 2)
            },
    {
        if !op.can_apply() {
            return Err(Error::InvalidOperator { op: op.to_text() });
        }
        if self.stack.len() < 2 {
            return Err(Error::InvalidExpression { reason: "an operator lacks an operand".to_owned() });
        }
        let ghost s = self.stack@;
        let right = self.stack.pop().unwrap();
        let left = self.stack.pop().unwrap();
        assert(self.stack@ =~= s.subrange(0, s.len() - 2));
        Ok((left, right))
    }

    /// The value of the expression: the one operand left.
    pub fn finish(self) -> (r: Result<V, Error>)
        ensures
            self.operands().len() == 1 ==> r == Ok::<V, Error>(self.operands()[0]),
            self.operands().len() != 1 ==> r is Err && r->Err_0@ is InvalidExpression,
    {
        let mut stack = self.stack;
        if stack.len() != 1 {
            return Err(Error::InvalidExpression { reason: "the operands do not reduce to one value".to_owned() });
        }
        Ok(stack.pop().unwrap())
    }
}

impl<V: Copy> Evaluation<V> {
    /// Moves the walk over `items` on by one item. An operand asks for its value; an operator
    /// takes its two operands from the stack and asks for its result; past the last item the
    /// one operand left is the value.
    pub fn step(&mut self, items: &ShuntedStack) -> (r: Result<Step<V>, Error>)
        ensures
            old(self).cursor() >= items@.len() ==> {
                &&& *final(self) == *old(self)
                &&& old(self).operands().len() == 1 ==> r == Ok::<Step<V>, Error>(
                    Step::Done(old(self).operands()[0]),
                )
                &&& old(self).operands().len() != 1 ==> r is Err && r->Err_0@ is InvalidExpression
            },
            old(self).cursor() < items@.len() ==> final(self).cursor() == old(self).cursor() + 1,
            old(self).cursor() < items@.len() && items@[old(self).cursor() as int] is Operand ==> {
                &&& r == Ok::<Step<V>, Error>(Step::Operand(old(self).cursor() as usize))
                &&& final(self).operands() == old(self).operands()
            },
            old(self).cursor() < items@.len() && items@[old(self).cursor() as int] is Operator ==> {
                let op = items@[old(self).cursor() as int]->Operator_0;
                let s = old(self).operands();
                &&& !op.spec_can_apply() ==> r is Err && r->Err_0@ == ErrorView::InvalidOperator {
                    op: seq![op.spec_symbol()],
                }
                &&& op.spec_can_apply() && s.len() < 2 ==> r is Err && r->Err_0@ is InvalidExpression
                &&& op.spec_can_apply() && s.len() >= 2 ==> {
                    &&& r == Ok::<Step<V>, Error>(Step::Apply(op, s[s.len() - 2], s[s.len() - 1]))
                    &&& final(self).operands() == s.subrange(0, s.len() - 2)
                }
            },
    {
        if self.next >= items.len() {
            if self.stack.len() != 1 {
                return Err(Error::InvalidExpression { reason: "the operands do not reduce to one value".to_owned() });
            }
            return Ok(Step::Done(self.stack[0]));
        }
        let i = self.next;
        self.next = self.next + 1;
        match items.peek_at(i) {
            Some(ShuntedStackItem::Operand(_)) => Ok(Step::Operand(i)),
            Some(ShuntedStackItem::Operator(op)) => {
                let op = *op;
                match self.take_operands(op) {
                    Ok((left, right)) => Ok(Step::Apply(op, left, right)),
                    Err(e) => Err(e),
                }
            },
            None => Err(Error::InvalidExpression { reason: "the walk ran past the end".to_owned() }),
        }
    }
}

/// The value `name` is bound to; with no table, nothing is bound.
pub open spec fn bound<V>(definitions: Option<Definitions<V>>, name: Seq<char>) -> Option<V> {
    match definitions {
        Some(d) => d.value_of(name),
        None => None,
    }
}

/// The first identifier among the operands of `items` that is not bound.
pub open spec fn first_undefined<V>(items: Seq<ItemView>, definitions: Option<Definitions<V>>) -> Option<
    TokenView,
>
    decreases items.len(),
{
    if items.len() == 0 {
        None
    } else {
        match items[0] {
            ItemView::Operand(t) => match t.kind {
                KindView::Identifier(name) => if bound(definitions, name) is None {
                    Some(t)
                } else {
                    first_undefined(items.drop_first(), definitions)
                },
                _ => first_undefined(items.drop_first(), definitions),
            },
            _ => first_undefined(items.drop_first(), definitions),
        }
    }
}

/// The value of an identifier operand; nothing for any other item.
pub open spec fn bound_value<V>(item: ItemView, definitions: Option<Definitions<V>>) -> Option<V> {
    match item {
        ItemView::Operand(t) => match t.kind {
            KindView::Identifier(name) => bound(definitions, name),
            _ => None,
        },
        _ => None,
    }
}

/// Looks up every identifier operand of `items`, in order: the values by position (nothing
/// where the item is no identifier), or the first identifier that is not bound. With no
/// table, every identifier is unbound.
pub fn resolve_identifiers<V: Copy>(items: &ShuntedStack, definitions: Option<&Definitions<V>>) -> (r:
    Result<Vec<Option<V>>, Located>)
    ensures
        match first_undefined(
            items@,
            match definitions {
                Some(d) => Some(*d),
                None => None,
            },
        ) {
            Some(t) => r is Err && r->Err_0@ == found_at(
                ErrorView::UndefinedVariable { name: t.kind->Identifier_0 },
                t.position,
            ),
            None => r is Ok && r->Ok_0@.len() == items@.len() && forall|i: int|
                0 <= i < items@.len() ==> r->Ok_0@[i] == bound_value(
                    #[trigger] items@[i],
                    match definitions {
                        Some(d) => Some(*d),
                        None => None,
                    },
                ),
        },
{
    let ghost all = items@;
    let ghost ds = match definitions {
        Some(d) => Some(*d),
        None => None,
    };
    let mut values: Vec<Option<V>> = Vec::new();
    let mut i: usize = 0;
    assert(all.subrange(0, all.len() as int) =~= all);
    while i < items.len()
        invariant
            all == items@,
            ds == match definitions {
                Some(d) => Some(*d),
                None => None,
            },
            i <= all.len(),
            values@.len() == i,
            forall|j: int| 0 <= j < i ==> values@[j] == bound_value(#[trigger] all[j], ds),
            first_undefined(all, ds) == first_undefined(all.subrange(i as int, all.len() as int), ds),
        decreases all.len() - i,
    {
        assert(all.subrange(i as int, all.len() as int).drop_first() =~= all.subrange(
            i + 1,
            all.len() as int,
        ));
        let item = items.peek_at(i).unwrap();
        let mut value: Option<V> = None;
        match item {
            ShuntedStackItem::Operand(t) => match &t.kind {
                TokenKind::Identifier(name) => {
                    let found = match definitions {
                        Some(d) => d.get(name.as_str()),
                        None => None,
                    };
                    match found {
                        Some(v) => {
                            value = Some(*v);
                        },
                        None => {
                            return Err(
                                Located::at(Error::UndefinedVariable { name: name.clone() }, t.position),
                            );
                        },
                    }
                },
                _ => {},
            },
            _ => {},
        }
        values.push(value);
        i = i + 1;
    }
    Ok(values)
}

/// What an argument of a call stands for before the call is made.
pub enum Argument<V> {
    /// A literal, to be read as a number.
    Literal(Number),
    /// The value an identifier is bound to.
    Value(V),
    /// A call, to be made first.
    Call,
}

pub enum ArgumentView<V> {
    Literal(bool, Seq<char>),
    Value(V),
    Call,
}

impl<V> View for Argument<V> {
    type V = ArgumentView<V>;

    open spec fn view(&self) -> ArgumentView<V> {
        match self {
            Argument::Literal(n) => ArgumentView::Literal(n.negative, n.text@),
            Argument::Value(v) => ArgumentView::Value(*v),
            Argument::Call => ArgumentView::Call,
        }
    }
}

/// An argument `a` of the call `name`: literals and calls pass; an identifier needs a binding
/// (and bindings at all); an operator is no argument.
pub open spec fn argument_spec<V>(name: Seq<char>, a: TokenView, definitions: Option<Definitions<V>>) -> Result<
    ArgumentView<V>,
    LocatedView,
> {
    match a.kind {
        KindView::Number(neg, text) => Ok(ArgumentView::Literal(neg, text)),
        KindView::Function(_, _) => Ok(ArgumentView::Call),
        KindView::Identifier(id) => match definitions {
            Some(d) => match d.value_of(id) {
                Some(v) => Ok(ArgumentView::Value(v)),
                None => Err(found_at(ErrorView::UndefinedVariable { name: id }, a.position)),
            },
            None => Err(found_at(ErrorView::InvalidArgument { name, value: id }, a.position)),
        },
        KindView::Operator(op) => Err(
            found_at(ErrorView::InvalidArgument { name, value: seq![op.spec_symbol()] }, a.position),
        ),
    }
}

/// Decides what the argument `a` of the call `name` stands for.
pub fn classify_argument<V: Copy>(name: &str, a: &Token, definitions: Option<&Definitions<V>>) -> (r:
    Result<Argument<V>, Located>)
    ensures
        match argument_spec(
            name@,
            a@,
            match definitions {
                Some(d) => Some(*d),
                None => None,
            },
        ) {
            Ok(v) => r is Ok && r->Ok_0@ == v,
            Err(e) => r is Err && r->Err_0@ == e,
        },
{
    match &a.kind {
        TokenKind::Number(n) => Ok(Argument::Literal(Number { negative: n.negative, text: n.text.clone() })),
        TokenKind::Function(_, _) => Ok(Argument::Call),
        TokenKind::Identifier(id) => match definitions {
            Some(d) => match d.get(id.as_str()) {
                Some(v) => Ok(Argument::Value(*v)),
                None => Err(Located::at(Error::UndefinedVariable { name: id.clone() }, a.position)),
            },
            None => Err(
                Located::at(Error::InvalidArgument { name: name.to_owned(), value: id.clone() }, a.position),
            ),
        },
        TokenKind::Operator(op) => Err(
            Located::at(Error::InvalidArgument { name: name.to_owned(), value: op.to_text() }, a.position),
        ),
    }
}


/// One instruction of resolving a call, in the order they are carried out.
pub enum CallOp<V> {
    /// Push the value of this literal (the caller reads it as a number).
    Literal(Number),
    /// Push this bound value.
    Value(V),
    /// Pop `argc` values (the first argument deepest), call `name` on them, push the result.
    Invoke { name: String, argc: usize, position: Position },
}

pub enum CallOpView<V> {
    Literal(bool, Seq<char>),
    Value(V),
    Invoke { name: Seq<char>, argc: nat, position: Position },
}

impl<V> View for CallOp<V> {
    type V = CallOpView<V>;

    open spec fn view(&self) -> CallOpView<V> {
        match self {
            CallOp::Literal(n) => CallOpView::Literal(n.negative, n.text@),
            CallOp::Value(v) => CallOpView::Value(*v),
            CallOp::Invoke { name, argc, position } => CallOpView::Invoke {
                name: name@,
                argc: *argc as nat,
                position: *position,
            },
        }
    }
}

/// The views of a sequence of instructions.
pub open spec fn op_views<V>(ops: Seq<CallOp<V>>) -> Seq<CallOpView<V>> {
    Seq::new(ops.len(), |i: int| ops[i]@)
}

/// Whether `name` is registered; with no table, nothing is.
pub open spec fn registered<F>(functions: Option<Bindings<F>>, name: Seq<char>) -> bool {
    match functions {
        Some(f) => f.value_of(name) is Some,
        None => false,
    }
}

/// The instructions that resolve the call `t`: its arguments in order, each nested call
/// resolved before the call that holds it, then the call itself. Or the first error: a name
/// that is not registered, before any of its arguments is looked at; then each argument as
/// [`argument_spec`] decides.
pub open spec fn call_plan<V, F>(
    t: TokenView,
    functions: Option<Bindings<F>>,
    definitions: Option<Definitions<V>>,
) -> Result<Seq<CallOpView<V>>, LocatedView>
    decreases t, 1nat, 0nat,
{
    match t.kind {
        KindView::Function(name, args) => if !registered(functions, name) {
            Err(found_at(ErrorView::UndefinedFunction { name }, t.position))
        } else {
            match args_plan(t, args.len(), functions, definitions) {
                Ok(p) => Ok(
                    p.push(CallOpView::Invoke { name, argc: args.len(), position: t.position }),
                ),
                Err(e) => Err(e),
            }
        },
        _ => Ok(Seq::empty()),
    }
}

/// The instructions for the first `n` arguments of the call `t`.
pub open spec fn args_plan<V, F>(
    t: TokenView,
    n: nat,
    functions: Option<Bindings<F>>,
    definitions: Option<Definitions<V>>,
) -> Result<Seq<CallOpView<V>>, LocatedView>
    decreases t, 0nat, n,
{
    match t.kind {
        KindView::Function(name, args) => if n == 0 || n > args.len() {
            Ok(Seq::empty())
        } else {
            match args_plan(t, (n - 1) as nat, functions, definitions) {
                Err(e) => Err(e),
                Ok(p) => {
                    let a = args[n - 1];
                    if a.kind is Function {
                        match call_plan(a, functions, definitions) {
                            Ok(q) => Ok(p + q),
                            Err(e) => Err(e),
                        }
                    } else {
                        match argument_spec(name, a, definitions) {
                            Ok(ArgumentView::Literal(neg, text)) => Ok(
                                p.push(CallOpView::Literal(neg, text)),
                            ),
                            Ok(ArgumentView::Value(v)) => Ok(p.push(CallOpView::Value(v))),
                            Ok(ArgumentView::Call) => Ok(p),
                            Err(e) => Err(e),
                        }
                    }
                },
            }
        },
        _ => Ok(Seq::empty()),
    }
}

proof fn lemma_args_plan_err<V, F>(
    t: TokenView,
    k: nat,
    m: nat,
    functions: Option<Bindings<F>>,
    definitions: Option<Definitions<V>>,
)
    requires
        t.kind is Function,
        k <= m <= t.kind->Function_1.len(),
        args_plan(t, k, functions, definitions) is Err,
    ensures
        args_plan(t, m, functions, definitions) == args_plan(t, k, functions, definitions),
    decreases m - k,
{
    if k < m {
        lemma_args_plan_err(t, k, (m - 1) as nat, functions, definitions);
    }
}

/// Appends the instructions that resolve the call `t` to `out`.
fn plan_into<V: Copy, F>(
    t: &Token,
    functions: Option<&Functions<F>>,
    definitions: Option<&Definitions<V>>,
    out: &mut Vec<CallOp<V>>,
) -> (r: Result<(), Located>)
    ensures
        match call_plan(
            t@,
            match functions {
                Some(f) => Some(*f),
                None => None,
            },
            match definitions {
                Some(d) => Some(*d),
                None => None,
            },
        ) {
            Ok(p) => r is Ok && op_views(final(out)@) == op_views(old(out)@) + p,
            Err(e) => r is Err && r->Err_0@ == e,
        },
    decreases t,
{
    let ghost fs = match functions {
        Some(f) => Some(*f),
        None => None,
    };
    let ghost ds = match definitions {
        Some(d) => Some(*d),
        None => None,
    };
    match &t.kind {
        TokenKind::Function(name, args) => {
            let known = match functions {
                Some(f) => f.contains(name.as_str()),
                None => false,
            };
            if !known {
                return Err(Located::at(Error::UndefinedFunction { name: name.clone() }, t.position));
            }
            let ghost v = t@;
            let ghost start = op_views(out@);
            assert(v.kind == t.kind@);
            assert(v.kind->Function_1 =~= crate::lex::views(args@));
            assert(args_plan(v, 0, fs, ds) == Ok::<Seq<CallOpView<V>>, LocatedView>(Seq::empty()));
            assert(start + Seq::<CallOpView<V>>::empty() =~= start);
            let mut i: usize = 0;
            while i < args.len()
                invariant
                    v == t@,
                    t.kind is Function,
                    t.kind->Function_1 == *args,
                    t.kind->Function_0 == *name,
                    fs == match functions {
                        Some(f) => Some(*f),
                        None => None,
                    },
                    ds == match definitions {
                        Some(d) => Some(*d),
                        None => None,
                    },
                    registered(fs, name@),
                    i <= args@.len(),
                    v.kind == KindView::Function(name@, v.kind->Function_1),
                    v.kind->Function_1.len() == args@.len(),
                    forall|k: int| 0 <= k < args@.len() ==> v.kind->Function_1[k] == #[trigger] args@[k]@,
                    args_plan(v, i as nat, fs, ds) is Ok,
                    op_views(out@) == start + args_plan(v, i as nat, fs, ds)->Ok_0,
                decreases args@.len() - i,
            {
                let a = &args[i];
                let ghost before = op_views(out@);
                let ghost p = args_plan(v, i as nat, fs, ds)->Ok_0;
                match &a.kind {
                    TokenKind::Function(_, _) => {
                        proof {
                            broadcast use vstd::std_specs::vec::axiom_vec_index_decreases;
                            assert(decreases_to!(*t => args[i as int]));
                        }
                        match plan_into(a, functions, definitions, out) {
                            Ok(()) => {
                                assert(op_views(out@) =~= start + (p + call_plan(a@, fs, ds)->Ok_0));
                            },
                            Err(e) => {
                                proof {
                                    lemma_args_plan_err(v, (i + 1) as nat, args@.len() as nat, fs, ds);
                                }
                                return Err(e);
                            },
                        }
                    },
                    _ => {
                        match classify_argument(name.as_str(), a, definitions) {
                            Ok(Argument::Literal(n)) => {
                                let ghost nv = CallOpView::<V>::Literal(n.negative, n.text@);
                                let ghost old_out = out@;
                                out.push(CallOp::Literal(n));
                                assert(out@ =~= old_out.push(CallOp::Literal(n)));
                                assert(op_views(out@) =~= before.push(nv));
                                assert(op_views(out@) =~= start + p.push(nv));
                            },
                            Ok(Argument::Value(x)) => {
                                let ghost old_out = out@;
                                out.push(CallOp::Value(x));
                                assert(op_views(out@) =~= before.push(CallOpView::Value(x)));
                                assert(op_views(out@) =~= start + p.push(CallOpView::Value(x)));
                            },
                            Ok(Argument::Call) => {},
                            Err(e) => {
                                proof {
                                    lemma_args_plan_err(v, (i + 1) as nat, args@.len() as nat, fs, ds);
                                }
                                return Err(e);
                            },
                        }
                    },
                }
                i = i + 1;
            }
            let ghost p = args_plan(v, i as nat, fs, ds)->Ok_0;
            let ghost before = op_views(out@);
            let ghost iv = CallOpView::<V>::Invoke {
                name: name@,
                argc: args@.len(),
                position: t.position,
            };
            out.push(CallOp::Invoke { name: name.clone(), argc: args.len(), position: t.position });
            assert(op_views(out@) =~= before.push(iv));
            assert(op_views(out@) =~= start + p.push(
                CallOpView::Invoke { name: name@, argc: args@.len(), position: t.position },
            ));
            Ok(())
        },
        _ => {
            assert(op_views(out@) + Seq::<CallOpView<V>>::empty() =~= op_views(out@));
            Ok(())
        },
    }
}

/// The instructions that resolve the call `t`, nested calls first and arguments in order.
/// With no table of functions, no name is registered.
pub fn plan_call<V: Copy, F>(
    t: &Token,
    functions: Option<&Functions<F>>,
    definitions: Option<&Definitions<V>>,
) -> (r: Result<Vec<CallOp<V>>, Located>)
    ensures
        match call_plan(
            t@,
            match functions {
                Some(f) => Some(*f),
                None => None,
            },
            match definitions {
                Some(d) => Some(*d),
                None => None,
            },
        ) {
            Ok(p) => r is Ok && op_views(r->Ok_0@) == p,
            Err(e) => r is Err && r->Err_0@ == e,
        },
        t@.kind is Function && r is Ok ==> plan_run(op_views(r->Ok_0@), 0) == Some(1int),
{
    proof {
        let fs = match functions {
            Some(f) => Some(*f),
            None => None,
        };
        let ds = match definitions {
            Some(d) => Some(*d),
            None => None,
        };
        if t@.kind is Function && call_plan(t@, fs, ds) is Ok {
            call_plan_leaves_one_value(t@, fs, ds, 0);
        }
    }
    let mut out: Vec<CallOp<V>> = Vec::new();
    assert(op_views(out@) =~= Seq::<CallOpView<V>>::empty());
    match plan_into(t, functions, definitions, &mut out) {
        Ok(()) => {
            assert(op_views(out@) =~= Seq::<CallOpView<V>>::empty() + op_views(out@));
            Ok(out)
        },
        Err(e) => Err(e),
    }
}


/// How many values a stack holding `d` holds after the instructions `ops`, or `None` if a
/// call finds fewer values than it has arguments.
pub open spec fn plan_run<V>(ops: Seq<CallOpView<V>>, d: int) -> Option<int>
    decreases ops.len(),
{
    if ops.len() == 0 {
        Some(d)
    } else {
        match ops[0] {
            CallOpView::Invoke { name, argc, position } => if d >= argc {
                plan_run(ops.drop_first(), d - argc + 1)
            } else {
                None
            },
            _ => plan_run(ops.drop_first(), d + 1),
        }
    }
}

proof fn lemma_plan_run_concat<V>(p: Seq<CallOpView<V>>, q: Seq<CallOpView<V>>, d: int)
    ensures
        plan_run(p + q, d) == match plan_run(p, d) {
            Some(e) => plan_run(q, e),
            None => None,
        },
    decreases p.len(),
{
    if p.len() > 0 {
        assert((p + q).drop_first() =~= p.drop_first() + q);
        assert((p + q)[0] == p[0]);
        match p[0] {
            CallOpView::Invoke { name, argc, position } => {
                if d >= argc {
                    lemma_plan_run_concat(p.drop_first(), q, d - argc + 1);
                }
            },
            _ => {
                lemma_plan_run_concat(p.drop_first(), q, d + 1);
            },
        }
    } else {
        assert(p + q =~= q);
    }
}

proof fn lemma_one_op<V>(x: CallOpView<V>, d: int)
    ensures
        plan_run(seq![x], d) == match x {
            CallOpView::Invoke { name, argc, position } => if d >= argc {
                Some(d - argc + 1)
            } else {
                None
            },
            _ => Some(d + 1),
        },
{
    reveal_with_fuel(plan_run, 2);
    assert(seq![x].drop_first() =~= Seq::<CallOpView<V>>::empty());
}

proof fn lemma_call_plan_run<V, F>(
    t: TokenView,
    functions: Option<Bindings<F>>,
    definitions: Option<Definitions<V>>,
    d: int,
)
    requires
        0 <= d,
        t.kind is Function,
        call_plan(t, functions, definitions) is Ok,
    ensures
        plan_run(call_plan(t, functions, definitions)->Ok_0, d) == Some(d + 1),
    decreases t, 1nat, 0nat,
{
    let n = t.kind->Function_1.len();
    lemma_args_plan_run(t, n, functions, definitions, d);
    let p = args_plan(t, n, functions, definitions)->Ok_0;
    let x = CallOpView::<V>::Invoke { name: t.kind->Function_0, argc: n, position: t.position };
    lemma_plan_run_concat(p, seq![x], d);
    lemma_one_op(x, d + n);
    assert(p.push(x) =~= p + seq![x]);
    assert(call_plan(t, functions, definitions)->Ok_0 == p.push(x));
}

proof fn lemma_args_plan_run<V, F>(
    t: TokenView,
    n: nat,
    functions: Option<Bindings<F>>,
    definitions: Option<Definitions<V>>,
    d: int,
)
    requires
        0 <= d,
        t.kind is Function,
        n <= t.kind->Function_1.len(),
        args_plan(t, n, functions, definitions) is Ok,
    ensures
        plan_run(args_plan(t, n, functions, definitions)->Ok_0, d) == Some(d + n),
    decreases t, 0nat, n,
{
    if n > 0 {
        lemma_args_plan_run(t, (n - 1) as nat, functions, definitions, d);
        let p = args_plan(t, (n - 1) as nat, functions, definitions)->Ok_0;
        let a = t.kind->Function_1[n - 1];
        if a.kind is Function {
            assert(decreases_to!(t => t.kind));
            assert(decreases_to!(t.kind => t.kind->Function_1));
            assert(decreases_to!(t.kind->Function_1 => a));
            lemma_call_plan_run(a, functions, definitions, d + n - 1);
            lemma_plan_run_concat(p, call_plan(a, functions, definitions)->Ok_0, d);
        } else {
            match argument_spec(t.kind->Function_0, a, definitions) {
                Ok(ArgumentView::Literal(neg, text)) => {
                    let x = CallOpView::<V>::Literal(neg, text);
                    lemma_plan_run_concat(p, seq![x], d);
                    lemma_one_op(x, d + n - 1);
                    assert(p.push(x) =~= p + seq![x]);
                },
                Ok(ArgumentView::Value(v)) => {
                    let x = CallOpView::<V>::Value(v);
                    lemma_plan_run_concat(p, seq![x], d);
                    lemma_one_op(x, d + n - 1);
                    assert(p.push(x) =~= p + seq![x]);
                },
                _ => {},
            }
        }
    } else {
        assert(args_plan(t, 0, functions, definitions)->Ok_0 =~= Seq::<CallOpView<V>>::empty());
    }
}

/// A successful plan of a call, run on a stack of any height, leaves exactly one value more:
/// every call, nested ones first, finds its arguments, and the outer call's result is left.
pub proof fn call_plan_leaves_one_value<V, F>(
    t: TokenView,
    functions: Option<Bindings<F>>,
    definitions: Option<Definitions<V>>,
    d: int,
)
    requires
        0 <= d,
        t.kind is Function,
        call_plan(t, functions, definitions) is Ok,
    ensures
        plan_run(call_plan(t, functions, definitions)->Ok_0, d) == Some(d + 1),
{
    lemma_call_plan_run(t, functions, definitions, d);
}

} // verus!
