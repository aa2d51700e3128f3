//! From text to postfix order in one call, and what blank input gives.
use vstd::prelude::*;
use crate::error::{ErrorView, Located, LocatedView};
use crate::lex::{blank, lex_spec, tokenize, tokens_from, TokenView};
use crate::postfix::{postfix_spec, shunting_yard, well_formed, ItemView, ShuntedStack};

verus! {

/// The postfix form of a text: its tokens, arranged; the first error of either stage.
pub open spec fn parse_spec(s: Seq<char>, allow: bool) -> Result<Seq<ItemView>, LocatedView> {
    match lex_spec(s, allow) {
        Ok(ts) => postfix_spec(ts),
        Err(e) => Err(e),
    }
}

/// Tokenizes `source` and arranges the tokens in postfix order.
pub fn to_postfix(source: &str, allow_idents: bool) -> (r: Result<ShuntedStack, Located>)
    ensures
        match parse_spec(source@, allow_idents) {
            Ok(items) => r is Ok && r->Ok_0@ == items,
            Err(e) => r is Err && r->Err_0@ == e,
        },
        r is Ok ==> well_formed(r->Ok_0@),
{
    match tokenize(source, allow_idents) {
        Ok(tokens) => shunting_yard(tokens),
        Err(e) => Err(e),
    }
}

proof fn lemma_blank_tokens(s: Seq<char>, i: int, allow: bool)
    requires
        0 <= i,
        forall|k: int| 0 <= k < s.len() ==> blank(#[trigger] s[k]),
    ensures
        tokens_from(s, i, allow) == Ok::<Seq<TokenView>, LocatedView>(Seq::empty()),
    decreases s.len() - i,
{
    if i < s.len() {
        lemma_blank_tokens(s, i + 1, allow);
    }
}

/// A text of blanks only, the empty text included, has no tokens, and is rejected as an
/// empty expression.
pub proof fn blank_text_is_empty_expression(s: Seq<char>, allow: bool)
    requires
        forall|k: int| 0 <= k < s.len() ==> blank(#[trigger] s[k]),
    ensures
        lex_spec(s, allow) == Ok::<Seq<TokenView>, LocatedView>(Seq::empty()),
        parse_spec(s, allow) == Err::<Seq<ItemView>, LocatedView>(
            LocatedView { error: ErrorView::EmptyExpression, position: None },
        ),
{
    lemma_blank_tokens(s, 0, allow);
}

} // verus!
