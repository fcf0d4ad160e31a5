//! Sequences of markup, and the pieces of markup that are a single token.
use vstd::prelude::*;

use crate::ast::BlockModel;
use crate::ast::MarkupModel;
use crate::grammar::block;
use crate::grammar::group_block;
use crate::grammar::let_expr;
use crate::grammar::literal;
use crate::grammar::markup;
use crate::grammar::markups;
use crate::grammar::template;
use crate::literal::is_string;
use crate::literal::law_plain_string;
use crate::literal::law_raw_string;
use crate::literal::string_value;
use crate::progress::lemma_leaves_skip;
use crate::progress::lemma_leaves_trans;
use crate::progress::lemma_leaves_weight;
use crate::progress::lemma_let_expr_leaves;
use crate::progress::lemma_markup_leaves;
use crate::scan::find;
use crate::scan::is_mark;
use crate::scan::lemma_find_bound;
use crate::scan::lemma_find_first;
use crate::scan::Failure;
use crate::scan::Mark;
use crate::scan::Outcome;
use crate::scan::State;
use crate::token::is_ident;
use crate::token::is_punct;
use crate::token::is_word;
use crate::token::Delimiter;
use crate::token::Span;
use crate::token::Token;

verus! {

/// One item in front of a list, if there is a list at all.
pub open spec fn preceded<T>(first: T, outcome: Outcome<Seq<T>>) -> Outcome<Seq<T>> {
    match outcome {
        (Ok(items), s) => (Ok(seq![first] + items), s),
        (Err(e), s) => (Err(e), s),
    }
}

/// Whether the tokens start with something other than a `;` or a `@let`.
pub open spec fn starts_markup(tokens: Seq<Token>) -> bool {
    &&& tokens.len() > 0
    &&& !is_punct(tokens[0], ';')
    &&& !(tokens.len() > 1 && is_punct(tokens[0], '@') && is_word(tokens[1], "let"@))
}

/// What is found stands at an index with no such mark before it.
pub proof fn lemma_find_at(tokens: Seq<Token>, mark: Mark, from: int, at: int)
    requires
        0 <= from <= at <= tokens.len(),
        forall|i: int| from <= i < at ==> !is_mark(#[trigger] tokens[i], mark),
        at < tokens.len() ==> is_mark(tokens[at], mark),
    ensures
        find(tokens, mark, from) == at,
{
    lemma_find_bound(tokens, mark, from);
    lemma_find_first(tokens, mark, from);
}

/// A sequence is its first piece of markup, and the sequence of what that leaves. An error in the
/// first piece is the error of the sequence.
pub proof fn law_next_markup(s: State)
    requires
        starts_markup(s.rest),
    ensures
        markups(s) == match markup(s) {
            (Ok(first), s1) => preceded(first, markups(s1)),
            (Err(e), s1) => (Err(e), s1),
        },
{
    lemma_markup_leaves(s);
    if let (Ok(_), s1) = markup(s) {
        lemma_leaves_weight(s, s1, 1);
    }
}

/// A `;` that comes first in a sequence is skipped.
pub proof fn law_skip_semicolon(in_attr: bool, semi: Token, rest: Seq<Token>)
    requires
        is_punct(semi, ';'),
    ensures
        markups(State { in_attr, rest: seq![semi] + rest }) == markups(State { in_attr, rest }),
{
    let s = State { in_attr, rest: seq![semi] + rest };
    assert(s.skip(1).rest =~= rest);
}

/// A template that is one piece of markup is just that; one that starts with an error fails with
/// that error.
pub proof fn law_one_markup(tokens: Seq<Token>)
    requires
        starts_markup(tokens),
    ensures
        ({
            let s = State { in_attr: false, rest: tokens };
            match markup(s) {
                (Ok(only), s1) => s1.rest.len() == 0 ==> template(tokens) == Ok::<
                    Seq<MarkupModel>,
                    Failure,
                >(seq![only]),
                (Err(e), _) => template(tokens) == Err::<Seq<MarkupModel>, Failure>(e),
            }
        }),
{
    let s = State { in_attr: false, rest: tokens };
    law_next_markup(s);
    if let (Ok(only), s1) = markup(s) {
        assert(seq![only] + Seq::<MarkupModel>::empty() =~= seq![only]);
    }
}

/// A `@let` goes from its keyword up to the first `;` after its first `=`, with all that stands
/// between, and the sequence goes on after it.
pub proof fn law_let(
    in_attr: bool,
    at: Token,
    keyword: Token,
    pattern: Seq<Token>,
    eq: Token,
    value: Seq<Token>,
    semi: Token,
    rest: Seq<Token>,
)
    requires
        is_punct(at, '@'),
        is_word(keyword, "let"@),
        forall|i: int| 0 <= i < pattern.len() ==> !is_punct(#[trigger] pattern[i], '='),
        is_punct(eq, '='),
        forall|i: int| 0 <= i < value.len() ==> !is_punct(#[trigger] value[i], ';'),
        is_punct(semi, ';'),
    ensures
        ({
            let inner = pattern + seq![eq] + value + seq![semi];
            let found = MarkupModel::Let { tokens: seq![keyword] + inner };
            &&& let_expr(State { in_attr, rest: inner + rest }, keyword) == (
                Ok::<MarkupModel, Failure>(found),
                (State { in_attr, rest }),
            )
            &&& markups(State { in_attr, rest: seq![at, keyword] + inner + rest }) == preceded(
                found,
                markups(State { in_attr, rest }),
            )
        }),
{
    let inner = pattern + seq![eq] + value + seq![semi];
    let s = State { in_attr, rest: inner + rest };
    let p = pattern.len() as int;
    let end = p + 1 + value.len();
    assert forall|i: int| 0 <= i < p implies !is_mark(
        #[trigger] s.rest[i],
        Mark::Punct('='),
    ) by {
        assert(s.rest[i] == pattern[i]);
    }
    assert(s.rest[p] == eq);
    lemma_find_at(s.rest, Mark::Punct('='), 0, p);
    assert forall|i: int| p + 1 <= i < end implies !is_mark(
        #[trigger] s.rest[i],
        Mark::Punct(';'),
    ) by {
        assert(s.rest[i] == value[i - p - 1]);
    }
    assert(s.rest[end] == semi);
    lemma_find_at(s.rest, Mark::Punct(';'), p + 1, end);
    assert(s.rest.take(end + 1) =~= inner);
    assert(s.skip(end + 1).rest =~= rest);
    let whole = State { in_attr, rest: seq![at, keyword] + inner + rest };
    assert(whole.skip(2).rest =~= s.rest);
    assert(whole.rest[0] == at);
    assert(whole.rest[1] == keyword);
    lemma_leaves_skip(whole, 2);
    lemma_let_expr_leaves(s, keyword);
    lemma_leaves_trans(whole, whole.skip(2), State { in_attr, rest }, 2, 0);
    lemma_leaves_weight(whole, State { in_attr, rest }, 2);
}

/// A `@let` without a `=`, or without a `;` after its first `=`, is an error, and takes all the
/// input.
pub proof fn law_let_incomplete(in_attr: bool, at: Token, keyword: Token, rest: Seq<Token>, eq: int)
    requires
        is_punct(at, '@'),
        is_word(keyword, "let"@),
        0 <= eq <= rest.len(),
        forall|i: int| 0 <= i < eq ==> !is_punct(#[trigger] rest[i], '='),
        eq < rest.len() ==> is_punct(rest[eq], '='),
        forall|i: int| eq < i < rest.len() ==> !is_punct(#[trigger] rest[i], ';'),
    ensures
        ({
            let error = Failure::Message("unexpected end of @let expression"@);
            let end = State { in_attr, rest: Seq::<Token>::empty() };
            &&& let_expr(State { in_attr, rest }, keyword) == (
                Err::<MarkupModel, Failure>(error),
                end,
            )
            &&& markups(State { in_attr, rest: seq![at, keyword] + rest }) == (
                Err::<Seq<MarkupModel>, Failure>(error),
                end,
            )
        }),
{
    let s = State { in_attr, rest };
    lemma_find_at(rest, Mark::Punct('='), 0, eq);
    if eq < rest.len() {
        lemma_find_at(rest, Mark::Punct(';'), eq + 1, rest.len() as int);
    }
    let whole = State { in_attr, rest: seq![at, keyword] + rest };
    assert(whole.skip(2).rest =~= rest);
    assert(whole.rest[0] == at);
    assert(whole.rest[1] == keyword);
}

/// A string literal renders all of its value and nothing else, wherever it stands.
pub proof fn law_string(in_attr: bool, text: Seq<char>, span: Span, rest: Seq<Token>)
    requires
        is_string(text),
        string_value(text) is Some,
    ensures
        ({
            let found = MarkupModel::Literal { content: string_value(text)->Some_0, span };
            let lit = Token::Literal { text, span };
            &&& markup(State { in_attr, rest: seq![lit] + rest }) == (
                Ok::<MarkupModel, Failure>(found),
                (State { in_attr, rest }),
            )
            &&& literal(text, span) == Ok::<MarkupModel, Failure>(found)
            &&& template(seq![lit]) == Ok::<Seq<MarkupModel>, Failure>(seq![found])
        }),
{
    let lit = Token::Literal { text, span };
    let s = State { in_attr, rest: seq![lit] + rest };
    assert(s.rest[0] == lit);
    assert(s.skip(1).rest =~= rest);
    let alone = State { in_attr: false, rest: seq![lit] };
    assert(alone.skip(1).rest =~= Seq::empty());
    law_one_markup(seq![lit]);
}

/// A string literal without quotes, backslashes and carriage returns inside renders what stands
/// between its quotes; a raw string literal does so whatever that is.
pub proof fn law_string_verbatim(content: Seq<char>, hashes: nat, span: Span)
    ensures
        ({
            let fence = Seq::new(hashes, |i: int| '#');
            let raw = seq!['r'] + fence + seq!['"'] + content + seq!['"'] + fence;
            template(seq![Token::Literal { text: raw, span }]) == Ok::<Seq<MarkupModel>, Failure>(
                seq![MarkupModel::Literal { content, span }],
            )
        }),
        (forall|i: int|
            0 <= i < content.len() ==> (#[trigger] content[i]) != '"' && content[i] != '\\'
                && content[i] != '\r') ==> template(
            seq![Token::Literal { text: seq!['"'] + content + seq!['"'], span }],
        ) == Ok::<Seq<MarkupModel>, Failure>(seq![MarkupModel::Literal { content, span }]),
{
    let fence = Seq::new(hashes, |i: int| '#');
    let raw = seq!['r'] + fence + seq!['"'] + content + seq!['"'] + fence;
    law_raw_string(content, hashes);
    assert(raw[0] == 'r');
    law_string(false, raw, span, Seq::empty());
    if forall|i: int|
        0 <= i < content.len() ==> (#[trigger] content[i]) != '"' && content[i] != '\\'
            && content[i] != '\r' {
        let text = seq!['"'] + content + seq!['"'];
        law_plain_string(content);
        assert(text[0] == '"');
        law_string(false, text, span, Seq::empty());
    }
}

/// A literal that is no string is an error. A string that has no value has no answer.
pub proof fn law_no_string(in_attr: bool, text: Seq<char>, span: Span, rest: Seq<Token>)
    requires
        is_string(text) ==> string_value(text) is None,
    ensures
        ({
            let error = if is_string(text) {
                Failure::Abort
            } else {
                Failure::Message("expected string"@)
            };
            &&& literal(text, span) == Err::<MarkupModel, Failure>(error)
            &&& markup(State { in_attr, rest: seq![Token::Literal { text, span }] + rest }) == (
                Err::<MarkupModel, Failure>(error),
                (State { in_attr, rest }),
            )
        }),
{
    let s = State { in_attr, rest: seq![Token::Literal { text, span }] + rest };
    assert(s.skip(1).rest =~= rest);
}

/// What stands in parentheses is spliced as it is, wherever it stands.
pub proof fn law_parentheses(in_attr: bool, stream: Seq<Token>, span: Span, rest: Seq<Token>)
    ensures
        markup(
            State {
                in_attr,
                rest: seq![Token::Group { delimiter: Delimiter::Parenthesis, stream, span }] + rest,
            },
        ) == (
            Ok::<MarkupModel, Failure>(MarkupModel::Splice { expr: stream }),
            (State { in_attr, rest }),
        ),
{
    let group = Token::Group { delimiter: Delimiter::Parenthesis, stream, span };
    let s = State { in_attr, rest: seq![group] + rest };
    assert(s.rest[0] == group);
    assert(s.skip(1).rest =~= rest);
}

/// What stands in braces is a sequence of markup of its own, in the same context.
pub proof fn law_block(in_attr: bool, stream: Seq<Token>, span: Span, rest: Seq<Token>)
    ensures
        markup(
            State {
                in_attr,
                rest: seq![Token::Group { delimiter: Delimiter::Brace, stream, span }] + rest,
            },
        ) == (
            match markups(State { in_attr, rest: stream }).0 {
                Ok(markups) => Ok(MarkupModel::Block(BlockModel { markups, span })),
                Err(e) => Err(e),
            },
            (State { in_attr, rest }),
        ),
        block(in_attr, stream, span) == match markups(State { in_attr, rest: stream }).0 {
            Ok(markups) => Ok::<BlockModel, Failure>(BlockModel { markups, span }),
            Err(e) => Err(e),
        },
{
    let group = Token::Group { delimiter: Delimiter::Brace, stream, span };
    let s = State { in_attr, rest: seq![group] + rest };
    assert(s.rest[0] == group);
    assert(s.skip(1).rest =~= rest);
    assert(group_block(in_attr, group) == block(in_attr, stream, span));
}

/// At the end of the input there is no markup. No other group and no punctuation but `@` starts
/// any. Nothing is consumed.
pub proof fn law_no_markup(s: State)
    ensures
        s.rest.len() == 0 ==> markup(s) == (
            Err::<MarkupModel, Failure>(Failure::Message("unexpected end of input"@)),
            s,
        ),
        s.rest.len() > 0 ==> (match s.rest[0] {
            Token::Punct { ch, .. } => ch != '@',
            Token::Group { delimiter, .. } => delimiter == Delimiter::Bracket || delimiter
                == Delimiter::Invisible,
            _ => false,
        }) ==> markup(s) == (
            Err::<MarkupModel, Failure>(Failure::Message("invalid syntax"@)),
            s,
        ),
{
}

/// An `@` must be followed by a keyword; what follows instead is consumed.
pub proof fn law_at_needs_keyword(in_attr: bool, at: Token, rest: Seq<Token>)
    requires
        is_punct(at, '@'),
        rest.len() > 0 ==> !is_ident(rest[0]),
    ensures
        markup(State { in_attr, rest: seq![at] + rest }) == (
            Err::<MarkupModel, Failure>(Failure::Message("expected keyword after `@`"@)),
            (State {
                in_attr,
                rest: if rest.len() > 0 {
                    rest.skip(1)
                } else {
                    Seq::empty()
                },
            }),
        ),
{
    let s = State { in_attr, rest: seq![at] + rest };
    assert(s.rest[0] == at);
    if rest.len() > 0 {
        assert(s.rest[1] == rest[0]);
        assert(s.skip(2).rest =~= rest.skip(1));
    }
}

/// At the end of the input there is no more markup, in any context; and a template is a sequence
/// of markup outside any attribute.
pub proof fn law_end(s: State, tokens: Seq<Token>)
    ensures
        s.rest.len() == 0 ==> markups(s) == (Ok::<Seq<MarkupModel>, Failure>(Seq::empty()), s),
        template(tokens) == markups(State { in_attr: false, rest: tokens }).0,
{
}

} // verus!
