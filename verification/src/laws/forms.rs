//! Special forms: put together from keyword, head and body, they are read back with all of these.
use vstd::prelude::*;

use crate::ast::BlockModel;
use crate::ast::MarkupModel;
use crate::ast::SpecialModel;
use crate::grammar::block;
use crate::grammar::else_if_expr;
use crate::grammar::for_expr;
use crate::grammar::group_block;
use crate::grammar::if_expr;
use crate::grammar::markup;
use crate::grammar::markups;
use crate::grammar::match_arms;
use crate::grammar::match_expr;
use crate::grammar::special;
use crate::grammar::special_form;
use crate::grammar::template;
use crate::grammar::while_expr;
use crate::laws::sequence::law_one_markup;
use crate::laws::sequence::lemma_find_at;
use crate::progress::lemma_leaves_weight;
use crate::progress::lemma_special_leaves;
use crate::scan::is_mark;
use crate::scan::Failure;
use crate::scan::Mark;
use crate::scan::State;
use crate::token::is_group;
use crate::token::is_ident;
use crate::token::is_punct;
use crate::token::is_word;
use crate::token::Delimiter;
use crate::token::Span;
use crate::token::Token;

verus! {

/// `{ ... }`
pub open spec fn braced(stream: Seq<Token>, span: Span) -> Token {
    Token::Group { delimiter: Delimiter::Brace, stream, span }
}

/// Whether there is no braced block among the tokens.
pub open spec fn unbraced(tokens: Seq<Token>) -> bool {
    forall|i: int|
        0 <= i < tokens.len() ==> !(#[trigger] tokens[i] matches Token::Group { delimiter, .. }
            && delimiter == Delimiter::Brace)
}

/// Whether the word does not occur among the tokens.
pub open spec fn lacks_word(tokens: Seq<Token>, word: Seq<char>) -> bool {
    forall|i: int|
        0 <= i < tokens.len() ==> !(#[trigger] tokens[i] matches Token::Ident { text, .. }
            && text == word)
}

/// A block with this head, whose body is what stands in the braces: a sequence of markup of its
/// own, in the same context.
pub open spec fn guarded(
    in_attr: bool,
    head: Seq<Token>,
    stream: Seq<Token>,
    span: Span,
) -> Result<SpecialModel, Failure> {
    match markups(State { in_attr, rest: stream }).0 {
        Ok(markups) => Ok(SpecialModel { head, body: BlockModel { markups, span } }),
        Err(e) => Err(e),
    }
}

/// The markup of a single block of that kind.
pub open spec fn only(segment: Result<SpecialModel, Failure>) -> Result<MarkupModel, Failure> {
    match segment {
        Ok(segment) => Ok(MarkupModel::Special { segments: seq![segment] }),
        Err(e) => Err(e),
    }
}

/// The keywords are different words.
proof fn lemma_words()
    ensures
        "if"@ != "while"@,
        "if"@ != "for"@,
        "if"@ != "match"@,
        "if"@ != "let"@,
        "if"@ != "else"@,
        "while"@ != "for"@,
        "while"@ != "match"@,
        "while"@ != "let"@,
        "for"@ != "match"@,
        "for"@ != "let"@,
        "match"@ != "let"@,
{
    reveal_strlit("if");
    reveal_strlit("while");
    reveal_strlit("for");
    reveal_strlit("match");
    reveal_strlit("let");
    reveal_strlit("else");
    assert("if"@[0] == 'i');
    assert("while"@[0] == 'w');
    assert("for"@[0] == 'f');
    assert("match"@[0] == 'm');
    assert("let"@[0] == 'l');
    assert("else"@[0] == 'e');
}

/// What follows an `@` and a keyword.
proof fn lemma_keyword(in_attr: bool, at: Token, keyword: Token, rest: Seq<Token>)
    requires
        is_punct(at, '@'),
        is_ident(keyword),
    ensures
        markup(State { in_attr, rest: seq![at, keyword] + rest }) == special_form(
            State { in_attr, rest },
            keyword,
        ),
{
    let s = State { in_attr, rest: seq![at, keyword] + rest };
    assert(s.rest[0] == at);
    assert(s.rest[1] == keyword);
    assert(s.skip(2).rest =~= rest);
}

/// A guarded block is found where its braces are the first ones, from `from` on.
proof fn lemma_special_at(
    in_attr: bool,
    head: Seq<Token>,
    stream: Seq<Token>,
    span: Span,
    rest: Seq<Token>,
    prefix: Seq<Token>,
    from: int,
    message: Seq<char>,
)
    requires
        0 <= from <= head.len(),
        unbraced(head.skip(from)),
    ensures
        special(
            State { in_attr, rest: head + seq![braced(stream, span)] + rest },
            prefix,
            from,
            message,
        ) == (guarded(in_attr, prefix + head, stream, span), (State { in_attr, rest })),
{
    let group = braced(stream, span);
    let s = State { in_attr, rest: head + seq![group] + rest };
    let n = head.len() as int;
    assert forall|i: int| from <= i < n implies !is_mark(#[trigger] s.rest[i], Mark::Body) by {
        assert(head.skip(from)[i - from] == s.rest[i]);
    }
    assert(s.rest[n] == group);
    lemma_find_at(s.rest, Mark::Body, from, n);
    assert(s.rest.take(n) =~= head);
    assert(s.skip(n + 1).rest =~= rest);
    assert(group_block(in_attr, group) == block(in_attr, stream, span));
    assert(block(in_attr, stream, span) == match markups(State { in_attr, rest: stream }).0 {
        Ok(markups) => Ok::<BlockModel, Failure>(BlockModel { markups, span }),
        Err(e) => Err(e),
    });
}

/// Without braces from `from` on there is no guarded block.
proof fn lemma_special_none(s: State, prefix: Seq<Token>, from: int, message: Seq<char>)
    requires
        0 <= from <= s.rest.len(),
        unbraced(s.rest.skip(from)),
    ensures
        special(s, prefix, from, message) == (
            Err::<SpecialModel, Failure>(Failure::Message(message)),
            (State { in_attr: s.in_attr, rest: Seq::empty() }),
        ),
{
    assert forall|i: int| from <= i < s.rest.len() implies !is_mark(
        #[trigger] s.rest[i],
        Mark::Body,
    ) by {
        assert(s.rest.skip(from)[i - from] == s.rest[i]);
    }
    lemma_find_at(s.rest, Mark::Body, from, s.rest.len() as int);
}

/// A `@while` has the head that stands before its braces, keyword included, and the body that
/// stands in them; what follows is left.
pub proof fn law_while(
    in_attr: bool,
    at: Token,
    keyword: Token,
    head: Seq<Token>,
    stream: Seq<Token>,
    span: Span,
    rest: Seq<Token>,
)
    requires
        is_punct(at, '@'),
        is_word(keyword, "while"@),
        unbraced(head),
    ensures
        ({
            let after = head + seq![braced(stream, span)] + rest;
            let found = (
                only(guarded(in_attr, seq![keyword] + head, stream, span)),
                (State { in_attr, rest }),
            );
            &&& while_expr(State { in_attr, rest: after }, keyword) == found
            &&& markup(State { in_attr, rest: seq![at, keyword] + after }) == found
        }),
{
    let after = head + seq![braced(stream, span)] + rest;
    lemma_words();
    lemma_keyword(in_attr, at, keyword, after);
    assert(head.skip(0) =~= head);
    lemma_special_at(
        in_attr,
        head,
        stream,
        span,
        rest,
        seq![keyword],
        0,
        "unexpected end of @while expression"@,
    );
}

/// A `@while` without braces is an error, and takes all the input.
pub proof fn law_while_incomplete(in_attr: bool, at: Token, keyword: Token, rest: Seq<Token>)
    requires
        is_punct(at, '@'),
        is_word(keyword, "while"@),
        unbraced(rest),
    ensures
        ({
            let found = (
                Err::<MarkupModel, Failure>(
                    Failure::Message("unexpected end of @while expression"@),
                ),
                (State { in_attr, rest: Seq::<Token>::empty() }),
            );
            &&& while_expr(State { in_attr, rest }, keyword) == found
            &&& markup(State { in_attr, rest: seq![at, keyword] + rest }) == found
        }),
{
    lemma_words();
    lemma_keyword(in_attr, at, keyword, rest);
    assert(rest.skip(0) =~= rest);
    lemma_special_none(
        State { in_attr, rest },
        seq![keyword],
        0,
        "unexpected end of @while expression"@,
    );
}

/// A `@for` has the head that stands before the first braces after its first `in`, keyword
/// included, and the body that stands in them; what follows is left.
pub proof fn law_for(
    in_attr: bool,
    at: Token,
    keyword: Token,
    pattern: Seq<Token>,
    in_keyword: Token,
    expr: Seq<Token>,
    stream: Seq<Token>,
    span: Span,
    rest: Seq<Token>,
)
    requires
        is_punct(at, '@'),
        is_word(keyword, "for"@),
        lacks_word(pattern, "in"@),
        is_word(in_keyword, "in"@),
        unbraced(expr),
    ensures
        ({
            let head = pattern + seq![in_keyword] + expr;
            let after = head + seq![braced(stream, span)] + rest;
            let found = (
                only(guarded(in_attr, seq![keyword] + head, stream, span)),
                (State { in_attr, rest }),
            );
            &&& for_expr(State { in_attr, rest: after }, keyword) == found
            &&& markup(State { in_attr, rest: seq![at, keyword] + after }) == found
        }),
{
    let head = pattern + seq![in_keyword] + expr;
    let after = head + seq![braced(stream, span)] + rest;
    lemma_words();
    lemma_keyword(in_attr, at, keyword, after);
    let k = pattern.len() as int;
    assert forall|i: int| 0 <= i < k implies !is_mark(
        #[trigger] after[i],
        Mark::Word("in"@),
    ) by {
        assert(after[i] == pattern[i]);
    }
    assert(after[k] == in_keyword);
    lemma_find_at(after, Mark::Word("in"@), 0, k);
    assert(head.skip(k + 1) =~= expr);
    lemma_special_at(
        in_attr,
        head,
        stream,
        span,
        rest,
        seq![keyword],
        k + 1,
        "unexpected end of @for expression"@,
    );
}

/// A `@for` without an `in`, or without braces after its first `in`, is an error, and takes all
/// the input.
pub proof fn law_for_incomplete(
    in_attr: bool,
    at: Token,
    keyword: Token,
    rest: Seq<Token>,
    k: int,
)
    requires
        is_punct(at, '@'),
        is_word(keyword, "for"@),
        0 <= k <= rest.len(),
        lacks_word(rest.take(k), "in"@),
        k < rest.len() ==> is_word(rest[k], "in"@) && unbraced(rest.skip(k + 1)),
    ensures
        ({
            let found = (
                Err::<MarkupModel, Failure>(Failure::Message("unexpected end of @for expression"@)),
                (State { in_attr, rest: Seq::<Token>::empty() }),
            );
            &&& for_expr(State { in_attr, rest }, keyword) == found
            &&& markup(State { in_attr, rest: seq![at, keyword] + rest }) == found
        }),
{
    lemma_words();
    lemma_keyword(in_attr, at, keyword, rest);
    assert forall|i: int| 0 <= i < k implies !is_mark(#[trigger] rest[i], Mark::Word("in"@)) by {
        assert(rest.take(k)[i] == rest[i]);
    }
    lemma_find_at(rest, Mark::Word("in"@), 0, k);
    if k < rest.len() {
        lemma_special_none(
            State { in_attr, rest },
            seq![keyword],
            k + 1,
            "unexpected end of @for expression"@,
        );
    }
}

/// A `@match` has the head that stands before its braces, keyword included, and the arms that
/// stand in them, in the same context; what follows is left.
pub proof fn law_match(
    in_attr: bool,
    at: Token,
    keyword: Token,
    head: Seq<Token>,
    stream: Seq<Token>,
    span: Span,
    rest: Seq<Token>,
)
    requires
        is_punct(at, '@'),
        is_word(keyword, "match"@),
        unbraced(head),
    ensures
        ({
            let after = head + seq![braced(stream, span)] + rest;
            let found = (
                match match_arms(State { in_attr, rest: stream }).0 {
                    Ok(arms) => Ok::<MarkupModel, Failure>(
                        MarkupModel::Match { head: seq![keyword] + head, arms, arms_span: span },
                    ),
                    Err(e) => Err(e),
                },
                (State { in_attr, rest }),
            );
            &&& match_expr(State { in_attr, rest: after }, keyword) == found
            &&& markup(State { in_attr, rest: seq![at, keyword] + after }) == found
        }),
{
    let group = braced(stream, span);
    let after = head + seq![group] + rest;
    let s = State { in_attr, rest: after };
    lemma_words();
    lemma_keyword(in_attr, at, keyword, after);
    let n = head.len() as int;
    assert forall|i: int| 0 <= i < n implies !is_mark(#[trigger] after[i], Mark::Body) by {
        assert(after[i] == head[i]);
    }
    assert(after[n] == group);
    lemma_find_at(after, Mark::Body, 0, n);
    assert(after.take(n) =~= head);
    assert(s.skip(n + 1).rest =~= rest);
}

/// A `@match` without braces is an error, and takes all the input.
pub proof fn law_match_incomplete(in_attr: bool, at: Token, keyword: Token, rest: Seq<Token>)
    requires
        is_punct(at, '@'),
        is_word(keyword, "match"@),
        unbraced(rest),
    ensures
        ({
            let found = (
                Err::<MarkupModel, Failure>(
                    Failure::Message("unexpected end of @match expression"@),
                ),
                (State { in_attr, rest: Seq::<Token>::empty() }),
            );
            &&& match_expr(State { in_attr, rest }, keyword) == found
            &&& markup(State { in_attr, rest: seq![at, keyword] + rest }) == found
        }),
{
    lemma_words();
    lemma_keyword(in_attr, at, keyword, rest);
    lemma_find_at(rest, Mark::Body, 0, rest.len() as int);
}

/// A keyword that is none of these is reported by name, and a `@let` as one that is out of place.
pub proof fn law_other_keyword(
    in_attr: bool,
    at: Token,
    text: Seq<char>,
    span: Span,
    rest: Seq<Token>,
)
    requires
        is_punct(at, '@'),
        text != "if"@,
        text != "while"@,
        text != "for"@,
        text != "match"@,
    ensures
        markup(State { in_attr, rest: seq![at, Token::Ident { text, span }] + rest }) == (
            Err::<MarkupModel, Failure>(
                Failure::Message(
                    if text == "let"@ {
                        "@let only works inside a block"@
                    } else {
                        "unknown keyword `@"@ + text + "`"@
                    },
                ),
            ),
            (State { in_attr, rest }),
        ),
{
    lemma_keyword(in_attr, at, Token::Ident { text, span }, rest);
}

/// A branch of an `@if` has the head that stands before its braces, and the body that stands in
/// them. It is put behind the branches that are there, and those after it follow. Where the body
/// is not valid, its error is reported and nothing is added.
pub proof fn law_branch(
    in_attr: bool,
    prefix: Seq<Token>,
    head: Seq<Token>,
    stream: Seq<Token>,
    span: Span,
    rest: Seq<Token>,
    segments: Seq<SpecialModel>,
)
    requires
        unbraced(head),
    ensures
        if_expr(
            State { in_attr, rest: head + seq![braced(stream, span)] + rest },
            prefix,
            segments,
        ) == match guarded(in_attr, prefix + head, stream, span) {
            Ok(segment) => else_if_expr(State { in_attr, rest }, segments.push(segment)),
            Err(e) => (Err(e), segments, (State { in_attr, rest })),
        },
{
    let message = "unexpected end of @if expression"@;
    let s = State { in_attr, rest: head + seq![braced(stream, span)] + rest };
    assert(head.skip(0) =~= head);
    lemma_special_at(in_attr, head, stream, span, rest, prefix, 0, message);
    lemma_special_leaves(s, prefix, 0, message);
    if guarded(in_attr, prefix + head, stream, span) is Ok {
        lemma_leaves_weight(s, State { in_attr, rest }, 1);
    }
}

/// A branch of an `@if` without braces is an error, and takes all the input.
pub proof fn law_branch_incomplete(s: State, prefix: Seq<Token>, segments: Seq<SpecialModel>)
    requires
        unbraced(s.rest),
    ensures
        if_expr(s, prefix, segments) == (
            Err::<(), Failure>(Failure::Message("unexpected end of @if expression"@)),
            segments,
            (State { in_attr: s.in_attr, rest: Seq::empty() }),
        ),
{
    assert(s.rest.skip(0) =~= s.rest);
    lemma_special_none(s, prefix, 0, "unexpected end of @if expression"@);
}

/// Where no `@else` follows, an `@if` is complete, and nothing is consumed.
pub proof fn law_no_else(s: State, segments: Seq<SpecialModel>)
    requires
        !(s.rest.len() > 1 && is_punct(s.rest[0], '@') && is_word(s.rest[1], "else"@)),
    ensures
        else_if_expr(s, segments) == (Ok::<(), Failure>(()), segments, s),
{
}

/// An `@else if` is one more branch, whose head starts with both words.
pub proof fn law_else_if(
    in_attr: bool,
    at: Token,
    else_keyword: Token,
    if_keyword: Token,
    rest: Seq<Token>,
    segments: Seq<SpecialModel>,
)
    requires
        is_punct(at, '@'),
        is_word(else_keyword, "else"@),
        is_word(if_keyword, "if"@),
    ensures
        else_if_expr(
            State { in_attr, rest: seq![at, else_keyword, if_keyword] + rest },
            segments,
        ) == if_expr(State { in_attr, rest }, seq![else_keyword, if_keyword], segments),
{
    let s = State { in_attr, rest: seq![at, else_keyword, if_keyword] + rest };
    assert(s.rest[0] == at);
    assert(s.rest[1] == else_keyword);
    assert(s.skip(2).rest =~= seq![if_keyword] + rest);
    assert(s.skip(2).rest[0] == if_keyword);
    assert(s.skip(2).skip(1).rest =~= rest);
}

/// An `@else` is the last branch: its head is that word alone, its body what stands in the braces
/// right after it, and no further branch is looked for.
pub proof fn law_else(
    in_attr: bool,
    at: Token,
    else_keyword: Token,
    stream: Seq<Token>,
    span: Span,
    rest: Seq<Token>,
    segments: Seq<SpecialModel>,
)
    requires
        is_punct(at, '@'),
        is_word(else_keyword, "else"@),
    ensures
        else_if_expr(
            State { in_attr, rest: seq![at, else_keyword, braced(stream, span)] + rest },
            segments,
        ) == match guarded(in_attr, seq![else_keyword], stream, span) {
            Ok(segment) => (
                Ok::<(), Failure>(()),
                segments.push(segment),
                (State { in_attr, rest }),
            ),
            Err(e) => (Err(e), segments, (State { in_attr, rest })),
        },
{
    let group = braced(stream, span);
    let s = State { in_attr, rest: seq![at, else_keyword, group] + rest };
    assert(s.rest[0] == at);
    assert(s.rest[1] == else_keyword);
    assert(s.skip(2).rest =~= seq![group] + rest);
    assert(s.skip(2).rest[0] == group);
    assert(s.skip(2).skip(1).rest =~= rest);
    assert(group_block(in_attr, group) == block(in_attr, stream, span));
    assert(block(in_attr, stream, span) == match markups(State { in_attr, rest: stream }).0 {
        Ok(markups) => Ok::<BlockModel, Failure>(BlockModel { markups, span }),
        Err(e) => Err(e),
    });
}

/// An `@else` that neither `if` nor braces follow is an error; what follows instead is consumed.
pub proof fn law_else_incomplete(
    in_attr: bool,
    at: Token,
    else_keyword: Token,
    rest: Seq<Token>,
    segments: Seq<SpecialModel>,
)
    requires
        is_punct(at, '@'),
        is_word(else_keyword, "else"@),
        rest.len() > 0 ==> !is_word(rest[0], "if"@) && !is_group(rest[0], Delimiter::Brace),
    ensures
        else_if_expr(State { in_attr, rest: seq![at, else_keyword] + rest }, segments) == (
            Err::<(), Failure>(Failure::Message("expected body for @else"@)),
            segments,
            (State {
                in_attr,
                rest: if rest.len() > 0 {
                    rest.skip(1)
                } else {
                    Seq::empty()
                },
            }),
        ),
{
    let s = State { in_attr, rest: seq![at, else_keyword] + rest };
    assert(s.rest[0] == at);
    assert(s.rest[1] == else_keyword);
    assert(s.skip(2).rest =~= rest);
    assert(s.skip(2).skip(1).rest =~= if rest.len() > 0 {
        rest.skip(1)
    } else {
        Seq::empty()
    });
}

/// An `@if` is all its branches, the first of which starts with the keyword.
pub proof fn law_if(in_attr: bool, at: Token, keyword: Token, rest: Seq<Token>)
    requires
        is_punct(at, '@'),
        is_word(keyword, "if"@),
    ensures
        markup(State { in_attr, rest: seq![at, keyword] + rest }) == match if_expr(
            State { in_attr, rest },
            seq![keyword],
            Seq::empty(),
        ) {
            (Ok(_), segments, s) => (
                Ok::<MarkupModel, Failure>(MarkupModel::Special { segments }),
                s,
            ),
            (Err(e), _, s) => (Err(e), s),
        },
{
    lemma_keyword(in_attr, at, keyword, rest);
}

/// An `@if` with one branch, and one with an `@else` too, where nothing else follows: each branch
/// has its own head and body.
pub proof fn law_if_else(
    in_attr: bool,
    at: Token,
    keyword: Token,
    head: Seq<Token>,
    stream: Seq<Token>,
    span: Span,
    else_keyword: Token,
    else_stream: Seq<Token>,
    else_span: Span,
    rest: Seq<Token>,
)
    requires
        is_punct(at, '@'),
        is_word(keyword, "if"@),
        unbraced(head),
        is_word(else_keyword, "else"@),
    ensures
        ({
            let first = guarded(in_attr, seq![keyword] + head, stream, span);
            let second = guarded(in_attr, seq![else_keyword], else_stream, else_span);
            let start = seq![at, keyword] + head + seq![braced(stream, span)];
            let and_else = seq![at, else_keyword, braced(else_stream, else_span)];
            &&& !(rest.len() > 1 && is_punct(rest[0], '@') && is_word(rest[1], "else"@)) ==> markup(
                State { in_attr, rest: start + rest },
            ) == (only(first), (State { in_attr, rest }))
            &&& first is Ok ==> markup(State { in_attr, rest: start + and_else + rest }) == (
                match second {
                    Ok(second) => Ok::<MarkupModel, Failure>(
                        MarkupModel::Special { segments: seq![first->Ok_0, second] },
                    ),
                    Err(e) => Err(e),
                },
                (State { in_attr, rest }),
            )
        }),
{
    let group = braced(stream, span);
    let first = guarded(in_attr, seq![keyword] + head, stream, span);
    let second = guarded(in_attr, seq![else_keyword], else_stream, else_span);
    let start = seq![at, keyword] + head + seq![group];
    let and_else = seq![at, else_keyword, braced(else_stream, else_span)];
    assert(start + rest =~= seq![at, keyword] + (head + seq![group] + rest));
    assert(start + and_else + rest =~= seq![at, keyword] + (head + seq![group] + (and_else
        + rest)));
    law_if(in_attr, at, keyword, head + seq![group] + rest);
    law_if(in_attr, at, keyword, head + seq![group] + (and_else + rest));
    law_branch(in_attr, seq![keyword], head, stream, span, rest, Seq::empty());
    law_branch(in_attr, seq![keyword], head, stream, span, and_else + rest, Seq::empty());
    if let Ok(segment) = first {
        assert(Seq::empty().push(segment) =~= seq![segment]);
        if !(rest.len() > 1 && is_punct(rest[0], '@') && is_word(rest[1], "else"@)) {
            law_no_else(State { in_attr, rest }, seq![segment]);
        }
        law_else(
            in_attr,
            at,
            else_keyword,
            else_stream,
            else_span,
            rest,
            seq![segment],
        );
        if let Ok(other) = second {
            assert(seq![segment].push(other) =~= seq![segment, other]);
        }
    }
}

/// Outside an attribute, the body of a guarded block is what its braces hold, parsed as a
/// template: the whole is valid exactly if the body is, and then is that one block.
pub proof fn law_guarded_template(
    at: Token,
    keyword: Token,
    head: Seq<Token>,
    stream: Seq<Token>,
    span: Span,
    k: int,
)
    requires
        is_punct(at, '@'),
        is_word(keyword, "if"@) || is_word(keyword, "while"@) ==> unbraced(head),
        is_word(keyword, "for"@) ==> 0 <= k < head.len() && lacks_word(head.take(k), "in"@)
            && is_word(head[k], "in"@) && unbraced(head.skip(k + 1)),
        is_word(keyword, "if"@) || is_word(keyword, "while"@) || is_word(keyword, "for"@),
    ensures
        template(seq![at, keyword] + head + seq![braced(stream, span)]) == match template(
            stream,
        ) {
            Ok(markups) => Ok::<Seq<MarkupModel>, Failure>(
                seq![
                    MarkupModel::Special {
                        segments: seq![
                            SpecialModel {
                                head: seq![keyword] + head,
                                body: BlockModel { markups, span },
                            },
                        ],
                    },
                ],
            ),
            Err(e) => Err(e),
        },
{
    let none: Seq<Token> = Seq::empty();
    let group = braced(stream, span);
    let tokens = seq![at, keyword] + head + seq![group];
    let after = head + seq![group] + none;
    assert(tokens =~= seq![at, keyword] + after);
    lemma_words();
    assert(tokens[0] == at);
    assert(tokens[1] == keyword);
    if is_word(keyword, "if"@) {
        law_if_else(false, at, keyword, head, stream, span, Token::Ident {
            text: "else"@,
            span,
        }, none, span, none);
        assert(tokens + none =~= tokens);
    } else if is_word(keyword, "while"@) {
        law_while(false, at, keyword, head, stream, span, none);
    } else {
        law_for(
            false,
            at,
            keyword,
            head.take(k),
            head[k],
            head.skip(k + 1),
            stream,
            span,
            none,
        );
        assert(head.take(k) + seq![head[k]] + head.skip(k + 1) =~= head);
    }
    law_one_markup(tokens);
}

} // verus!
