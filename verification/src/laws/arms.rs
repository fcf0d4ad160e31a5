//! Arms of a `@match`: put together from pattern and body, they are read back with both.
use vstd::prelude::*;

use crate::ast::SpecialModel;
use crate::extend::lemma_find_plus;
use crate::extend::lemma_plus_skip;
use crate::extend::plus;
use crate::grammar::block;
use crate::grammar::group_block;
use crate::grammar::joined_span;
use crate::grammar::match_arm;
use crate::grammar::match_arms;
use crate::laws::forms::braced;
use crate::laws::forms::guarded;
use crate::laws::lemma_arrow_at;
use crate::laws::sequence::lemma_find_at;
use crate::laws::sequence::preceded;
use crate::progress::lemma_leaves_weight;
use crate::progress::lemma_match_arm_leaves;
use crate::scan::find;
use crate::scan::find_arrow;
use crate::scan::is_arrow;
use crate::scan::is_mark;
use crate::scan::lemma_find_arrow_bound;
use crate::scan::lemma_find_arrow_first;
use crate::scan::lemma_find_bound;
use crate::scan::starts_with;
use crate::scan::Failure;
use crate::scan::Mark;
use crate::scan::State;
use crate::token::is_group;
use crate::token::is_punct;
use crate::token::span_of;
use crate::token::Delimiter;
use crate::token::Spacing;
use crate::token::Span;
use crate::token::Token;
use crate::weight::weight;

verus! {

/// Whether a `=` that is joined to a `>` stands at this index.
pub open spec fn arrow_at(tokens: Seq<Token>, i: int) -> bool {
    &&& 0 <= i < tokens.len() - 1
    &&& tokens[i] matches Token::Punct { ch, spacing, .. } && ch == '=' && spacing == Spacing::Joint
    &&& tokens[i + 1] matches Token::Punct { ch, .. } && ch == '>'
}

/// Whether the tokens are a pattern and a `=>`, and hold no other `=>`.
pub open spec fn is_pattern(tokens: Seq<Token>) -> bool {
    &&& tokens.len() >= 2
    &&& forall|i: int| #[trigger] arrow_at(tokens, i) <==> i == tokens.len() - 2
}

/// Whether the tokens are the body of an arm without braces: at least one token that is no braced
/// block, and no `,` after that.
pub open spec fn is_plain_body(tokens: Seq<Token>) -> bool {
    &&& tokens.len() > 0
    &&& !is_group(tokens[0], Delimiter::Brace)
    &&& forall|i: int| 0 < i < tokens.len() ==> !is_punct(#[trigger] tokens[i], ',')
}

/// A pattern ends at its `=>`, whatever follows.
proof fn lemma_pattern(pattern: Seq<Token>, rest: Seq<Token>)
    requires
        is_pattern(pattern),
    ensures
        find_arrow(pattern + rest, 0) == pattern.len() - 2,
        (pattern + rest).take(pattern.len() as int) == pattern,
{
    assert forall|i: int| is_arrow(pattern, i) <==> i == pattern.len() - 2 by {
        assert(arrow_at(pattern, i) == is_arrow(pattern, i));
    }
    lemma_arrow_at(pattern, rest);
    assert((pattern + rest).take(pattern.len() as int) =~= pattern);
}

/// An arm with a braced body: its pattern, `=>` included, and what stands in the braces. A comma
/// right after the braces is consumed if the body is valid; what follows is left.
pub proof fn law_braced_arm(
    in_attr: bool,
    pattern: Seq<Token>,
    stream: Seq<Token>,
    span: Span,
    rest: Seq<Token>,
)
    requires
        is_pattern(pattern),
    ensures
        match_arm(State { in_attr, rest: pattern + seq![braced(stream, span)] + rest })
            == match guarded(in_attr, pattern, stream, span) {
            Ok(arm) => (
                Ok::<Option<SpecialModel>, Failure>(Some(arm)),
                (State {
                    in_attr,
                    rest: if rest.len() > 0 && is_punct(rest[0], ',') {
                        rest.skip(1)
                    } else {
                        rest
                    },
                }),
            ),
            Err(e) => (Err(e), (State { in_attr, rest })),
        },
{
    let group = braced(stream, span);
    let s = State { in_attr, rest: pattern + seq![group] + rest };
    let start = pattern.len() as int;
    assert(s.rest =~= pattern + (seq![group] + rest));
    lemma_pattern(pattern, seq![group] + rest);
    assert(s.rest[start] == group);
    assert(s.skip(start + 1).rest =~= rest);
    assert(group_block(in_attr, group) == block(in_attr, stream, span));
    lemma_block(in_attr, pattern, stream, span);
}

proof fn lemma_block(in_attr: bool, head: Seq<Token>, stream: Seq<Token>, span: Span)
    ensures
        guarded(in_attr, head, stream, span) == match block(in_attr, stream, span) {
            Ok(body) => Ok::<SpecialModel, Failure>(SpecialModel { head, body }),
            Err(e) => Err(e),
        },
{
}

/// An arm without braces: its pattern, `=>` included, and the body up to the first comma after its
/// first token, parsed on its own. The comma is consumed, and exactly what follows is left.
pub proof fn law_plain_arm(
    in_attr: bool,
    pattern: Seq<Token>,
    body: Seq<Token>,
    comma: Token,
    rest: Seq<Token>,
)
    requires
        is_pattern(pattern),
        is_plain_body(body),
        is_punct(comma, ','),
    ensures
        match_arm(State { in_attr, rest: pattern + body + seq![comma] + rest }) == (
            match guarded(in_attr, pattern, body, joined_span(body)) {
                Ok(arm) => Ok::<Option<SpecialModel>, Failure>(Some(arm)),
                Err(e) => Err(e),
            },
            (State { in_attr, rest }),
        ),
{
    let s = State { in_attr, rest: pattern + body + seq![comma] + rest };
    let start = pattern.len() as int;
    let end = start + body.len();
    assert(s.rest =~= pattern + (body + seq![comma] + rest));
    lemma_pattern(pattern, body + seq![comma] + rest);
    assert(s.rest[start] == body[0]);
    assert forall|i: int| start + 1 <= i < end implies !is_mark(
        #[trigger] s.rest[i],
        Mark::Punct(','),
    ) by {
        assert(s.rest[i] == body[i - start]);
    }
    assert(s.rest[end] == comma);
    lemma_find_at(s.rest, Mark::Punct(','), start + 1, end);
    assert(s.rest.subrange(start, end) =~= body);
    assert(s.skip(end + 1).rest =~= rest);
    lemma_block(in_attr, pattern, body, joined_span(body));
}

/// A pattern without a body, or with a body without braces that no comma ends, is an error, and
/// takes all the input.
pub proof fn law_arm_incomplete(in_attr: bool, pattern: Seq<Token>, body: Seq<Token>)
    requires
        is_pattern(pattern),
        body.len() == 0 || is_plain_body(body),
    ensures
        match_arm(State { in_attr, rest: pattern + body }) == (
            Err::<Option<SpecialModel>, Failure>(
                Failure::Message("unexpected end of @match arm"@),
            ),
            (State { in_attr, rest: Seq::empty() }),
        ),
{
    let s = State { in_attr, rest: pattern + body };
    let start = pattern.len() as int;
    lemma_pattern(pattern, body);
    if body.len() > 0 {
        assert(s.rest[start] == body[0]);
        assert forall|i: int| start + 1 <= i < s.rest.len() implies !is_mark(
            #[trigger] s.rest[i],
            Mark::Punct(','),
        ) by {
            assert(s.rest[i] == body[i - start]);
        }
        lemma_find_at(s.rest, Mark::Punct(','), start + 1, s.rest.len() as int);
    }
}

/// Without a `=>` there is no arm: at the end of the input that is fine, and otherwise an error
/// that takes all the input.
pub proof fn law_no_arm(s: State)
    requires
        forall|i: int| !#[trigger] arrow_at(s.rest, i),
    ensures
        match_arm(s) == (
            if s.rest.len() == 0 {
                Ok::<Option<SpecialModel>, Failure>(None)
            } else {
                Err(Failure::Message("unexpected end of @match pattern"@))
            },
            (State { in_attr: s.in_attr, rest: Seq::empty() }),
        ),
{
    lemma_find_arrow_bound(s.rest, 0);
    let arrow = find_arrow(s.rest, 0);
    assert(!arrow_at(s.rest, arrow));
    if s.rest.len() == 0 {
        assert(s.rest =~= Seq::empty());
    }
}

/// The arms are the first arm, and the arms of what that leaves. An error in the first is the error
/// of them all.
pub proof fn law_next_arm(s: State)
    ensures
        match_arms(s) == match match_arm(s) {
            (Ok(Some(arm)), s1) => preceded(arm, match_arms(s1)),
            (Ok(None), s1) => (Ok(Seq::empty()), s1),
            (Err(e), s1) => (Err(e), s1),
        },
{
    lemma_match_arm_leaves(s);
    if let (Ok(Some(_)), s1) = match_arm(s) {
        lemma_leaves_weight(s, s1, 1);
    }
}

/// Arms side by side are the arms of the first stretch, and behind them those of the second,
/// unless the second starts with a comma: that could belong to the first.
pub proof fn law_arms_side_by_side(in_attr: bool, a: Seq<Token>, b: Seq<Token>)
    requires
        match_arms(State { in_attr, rest: a }).0 is Ok,
        b.len() > 0 ==> !is_punct(b[0], ','),
    ensures
        ({
            let first = match_arms(State { in_attr, rest: a }).0->Ok_0;
            match_arms(State { in_attr, rest: a + b }) == match match_arms(
                State { in_attr, rest: b },
            ) {
                (Ok(second), s) => (Ok::<Seq<SpecialModel>, Failure>(first + second), s),
                (Err(e), s) => (Err(e), s),
            }
        }),
    decreases weight(a),
{
    let s = State { in_attr, rest: a };
    law_next_arm(s);
    lemma_match_arm_leaves(s);
    match match_arm(s) {
        (Ok(Some(arm)), s1) => {
            lemma_leaves_weight(s, s1, 1);
            lemma_match_arm_plus(s, b);
            law_next_arm(plus(s, b));
            law_arms_side_by_side(in_attr, s1.rest, b);
            let rest = match_arms(s1).0->Ok_0;
            if let Ok(second) = match_arms(State { in_attr, rest: b }).0 {
                assert(seq![arm] + (rest + second) =~= (seq![arm] + rest) + second);
            }
        },
        _ => {
            assert(a.len() == 0);
            assert(a + b =~= b);
            if let Ok(second) = match_arms(State { in_attr, rest: b }).0 {
                assert(Seq::<SpecialModel>::empty() + second =~= second);
            }
        },
    }
}

/// An arm is the same with more tokens behind.
proof fn lemma_match_arm_plus(s: State, more: Seq<Token>)
    requires
        match_arm(s).0 matches Ok(Some(_)),
        !starts_with(more, ','),
    ensures
        match_arm(plus(s, more)) == (match_arm(s).0, plus(match_arm(s).1, more)),
{
    let p = plus(s, more);
    let arrow = find_arrow(s.rest, 0);
    let start = arrow + 2;
    lemma_find_arrow_bound(s.rest, 0);
    lemma_find_arrow_first(s.rest, 0);
    lemma_find_arrow_bound(p.rest, 0);
    lemma_find_arrow_first(p.rest, 0);
    assert forall|i: int| 0 <= i <= arrow implies is_arrow(p.rest, i) == is_arrow(s.rest, i) by {
        assert(p.rest[i] == s.rest[i]);
        assert(p.rest[i + 1] == s.rest[i + 1]);
    }
    assert(find_arrow(p.rest, 0) == arrow) by {
        let other = find_arrow(p.rest, 0);
        assert(is_arrow(p.rest, arrow));
        assert(other < arrow ==> is_arrow(s.rest, other));
    }
    assert(p.rest.take(start) =~= s.rest.take(start));
    assert(p.rest[start] == s.rest[start]);
    if is_group(s.rest[start], Delimiter::Brace) {
        let s1 = s.skip(start + 1);
        lemma_plus_skip(s, more, start + 1);
        if s1.rest.len() > 0 {
            assert(plus(s1, more).rest[0] == s1.rest[0]);
            lemma_plus_skip(s1, more, 1);
        } else {
            assert(s1.rest + more =~= more);
        }
    } else {
        let comma = find(s.rest, Mark::Punct(','), start + 1);
        lemma_find_bound(s.rest, Mark::Punct(','), start + 1);
        lemma_find_plus(s.rest, more, Mark::Punct(','), start + 1);
        lemma_plus_skip(s, more, comma + 1);
        assert(p.rest.subrange(start, comma) =~= s.rest.subrange(start, comma));
    }
}

/// The span of the body of an arm without braces lies in the file of its first token. It covers
/// every token of that file, and no more than that: any span that does so covers it.
pub proof fn law_body_span(body: Seq<Token>)
    requires
        body.len() > 0,
    ensures
        joined_span(body).file == span_of(body[0]).file,
        forall|i: int|
            0 <= i < body.len() && span_of(#[trigger] body[i]).file == span_of(body[0]).file
                ==> joined_span(body).lo <= span_of(body[i]).lo && span_of(body[i]).hi
                <= joined_span(body).hi,
        forall|c: Span|
            (forall|i: int|
                0 <= i < body.len() && span_of(#[trigger] body[i]).file == span_of(body[0]).file
                    ==> c.file == span_of(body[i]).file && c.lo <= span_of(body[i]).lo && span_of(
                    body[i],
                ).hi <= c.hi) ==> #[trigger] c.covers(joined_span(body)),
    decreases body.len(),
{
    if body.len() > 1 {
        let before = body.drop_last();
        law_body_span(before);
        assert(before[0] == body[0]);
        let joined = joined_span(before);
        assert forall|i: int|
            0 <= i < body.len() && span_of(#[trigger] body[i]).file == span_of(
                body[0],
            ).file implies joined_span(body).lo <= span_of(body[i]).lo && span_of(body[i]).hi
            <= joined_span(body).hi by {
            if i < before.len() {
                assert(before[i] == body[i]);
            }
        }
        assert forall|c: Span|
            (forall|i: int|
                0 <= i < body.len() && span_of(#[trigger] body[i]).file == span_of(body[0]).file
                    ==> c.file == span_of(body[i]).file && c.lo <= span_of(body[i]).lo && span_of(
                    body[i],
                ).hi <= c.hi) implies #[trigger] c.covers(joined_span(body)) by {
            assert forall|i: int|
                0 <= i < before.len() && span_of(#[trigger] before[i]).file == span_of(
                    before[0],
                ).file implies c.file == span_of(before[i]).file && c.lo <= span_of(before[i]).lo
                && span_of(before[i]).hi <= c.hi by {
                assert(before[i] == body[i]);
            }
            assert(c.covers(joined));
            assert(body.last() == body[body.len() - 1]);
        }
    }
}

} // verus!
