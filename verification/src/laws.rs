//! What a template means, beyond single constructs; and, module by module, what each construct is
//! parsed to, over all the ways in which it can be put together.
use vstd::prelude::*;

use crate::ast::AttrTypeModel;
use crate::ast::AttrsModel;
use crate::ast::BlockModel;
use crate::ast::MarkupModel;
use crate::ast::SpecialModel;
use crate::extend::law_side_by_side;
use crate::grammar::attrs;
use crate::grammar::block;
use crate::grammar::element;
use crate::grammar::else_if_expr;
use crate::grammar::group_block;
use crate::grammar::if_expr;
use crate::grammar::let_expr;
use crate::grammar::literal;
use crate::grammar::markup;
use crate::grammar::markups;
use crate::grammar::match_arm;
use crate::grammar::match_arms;
use crate::grammar::no_attrs;
use crate::grammar::special;
use crate::grammar::special_form;
use crate::grammar::template;
use crate::grammar::with_attr;
use crate::grammar::with_class;
use crate::grammar::with_id;
use crate::progress::leaves;
use crate::progress::lemma_attr_toggler_leaves;
use crate::progress::lemma_leaves_skip;
use crate::progress::lemma_leaves_trans;
use crate::progress::lemma_leaves_weight;
use crate::progress::lemma_markup_leaves;
use crate::progress::lemma_markups_leaves;
use crate::progress::lemma_match_arms_leaves;
use crate::progress::lemma_name_leaves;
use crate::progress::lemma_namespaced_name_leaves;
use crate::progress::lemma_special_leaves;
use crate::scan::attr_toggler;
use crate::scan::find;
use crate::scan::find_arrow;
use crate::scan::is_arrow;
use crate::scan::lemma_find_arrow_bound;
use crate::scan::lemma_find_arrow_first;
use crate::scan::lemma_find_bound;
use crate::scan::lemma_find_first;
use crate::scan::lemma_name_end_bound;
use crate::scan::name;
use crate::scan::name_end;
use crate::scan::name_goes_on;
use crate::scan::namespaced_name;
use crate::scan::starts_with;
use crate::scan::starts_with_keyword;
use crate::scan::Failure;
use crate::scan::Mark;
use crate::scan::State;
use crate::token::is_group;
use crate::token::is_ident;
use crate::token::is_punct;
use crate::token::is_word;
use crate::token::Delimiter;
use crate::token::Span;
use crate::token::Token;
use crate::weight::weight;

pub mod arms;
pub mod attributes;
pub mod elements;
pub mod forms;
pub mod names;
pub mod sequence;

verus! {

/// An empty template is empty markup.
proof fn lemma_empty()
    ensures
        template(Seq::empty()) == Ok::<Seq<MarkupModel>, Failure>(Seq::empty()),
{
}

/// Parsing only moves forward: a piece of markup takes at least one token from the front of the
/// input and leaves the context as it was; without one, no token is put back.
pub proof fn law_forward(s: State)
    ensures
        leaves(s, markup(s).1, 0),
        markup(s) matches (Ok(_), s1) ==> leaves(s, s1, 1) && s1.in_attr == s.in_attr,
{
    lemma_markup_leaves(s);
}

/// Valid markup takes all the input, and so do valid arms of a `@match`.
pub proof fn law_all_input(s: State)
    ensures
        markups(s) matches (Ok(_), s1) ==> s1 == s.end(),
        match_arms(s) matches (Ok(_), s1) ==> s1 == s.end(),
{
    lemma_markups_leaves(s);
    lemma_match_arms_leaves(s);
}

/// A `@let` works only inside a block: it is no markup by itself.
pub proof fn law_let_only_in_block(s: State)
    requires
        starts_with_keyword(s.rest, "let"@),
    ensures
        markup(s).0 == Err::<MarkupModel, Failure>(
            Failure::Message("@let only works inside a block"@),
        ),
{
    reveal_strlit("let");
    reveal_strlit("if");
    reveal_strlit("while");
    reveal_strlit("for");
    reveal_strlit("match");
    assert("let"@[0] == 'l');
    assert("if"@[0] == 'i');
    assert("while"@[0] == 'w');
    assert("for"@[0] == 'f');
    assert("match"@[0] == 'm');
}

/// A `;` in front of a template makes no difference.
pub proof fn law_leading_semicolon(semi: Token, tokens: Seq<Token>)
    requires
        is_punct(semi, ';'),
    ensures
        template(seq![semi] + tokens) == template(tokens),
{
    let s = State { in_attr: false, rest: seq![semi] + tokens };
    assert(s.skip(1) =~= State { in_attr: false, rest: tokens });
}

/// A `;` behind a valid template makes no difference.
pub proof fn law_trailing_semicolon(semi: Token, tokens: Seq<Token>)
    requires
        is_punct(semi, ';'),
        template(tokens) is Ok,
    ensures
        template(tokens + seq![semi]) == template(tokens),
{
    law_side_by_side(tokens, seq![semi]);
    law_leading_semicolon(semi, Seq::empty());
    assert(seq![semi] + Seq::<Token>::empty() =~= seq![semi]);
    lemma_empty();
    assert(template(tokens)->Ok_0 + Seq::<MarkupModel>::empty() =~= template(tokens)->Ok_0);
}

/// Braces around a template make a block of it, and change nothing else.
pub proof fn law_braces(tokens: Seq<Token>, span: Span)
    ensures
        ({
            let group = Token::Group { delimiter: Delimiter::Brace, stream: tokens, span };
            template(seq![group]) == match template(tokens) {
                Ok(markups) => Ok(seq![MarkupModel::Block(BlockModel { markups, span })]),
                Err(e) => Err(e),
            }
        }),
{
    let group = Token::Group { delimiter: Delimiter::Brace, stream: tokens, span };
    let s = State { in_attr: false, rest: seq![group] };
    assert(s.skip(1) =~= s.end());
    lemma_markup_leaves(s);
    assert(group_block(false, group) == block(false, tokens, span));
    if markup(s).0 is Ok {
        lemma_leaves_weight(s, s.skip(1), 1);
        assert(markups(s.skip(1)) == (Ok::<Seq<MarkupModel>, Failure>(Seq::empty()), s.end()));
        let found = markup(s).0->Ok_0;
        assert(seq![found] + Seq::<MarkupModel>::empty() =~= seq![found]);
    }
}

/// Whatever stands in parentheses is spliced as it is.
pub proof fn law_splice(tokens: Seq<Token>, span: Span)
    ensures
        ({
            let group = Token::Group { delimiter: Delimiter::Parenthesis, stream: tokens, span };
            template(seq![group]) == Ok::<Seq<MarkupModel>, Failure>(
                seq![MarkupModel::Splice { expr: tokens }],
            )
        }),
{
    let group = Token::Group { delimiter: Delimiter::Parenthesis, stream: tokens, span };
    let s = State { in_attr: false, rest: seq![group] };
    assert(s.skip(1) =~= s.end());
    lemma_markup_leaves(s);
    lemma_leaves_weight(s, s.skip(1), 1);
    let found = MarkupModel::Splice { expr: tokens };
    assert(markups(s.skip(1)) == (Ok::<Seq<MarkupModel>, Failure>(Seq::empty()), s.end()));
    assert(seq![found] + Seq::<MarkupModel>::empty() =~= seq![found]);
}

/// A literal alone is a template if it is a string, and renders what the string denotes.
pub proof fn law_literal(text: Seq<char>, span: Span)
    ensures
        template(seq![Token::Literal { text, span }]) == match literal(text, span) {
            Ok(found) => Ok(seq![found]),
            Err(e) => Err(e),
        },
{
    let s = State { in_attr: false, rest: seq![Token::Literal { text, span }] };
    assert(s.skip(1) =~= s.end());
    lemma_markup_leaves(s);
    if let Ok(found) = literal(text, span) {
        lemma_leaves_weight(s, s.skip(1), 1);
        assert(markups(s.skip(1)) == (Ok::<Seq<MarkupModel>, Failure>(Seq::empty()), s.end()));
        assert(seq![found] + Seq::<MarkupModel>::empty() =~= seq![found]);
    }
}

/// A `;` or a `/` right after the name of an element makes it a void element without attributes.
pub proof fn law_void_element(s: State, tag: Seq<Token>)
    requires
        !s.in_attr,
        starts_with(s.rest, ';') || starts_with(s.rest, '/'),
    ensures
        element(s, tag) == (
            Ok::<MarkupModel, Failure>(
                MarkupModel::Element { name: tag, attrs: no_attrs(), body: None },
            ),
            s.skip(1),
        ),
{
    assert(name(s).1 == s);
    assert(attrs(s, no_attrs()) == (Ok::<AttrsModel, Failure>(no_attrs()), s));
}

/// Names are taken as they are written: a name and what is left make up the input.
pub proof fn law_names_verbatim(s: State)
    ensures
        name(s) matches (Ok(found), s1) ==> s.rest == found + s1.rest,
        namespaced_name(s) matches (Ok(found), s1) ==> s.rest == found + s1.rest,
{
    lemma_name_verbatim(s);
    if let (Ok(first), s1) = name(s) {
        if starts_with(s1.rest, ':') {
            lemma_name_verbatim(s1.skip(1));
            if let (Ok(second), s2) = name(s1.skip(1)) {
                assert(s1.rest =~= seq![s1.rest[0]] + s1.skip(1).rest);
                assert(s.rest =~= (first.push(s1.rest[0]) + second) + s2.rest);
            }
        }
    }
}

/// A name without a namespace, and what is left, make up the input.
proof fn lemma_name_verbatim(s: State)
    ensures
        name(s) matches (Ok(found), s1) ==> s.rest == found + s1.rest,
{
    if let (Ok(found), s1) = name(s) {
        lemma_name_end_bound(s.rest, 1);
        assert(s.rest =~= found + s1.rest);
    }
}

/// A name is an identifier, then hyphens and identifiers of which each stands right after a
/// hyphen; it goes on as long as that holds.
pub proof fn law_name_shape(s: State)
    ensures
        name(s) matches (Ok(found), s1) ==> {
            &&& found.len() > 0
            &&& is_ident(found[0])
            &&& forall|i: int| 0 < i < found.len() ==> #[trigger] name_goes_on(found, i)
            &&& s1.rest.len() > 0 ==> !name_goes_on(found.push(s1.rest[0]), found.len() as int)
        },
{
    if let (Ok(found), s1) = name(s) {
        let n = name_end(s.rest, 1);
        lemma_name_end_bound(s.rest, 1);
        lemma_name_goes_on(s.rest, 1);
        assert forall|i: int| 0 < i < found.len() implies #[trigger] name_goes_on(found, i) by {
            assert(name_goes_on(s.rest, i));
            assert(found[i] == s.rest[i]);
            assert(found[i - 1] == s.rest[i - 1]);
        }
        if s1.rest.len() > 0 {
            assert(s1.rest[0] == s.rest[n]);
            assert(found.push(s1.rest[0])[n - 1] == s.rest[n - 1]);
        }
    }
}

/// A name goes on up to its end, and not there.
proof fn lemma_name_goes_on(tokens: Seq<Token>, n: int)
    ensures
        forall|i: int| n <= i < name_end(tokens, n) ==> #[trigger] name_goes_on(tokens, i),
        !name_goes_on(tokens, name_end(tokens, n)),
    decreases tokens.len() - n,
{
    if name_goes_on(tokens, n) {
        lemma_name_goes_on(tokens, n + 1);
    }
}

/// A `@let` is taken as it is written, from its keyword to the `;`.
pub proof fn law_let_verbatim(s: State, keyword: Token)
    ensures
        let_expr(s, keyword) matches (Ok(MarkupModel::Let { tokens }), s1) ==> {
            &&& seq![keyword] + s.rest == tokens + s1.rest
            &&& is_punct(tokens.last(), ';')
        },
        let_expr(s, keyword) matches (Ok(found), _) ==> found is Let,
{
    if let (Ok(MarkupModel::Let { tokens }), s1) = let_expr(s, keyword) {
        let eq = find(s.rest, Mark::Punct('='), 0);
        let semi = find(s.rest, Mark::Punct(';'), eq + 1);
        lemma_find_bound(s.rest, Mark::Punct('='), 0);
        lemma_find_bound(s.rest, Mark::Punct(';'), eq + 1);
        lemma_find_first(s.rest, Mark::Punct(';'), eq + 1);
        assert(seq![keyword] + s.rest =~= tokens + s1.rest);
    }
}

/// As many attributes are taken as there are: no attribute follows the attributes.
pub proof fn law_attrs_maximal(s: State, seen: AttrsModel)
    ensures
        attrs(s, seen) matches (Ok(found), s1) ==> attrs(s1, found) == (
            Ok::<AttrsModel, Failure>(found),
            s1,
        ),
    decreases weight(s.rest),
{
    lemma_namespaced_name_leaves(s);
    lemma_leaves_skip(s, 1);
    let (found, s1) = namespaced_name(s);
    match found {
        Ok(found) => {
            let after = s1.skip(1);
            lemma_leaves_skip(s1, 1);
            if s1.rest.len() > 0 {
                lemma_leaves_trans(s, s1, after, 0, 1);
                lemma_leaves_weight(s, after, 1);
            }
            if starts_with(s1.rest, '=') {
                let v = State { in_attr: true, rest: after.rest };
                lemma_markup_leaves(v);
                if let (Ok(value), s2) = markup(v) {
                    lemma_leaves_weight(v, s2, 1);
                    law_attrs_maximal(
                        State { in_attr: s.in_attr, rest: s2.rest },
                        with_attr(seen, found, AttrTypeModel::Normal { value }),
                    );
                }
            } else if starts_with(s1.rest, '?') {
                let (toggler, s2) = attr_toggler(after);
                lemma_attr_toggler_leaves(after);
                lemma_leaves_weight(after, s2, 0);
                law_attrs_maximal(s2, with_attr(seen, found, AttrTypeModel::Empty { toggler }));
            }
        },
        Err(_) => {
            let after = s.skip(1);
            lemma_name_leaves(after);
            if let (Ok(found), s2) = name(after) {
                lemma_leaves_weight(after, s2, 1);
                lemma_leaves_weight(s, after, 0);
                if starts_with(s.rest, '.') {
                    let (toggler, s3) = attr_toggler(s2);
                    lemma_attr_toggler_leaves(s2);
                    lemma_leaves_weight(s2, s3, 0);
                    law_attrs_maximal(s3, with_class(seen, found, toggler));
                } else if starts_with(s.rest, '#') {
                    law_attrs_maximal(s2, with_id(seen, found));
                }
            }
        },
    }
}

/// Whether the guarded blocks from `from` on are the branches that may follow an `@if`: each is
/// an `@else if`, but the last one may also be a plain `@else`.
pub open spec fn is_else_chain(segments: Seq<SpecialModel>, from: int) -> bool {
    forall|i: int|
        from <= i < segments.len() ==> is_else((#[trigger] segments[i]).head, i + 1
            == segments.len())
}

/// Whether this is the head of an `@else if`, or, if it is the last branch, of a plain `@else`.
pub open spec fn is_else(head: Seq<Token>, last: bool) -> bool {
    ||| head.len() >= 2 && is_word(head[0], "else"@) && is_word(head[1], "if"@)
    ||| last && head.len() == 1 && is_word(head[0], "else"@)
}

/// Whether the head is `prefix` and then tokens among which there is no braced block.
pub open spec fn is_head(head: Seq<Token>, prefix: Seq<Token>) -> bool {
    &&& prefix.is_prefix_of(head)
    &&& forall|i: int|
        prefix.len() <= i < head.len() ==> !is_group(#[trigger] head[i], Delimiter::Brace)
}

/// Where a guarded block is found, its head goes up to the first braced block.
proof fn lemma_special_head(s: State, prefix: Seq<Token>, message: Seq<char>)
    ensures
        special(s, prefix, 0, message) matches (Ok(segment), _) ==> is_head(segment.head, prefix),
{
    if let (Ok(segment), _) = special(s, prefix, 0, message) {
        let i = find(s.rest, Mark::Body, 0);
        lemma_find_bound(s.rest, Mark::Body, 0);
        lemma_find_first(s.rest, Mark::Body, 0);
        assert(segment.head == prefix + s.rest.take(i));
        assert forall|j: int| prefix.len() <= j < segment.head.len() implies !is_group(
            #[trigger] segment.head[j],
            Delimiter::Brace,
        ) by {
            assert(segment.head[j] == s.rest[j - prefix.len()]);
        }
    }
}

/// The branches of an `@if` are added behind those that are there, which stay as they are whether
/// or not the `@if` is valid: first the one that begins with the given tokens, then `@else if`s,
/// and at most one plain `@else`, which comes last. A valid `@if` has at least the first.
pub proof fn law_if_expr(s: State, prefix: Seq<Token>, segments: Seq<SpecialModel>)
    ensures
        ({
            let (result, all, _) = if_expr(s, prefix, segments);
            let n = segments.len() as int;
            &&& segments.is_prefix_of(all)
            &&& all.len() > n ==> is_head(all[n].head, prefix)
            &&& is_else_chain(all, n + 1)
            &&& result is Ok ==> all.len() > n
        }),
    decreases weight(s.rest), 1int,
{
    let message = "unexpected end of @if expression"@;
    lemma_special_leaves(s, prefix, 0, message);
    lemma_special_head(s, prefix, message);
    if let (Ok(segment), s1) = special(s, prefix, 0, message) {
        lemma_leaves_weight(s, s1, 1);
        let now = segments.push(segment);
        law_else_if_expr(s1, now);
        let all = else_if_expr(s1, now).1;
        assert(all[segments.len() as int] == now[segments.len() as int]);
        assert(segments =~= all.take(segments.len() as int)) by {
            assert(now =~= all.take(now.len() as int));
            assert(forall|i: int| 0 <= i < segments.len() ==> segments[i] == now[i]);
        }
    }
}

/// What may follow the branch of an `@if` is added behind the branches that are there, which stay
/// as they are: `@else if`s, and at most one plain `@else`, which comes last.
pub proof fn law_else_if_expr(s: State, segments: Seq<SpecialModel>)
    ensures
        ({
            let (_, all, _) = else_if_expr(s, segments);
            &&& segments.is_prefix_of(all)
            &&& is_else_chain(all, segments.len() as int)
        }),
    decreases weight(s.rest), 0int,
{
    if starts_with_keyword(s.rest, "else"@) {
        let s1 = s.skip(2);
        lemma_leaves_skip(s, 2);
        lemma_leaves_weight(s, s1, 2);
        if s1.rest.len() > 0 && is_word(s1.rest[0], "if"@) {
            let s2 = s1.skip(1);
            let prefix = seq![s.rest[1], s1.rest[0]];
            lemma_leaves_skip(s1, 1);
            lemma_leaves_weight(s1, s2, 1);
            law_if_expr(s2, prefix, segments);
            let all = if_expr(s2, prefix, segments).1;
            let n = segments.len() as int;
            if all.len() > n {
                let head = all[n].head;
                assert(prefix =~= head.take(2));
                assert(head[0] == head.take(2)[0]);
                assert(head[1] == head.take(2)[1]);
            }
        }
    }
}

/// The first branch of an `@if` starts with the keyword; what follows are `@else if`s, and at
/// most one plain `@else`, which comes last.
pub proof fn law_if_branches(s: State, keyword: Token)
    requires
        is_word(keyword, "if"@),
    ensures
        special_form(s, keyword) matches (Ok(found), _) ==> {
            &&& found matches MarkupModel::Special { segments }
            &&& segments.len() > 0
            &&& is_head(segments[0].head, seq![keyword])
            &&& is_else_chain(segments, 1)
        },
{
    law_if_expr(s, seq![keyword], Seq::empty());
}

/// The head of an arm of a `@match` is its pattern and the `=>`, and holds no other `=>`.
pub proof fn law_match_head(s: State)
    ensures
        match_arm(s) matches (Ok(Some(arm)), _) ==> {
            &&& arm.head.len() >= 2
            &&& forall|i: int| is_arrow(arm.head, i) <==> i == arm.head.len() - 2
        },
{
    if let (Ok(Some(arm)), _) = match_arm(s) {
        let arrow = find_arrow(s.rest, 0);
        lemma_find_arrow_bound(s.rest, 0);
        lemma_find_arrow_first(s.rest, 0);
        assert(arm.head == s.rest.take(arrow + 2));
        assert forall|i: int| is_arrow(arm.head, i) <==> i == arm.head.len() - 2 by {
            if 0 <= i <= arrow {
                assert(arm.head[i] == s.rest[i]);
                assert(arm.head[i + 1] == s.rest[i + 1]);
                assert(is_arrow(arm.head, i) == is_arrow(s.rest, i));
            }
        }
    }
}

/// After a braced body of an arm of a `@match`, a comma makes no difference to the arm, nor to
/// where the next one starts.
pub proof fn law_optional_comma(
    head: Seq<Token>,
    body: Token,
    comma: Token,
    more: Seq<Token>,
    in_attr: bool,
)
    requires
        head.len() >= 2,
        forall|i: int| is_arrow(head, i) <==> i == head.len() - 2,
        is_group(body, Delimiter::Brace),
        is_punct(comma, ','),
        !starts_with(more, ','),
    ensures
        ({
            let with = match_arm(State { in_attr, rest: head + seq![body, comma] + more });
            let without = match_arm(State { in_attr, rest: head + seq![body] + more });
            &&& with.0 == without.0
            &&& with.0 is Ok ==> with.1 == without.1 && with.1.rest == more
        }),
{
    let with = State { in_attr, rest: head + seq![body, comma] + more };
    let without = State { in_attr, rest: head + seq![body] + more };
    assert(with.rest =~= head + (seq![body, comma] + more));
    assert(without.rest =~= head + (seq![body] + more));
    lemma_arrow_at(head, seq![body, comma] + more);
    lemma_arrow_at(head, seq![body] + more);
    let start = head.len() as int;
    assert(with.rest[start] == body);
    assert(without.rest[start] == body);
    assert(with.rest.take(start) =~= head);
    assert(without.rest.take(start) =~= head);
    assert(with.skip(start + 1).rest[0] == comma);
    assert(with.skip(start + 1).skip(1).rest =~= more);
    assert(without.skip(start + 1).rest =~= more);
}

/// The `=>` at the end of a pattern is the first one.
pub proof fn lemma_arrow_at(head: Seq<Token>, more: Seq<Token>)
    requires
        head.len() >= 2,
        forall|i: int| is_arrow(head, i) <==> i == head.len() - 2,
    ensures
        find_arrow(head + more, 0) == head.len() - 2,
{
    let all = head + more;
    assert forall|i: int| 0 <= i < head.len() - 1 implies is_arrow(all, i) == is_arrow(head, i) by {
        assert(all[i] == head[i]);
        assert(all[i + 1] == head[i + 1]);
    }
    lemma_find_arrow_bound(all, 0);
    lemma_find_arrow_first(all, 0);
    assert(is_arrow(all, head.len() - 2));
}

} // verus!
