//! The grammar of templates: what each construct is parsed to, and which message is reported
//! where no construct fits.
//!
//! Where a construct goes on with what another one leaves, its definition asks that this is
//! lighter than the input. That is always so, as [`crate::progress`] shows.
use vstd::prelude::*;

use crate::ast::AttrTypeModel;
use crate::ast::AttributeModel;
use crate::ast::AttrsModel;
use crate::ast::BlockModel;
use crate::ast::MarkupModel;
use crate::ast::SpecialModel;
use crate::ast::TogglerModel;
use crate::literal::is_string;
use crate::literal::string_value;
use crate::scan::attr_toggler;
use crate::scan::fail;
use crate::scan::find;
use crate::scan::find_arrow;
use crate::scan::group_scan;
use crate::scan::lemma_find_skip;
use crate::scan::name;
use crate::scan::namespaced_name;
use crate::scan::starts_with;
use crate::scan::starts_with_keyword;
use crate::scan::Failure;
use crate::scan::Mark;
use crate::scan::Outcome;
use crate::scan::State;
use crate::token::contents;
use crate::token::is_group;
use crate::token::is_ident;
use crate::token::is_word;
use crate::token::span_of;
use crate::token::Delimiter;
use crate::token::Span;
use crate::token::Token;
use crate::weight::group_weight;
use crate::weight::weight;

verus! {

broadcast use {group_scan, group_weight};

/// The markup that a literal renders.
pub open spec fn literal(text: Seq<char>, span: Span) -> Result<MarkupModel, Failure> {
    if is_string(text) {
        match string_value(text) {
            Some(content) => Ok(MarkupModel::Literal { content, span }),
            None => Err(Failure::Abort),
        }
    } else {
        Err(Failure::Message("expected string"@))
    }
}

/// The span of a stretch of tokens: that of the first one, joined with those of the others as
/// far as they can be joined.
pub open spec fn joined_span(tokens: Seq<Token>) -> Span
    decreases tokens.len(),
{
    if tokens.len() <= 1 {
        span_of(tokens[0])
    } else {
        let before = joined_span(tokens.drop_last());
        match before.joined(span_of(tokens.last())) {
            Some(bigger) => bigger,
            None => before,
        }
    }
}

/// A `@let`; the keyword is already consumed. It goes up to the first `;` after the first `=`.
pub open spec fn let_expr(s: State, keyword: Token) -> Outcome<MarkupModel> {
    let eq = find(s.rest, Mark::Punct('='), 0);
    let semi = find(s.rest, Mark::Punct(';'), eq + 1);
    if eq < s.rest.len() && semi < s.rest.len() {
        (Ok(MarkupModel::Let { tokens: seq![keyword] + s.rest.take(semi + 1) }), s.skip(semi + 1))
    } else {
        fail("unexpected end of @let expression"@, s.end())
    }
}

/// The markup that a stream of tokens is parsed to, as a block.
pub open spec fn block(in_attr: bool, stream: Seq<Token>, span: Span) -> Result<BlockModel, Failure>
    decreases weight(stream), 4int,
{
    match markups(State { in_attr, rest: stream }).0 {
        Ok(markups) => Ok(BlockModel { markups, span }),
        Err(e) => Err(e),
    }
}

/// The block that the contents of a group are parsed to.
pub open spec fn group_block(in_attr: bool, group: Token) -> Result<BlockModel, Failure>
    decreases weight(contents(group)), 5int,
{
    block(in_attr, contents(group), span_of(group))
}

/// A head up to a braced body, after tokens that are already consumed: the body of an `@if`,
/// a `@while` or a `@for`.
pub open spec fn special(
    s: State,
    prefix: Seq<Token>,
    from: int,
    message: Seq<char>,
) -> Outcome<SpecialModel>
    decreases weight(s.rest), 1int,
{
    let i = find(s.rest, Mark::Body, from);
    if 0 <= i < s.rest.len() {
        match group_block(s.in_attr, s.rest[i]) {
            Ok(body) => (Ok(SpecialModel { head: prefix + s.rest.take(i), body }), s.skip(i + 1)),
            Err(e) => (Err(e), s.skip(i + 1)),
        }
    } else {
        fail(message, s.end())
    }
}

/// A body that is looked for further on can be looked for once the tokens before are consumed.
pub proof fn lemma_special_skip(s: State, prefix: Seq<Token>, n: int, message: Seq<char>)
    requires
        0 <= n <= s.rest.len(),
    ensures
        special(s.skip(n), prefix + s.rest.take(n), 0, message) == special(s, prefix, n, message),
{
    let i = find(s.rest, Mark::Body, n);
    lemma_find_skip(s.rest, Mark::Body, n, 0);
    if i < s.rest.len() {
        assert(s.skip(n).rest[i - n] == s.rest[i]);
        assert((prefix + s.rest.take(n)) + s.skip(n).rest.take(i - n) =~= prefix + s.rest.take(i));
        assert(s.skip(n).skip(i - n + 1) =~= s.skip(i + 1));
    } else {
        assert(s.skip(n).end() =~= s.end());
    }
}

/// A list of guarded blocks that grows, whether or not the construct is completed.
pub type Chain = (Result<(), Failure>, Seq<SpecialModel>, State);

/// An `@if`; what stands before the condition is already consumed. Each branch is added to
/// `segments`.
pub open spec fn if_expr(s: State, prefix: Seq<Token>, segments: Seq<SpecialModel>) -> Chain
    decreases weight(s.rest), 2int,
{
    match special(s, prefix, 0, "unexpected end of @if expression"@) {
        (Ok(segment), s1) => if weight(s1.rest) < weight(s.rest) {
            else_if_expr(s1, segments.push(segment))
        } else {
            arbitrary()
        },
        (Err(e), s1) => (Err(e), segments, s1),
    }
}

/// What may follow the branch of an `@if`: an `@else if`, an `@else`, or nothing.
pub open spec fn else_if_expr(s: State, segments: Seq<SpecialModel>) -> Chain
    decreases weight(s.rest), 2int,
{
    if starts_with_keyword(s.rest, "else"@) {
        let s1 = s.skip(2);
        if s1.rest.len() > 0 && is_word(s1.rest[0], "if"@) {
            if_expr(s1.skip(1), seq![s.rest[1], s1.rest[0]], segments)
        } else if s1.rest.len() > 0 && is_group(s1.rest[0], Delimiter::Brace) {
            match group_block(s.in_attr, s1.rest[0]) {
                Ok(body) => (
                    Ok(()),
                    segments.push(SpecialModel { head: seq![s.rest[1]], body }),
                    s1.skip(1),
                ),
                Err(e) => (Err(e), segments, s1.skip(1)),
            }
        } else {
            (Err(Failure::Message("expected body for @else"@)), segments, s1.skip(1))
        }
    } else {
        (Ok(()), segments, s)
    }
}

/// The markup of a single guarded block.
pub open spec fn single(outcome: Outcome<SpecialModel>) -> Outcome<MarkupModel> {
    match outcome {
        (Ok(segment), s) => (Ok(MarkupModel::Special { segments: seq![segment] }), s),
        (Err(e), s) => (Err(e), s),
    }
}

/// A `@while`; the keyword is already consumed.
pub open spec fn while_expr(s: State, keyword: Token) -> Outcome<MarkupModel>
    decreases weight(s.rest), 2int,
{
    single(special(s, seq![keyword], 0, "unexpected end of @while expression"@))
}

/// A `@for`; the keyword is already consumed. The body comes after the first `in`.
pub open spec fn for_expr(s: State, keyword: Token) -> Outcome<MarkupModel>
    decreases weight(s.rest), 2int,
{
    let i = find(s.rest, Mark::Word("in"@), 0);
    if i < s.rest.len() {
        single(special(s, seq![keyword], i + 1, "unexpected end of @for expression"@))
    } else {
        fail("unexpected end of @for expression"@, s.end())
    }
}

/// A `@match`; the keyword is already consumed.
pub open spec fn match_expr(s: State, keyword: Token) -> Outcome<MarkupModel>
    decreases weight(s.rest), 2int,
{
    let i = find(s.rest, Mark::Body, 0);
    if i < s.rest.len() {
        let arms = match_arms(State { in_attr: s.in_attr, rest: contents(s.rest[i]) });
        match arms.0 {
            Ok(arms) => (
                Ok(
                    MarkupModel::Match {
                        head: seq![keyword] + s.rest.take(i),
                        arms,
                        arms_span: span_of(s.rest[i]),
                    },
                ),
                s.skip(i + 1),
            ),
            Err(e) => (Err(e), s.skip(i + 1)),
        }
    } else {
        fail("unexpected end of @match expression"@, s.end())
    }
}

/// An outcome with more items in front, if there is a list at all.
pub open spec fn after<T>(front: Seq<T>, outcome: Outcome<Seq<T>>) -> Outcome<Seq<T>> {
    match outcome {
        (Ok(items), s) => (Ok(front + items), s),
        (Err(e), s) => (Err(e), s),
    }
}

/// Nothing in front of a list leaves it as it is.
pub proof fn lemma_after_nothing<T>(outcome: Outcome<Seq<T>>)
    ensures
        after(Seq::empty(), outcome) == outcome,
{
    if let (Ok(items), _) = outcome {
        assert(Seq::<T>::empty() + items =~= items);
    }
}

/// Items can be put in front of a list one after the other, or together.
pub proof fn lemma_after_after<T>(front: Seq<T>, middle: Seq<T>, outcome: Outcome<Seq<T>>)
    ensures
        after(front, after(middle, outcome)) == after(front + middle, outcome),
{
    if let (Ok(items), _) = outcome {
        assert(front + (middle + items) =~= (front + middle) + items);
    }
}

/// All the arms of a `@match`.
pub open spec fn match_arms(s: State) -> Outcome<Seq<SpecialModel>>
    decreases weight(s.rest), 3int,
{
    match match_arm(s) {
        (Ok(Some(arm)), s1) => if weight(s1.rest) < weight(s.rest) {
            after(seq![arm], match_arms(s1))
        } else {
            arbitrary()
        },
        (Ok(None), s1) => (Ok(Seq::empty()), s1),
        (Err(e), s1) => (Err(e), s1),
    }
}

/// One arm of a `@match`, unless the input is at its end.
///
/// The pattern goes up to the first `=>`. After a braced body a comma is optional; any other
/// body is one token and what follows it up to a comma, which must be there.
pub open spec fn match_arm(s: State) -> Outcome<Option<SpecialModel>>
    decreases weight(s.rest), 2int,
{
    let arrow = find_arrow(s.rest, 0);
    let start = arrow + 2;
    let head = s.rest.take(start);
    if s.rest.len() == 0 {
        (Ok(None), s)
    } else if arrow == s.rest.len() {
        fail("unexpected end of @match pattern"@, s.end())
    } else if start == s.rest.len() {
        fail("unexpected end of @match arm"@, s.end())
    } else if is_group(s.rest[start], Delimiter::Brace) {
        let s1 = s.skip(start + 1);
        match group_block(s.in_attr, s.rest[start]) {
            Ok(body) => (
                Ok(Some(SpecialModel { head, body })),
                if starts_with(s1.rest, ',') {
                    s1.skip(1)
                } else {
                    s1
                },
            ),
            Err(e) => (Err(e), s1),
        }
    } else {
        let comma = find(s.rest, Mark::Punct(','), start + 1);
        if comma < s.rest.len() {
            let tokens = s.rest.subrange(start, comma);
            match block(s.in_attr, tokens, joined_span(tokens)) {
                Ok(body) => (Ok(Some(SpecialModel { head, body })), s.skip(comma + 1)),
                Err(e) => (Err(e), s.skip(comma + 1)),
            }
        } else {
            fail("unexpected end of @match arm"@, s.end())
        }
    }
}

/// No attributes.
pub open spec fn no_attrs() -> AttrsModel {
    AttrsModel {
        classes_static: Seq::empty(),
        classes_toggled: Seq::empty(),
        ids: Seq::empty(),
        attrs: Seq::empty(),
    }
}

/// `attrs` and one more named attribute.
pub open spec fn with_attr(
    attrs: AttrsModel,
    name: Seq<Token>,
    attr_type: AttrTypeModel,
) -> AttrsModel {
    AttrsModel { attrs: attrs.attrs.push(AttributeModel { name, attr_type }), ..attrs }
}

/// `attrs` and one more class.
pub open spec fn with_class(
    attrs: AttrsModel,
    name: Seq<Token>,
    toggler: Option<TogglerModel>,
) -> AttrsModel {
    match toggler {
        Some(toggler) => AttrsModel {
            classes_toggled: attrs.classes_toggled.push((name, toggler)),
            ..attrs
        },
        None => AttrsModel { classes_static: attrs.classes_static.push(name), ..attrs },
    }
}

/// `attrs` and one more ID.
pub open spec fn with_id(attrs: AttrsModel, name: Seq<Token>) -> AttrsModel {
    AttrsModel { ids: attrs.ids.push(name), ..attrs }
}

/// The attributes of an element that follow those in `seen`.
///
/// They are `name=value`, `name?`, `.name` and `#name`, as long as one of these fits: where none
/// does, nothing more is consumed. A value is parsed inside the attribute; where it is not valid,
/// the parser is left there.
pub open spec fn attrs(s: State, seen: AttrsModel) -> Outcome<AttrsModel>
    decreases weight(s.rest), 2int,
{
    let (found, s1) = namespaced_name(s);
    match found {
        Ok(name) => if starts_with(s1.rest, '=') {
            match markup(State { in_attr: true, rest: s1.skip(1).rest }) {
                (Ok(value), s2) => if weight(s2.rest) < weight(s.rest) {
                    attrs(
                        State { in_attr: s.in_attr, rest: s2.rest },
                        with_attr(seen, name, AttrTypeModel::Normal { value }),
                    )
                } else {
                    arbitrary()
                },
                (Err(e), s2) => (Err(e), s2),
            }
        } else if starts_with(s1.rest, '?') {
            let (toggler, s2) = attr_toggler(s1.skip(1));
            attrs(s2, with_attr(seen, name, AttrTypeModel::Empty { toggler }))
        } else {
            (Ok(seen), s)
        },
        Err(_) => if starts_with(s.rest, '.') {
            match name(s.skip(1)) {
                (Ok(name), s2) => {
                    let (toggler, s3) = attr_toggler(s2);
                    attrs(s3, with_class(seen, name, toggler))
                },
                (Err(e), s2) => (Err(e), s2),
            }
        } else if starts_with(s.rest, '#') {
            match name(s.skip(1)) {
                (Ok(name), s2) => attrs(s2, with_id(seen, name)),
                (Err(e), s2) => (Err(e), s2),
            }
        } else {
            (Ok(seen), s)
        },
    }
}

/// An element; its name is already consumed. There is none inside an attribute.
///
/// After the attributes comes the body, or a `;` or `/` if it has none.
pub open spec fn element(s: State, name: Seq<Token>) -> Outcome<MarkupModel>
    decreases weight(s.rest), 3int,
{
    if s.in_attr {
        fail("unexpected element, you silly bumpkin"@, s)
    } else {
        match attrs(s, no_attrs()) {
            (Ok(attrs), s1) => if starts_with(s1.rest, ';') || starts_with(s1.rest, '/') {
                (Ok(MarkupModel::Element { name, attrs, body: None }), s1.skip(1))
            } else if weight(s1.rest) <= weight(s.rest) {
                match markup(s1) {
                    (Ok(body), s2) => (
                        Ok(MarkupModel::Element { name, attrs, body: Some(Box::new(body)) }),
                        s2,
                    ),
                    (Err(e), s2) => (Err(e), s2),
                }
            } else {
                arbitrary()
            },
            (Err(e), s1) => (Err(e), s1),
        }
    }
}

/// What is reported for a special form that does not exist.
pub open spec fn unknown_keyword(word: Seq<char>) -> Seq<char> {
    "unknown keyword `@"@ + word + "`"@
}

/// A special form; the `@` and the keyword are already consumed.
pub open spec fn special_form(s: State, keyword: Token) -> Outcome<MarkupModel>
    decreases weight(s.rest), 3int,
{
    if is_word(keyword, "if"@) {
        match if_expr(s, seq![keyword], Seq::empty()) {
            (Ok(_), segments, s1) => (Ok(MarkupModel::Special { segments }), s1),
            (Err(e), _, s1) => (Err(e), s1),
        }
    } else if is_word(keyword, "while"@) {
        while_expr(s, keyword)
    } else if is_word(keyword, "for"@) {
        for_expr(s, keyword)
    } else if is_word(keyword, "match"@) {
        match_expr(s, keyword)
    } else if is_word(keyword, "let"@) {
        fail("@let only works inside a block"@, s)
    } else {
        fail(unknown_keyword(keyword->Ident_text), s)
    }
}

/// A single piece of markup.
pub open spec fn markup(s: State) -> Outcome<MarkupModel>
    decreases weight(s.rest), 2int,
{
    if s.rest.len() == 0 {
        fail("unexpected end of input"@, s)
    } else {
        match s.rest[0] {
            Token::Literal { text, span } => (literal(text, span), s.skip(1)),
            Token::Punct { ch, .. } => if ch != '@' {
                fail("invalid syntax"@, s)
            } else if s.rest.len() > 1 && is_ident(s.rest[1]) {
                special_form(s.skip(2), s.rest[1])
            } else {
                fail("expected keyword after `@`"@, s.skip(2))
            },
            Token::Ident { .. } => match namespaced_name(s) {
                (Ok(name), s1) => element(s1, name),
                (Err(e), s1) => (Err(e), s1),
            },
            Token::Group { delimiter, stream, span } => match delimiter {
                Delimiter::Parenthesis => (Ok(MarkupModel::Splice { expr: stream }), s.skip(1)),
                Delimiter::Brace => match group_block(s.in_attr, s.rest[0]) {
                    Ok(block) => (Ok(MarkupModel::Block(block)), s.skip(1)),
                    Err(e) => (Err(e), s.skip(1)),
                },
                _ => fail("invalid syntax"@, s),
            },
        }
    }
}

/// All the markup up to the end of the input. Each `;` that is not part of any is skipped.
pub open spec fn markups(s: State) -> Outcome<Seq<MarkupModel>>
    decreases weight(s.rest), 3int,
{
    if s.rest.len() == 0 {
        (Ok(Seq::empty()), s)
    } else if starts_with(s.rest, ';') {
        markups(s.skip(1))
    } else {
        let first = if starts_with_keyword(s.rest, "let"@) {
            let_expr(s.skip(2), s.rest[1])
        } else {
            markup(s)
        };
        match first {
            (Ok(first), s1) => if weight(s1.rest) < weight(s.rest) {
                after(seq![first], markups(s1))
            } else {
                arbitrary()
            },
            (Err(e), s1) => (Err(e), s1),
        }
    }
}

/// What a whole template is parsed to.
pub open spec fn template(tokens: Seq<Token>) -> Result<Seq<MarkupModel>, Failure> {
    markups(State { in_attr: false, rest: tokens }).0
}

} // verus!
