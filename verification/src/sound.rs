//! What holds of every result of the grammar.
//!
//! Each lemma says of one construct that its result is [`sound`].
use vstd::prelude::*;

use crate::ast::AttrTypeModel;
use crate::ast::AttributeModel;
use crate::ast::AttrsModel;
use crate::ast::BlockModel;
use crate::ast::MarkupModel;
use crate::ast::SpecialModel;
use crate::grammar::attrs;
use crate::grammar::block;
use crate::grammar::element;
use crate::grammar::else_if_expr;
use crate::grammar::group_block;
use crate::grammar::if_expr;
use crate::grammar::joined_span;
use crate::grammar::let_expr;
use crate::grammar::markup;
use crate::grammar::markups;
use crate::grammar::match_arm;
use crate::grammar::match_arms;
use crate::grammar::no_attrs;
use crate::grammar::single;
use crate::grammar::special;
use crate::grammar::special_form;
use crate::grammar::template;
use crate::grammar::unknown_keyword;
use crate::grammar::with_attr;
use crate::grammar::with_class;
use crate::grammar::with_id;
use crate::laws::is_else_chain;
use crate::laws::law_if_branches;
use crate::laws::law_let_verbatim;
use crate::literal::is_decodable;
use crate::progress::leaves;
use crate::progress::lemma_attr_toggler_leaves;
use crate::progress::lemma_attrs_leaves;
use crate::progress::lemma_leaves_skip;
use crate::progress::lemma_leaves_trans;
use crate::progress::lemma_leaves_weight;
use crate::progress::lemma_let_expr_leaves;
use crate::progress::lemma_markup_leaves;
use crate::progress::lemma_match_arm_leaves;
use crate::progress::lemma_name_leaves;
use crate::progress::lemma_namespaced_name_leaves;
use crate::progress::lemma_special_leaves;
use crate::scan::aborts;
use crate::scan::attr_toggler;
use crate::scan::find;
use crate::scan::find_arrow;
use crate::scan::lemma_find_arrow_bound;
use crate::scan::lemma_find_bound;
use crate::scan::lemma_find_first;
use crate::scan::name;
use crate::scan::namespaced_name;
use crate::scan::starts_with;
use crate::scan::starts_with_keyword;
use crate::scan::Failure;
use crate::scan::Mark;
use crate::scan::Outcome;
use crate::scan::State;
use crate::token::contents;
use crate::token::is_group;
use crate::token::is_punct;
use crate::token::is_word;
use crate::token::span_of;
use crate::token::Delimiter;
use crate::token::Span;
use crate::token::Token;
use crate::weight::lemma_weight_contents;
use crate::weight::lemma_weight_subrange;
use crate::weight::weight;

verus! {

/// Where a piece of markup stands.
pub struct Place {
    /// Inside an attribute, at any depth.
    pub in_attr: bool,
    /// Directly in a block, or in the list that makes up the template.
    pub in_block: bool,
}

/// What may be asked of a piece of markup and of the place where it stands.
pub type Rule = spec_fn(MarkupModel, Place) -> bool;

/// Whether the rule holds of the markup where it stands, and of all the markup inside it.
pub open spec fn everywhere(markup: MarkupModel, place: Place, rule: Rule) -> bool
    decreases markup,
{
    &&& rule(markup, place)
    &&& match markup {
        MarkupModel::Block(block) => block_everywhere(block, place.in_attr, rule),
        MarkupModel::Element { attrs, body, .. } => {
            &&& attrs_everywhere(attrs, rule)
            &&& match body {
                Some(body) => everywhere(
                    *body,
                    Place { in_attr: place.in_attr, in_block: false },
                    rule,
                ),
                None => true,
            }
        },
        MarkupModel::Special { segments } => specials_everywhere(segments, place.in_attr, rule),
        MarkupModel::Match { arms, .. } => specials_everywhere(arms, place.in_attr, rule),
        _ => true,
    }
}

/// Whether the rule holds of all the markup in a block.
pub open spec fn block_everywhere(block: BlockModel, in_attr: bool, rule: Rule) -> bool
    decreases block,
{
    forall|i: int|
        0 <= i < block.markups.len() ==> everywhere(
            #[trigger] block.markups[i],
            Place { in_attr, in_block: true },
            rule,
        )
}

/// Whether the rule holds of all the markup in the guarded blocks.
pub open spec fn specials_everywhere(
    specials: Seq<SpecialModel>,
    in_attr: bool,
    rule: Rule,
) -> bool
    decreases specials,
{
    forall|i: int|
        0 <= i < specials.len() ==> block_everywhere((#[trigger] specials[i]).body, in_attr, rule)
}

/// Whether the rule holds of all the markup in the values of the attributes.
pub open spec fn attrs_everywhere(attrs: AttrsModel, rule: Rule) -> bool
    decreases attrs,
{
    forall|i: int|
        0 <= i < attrs.attrs.len() ==> attribute_everywhere(#[trigger] attrs.attrs[i], rule)
}

/// Whether the rule holds of all the markup in the value of the attribute, if it has one.
pub open spec fn attribute_everywhere(attribute: AttributeModel, rule: Rule) -> bool
    decreases attribute,
{
    match attribute.attr_type {
        AttrTypeModel::Normal { value } => everywhere(
            value,
            Place { in_attr: true, in_block: false },
            rule,
        ),
        AttrTypeModel::Empty { .. } => true,
    }
}

/// Whether the rule holds of all the markup in a list that makes up a template or a block.
pub open spec fn markups_everywhere(
    markups: Seq<MarkupModel>,
    in_attr: bool,
    rule: Rule,
) -> bool {
    forall|i: int|
        0 <= i < markups.len() ==> everywhere(
            #[trigger] markups[i],
            Place { in_attr, in_block: true },
            rule,
        )
}

/// An element stands outside any attribute.
pub open spec fn element_outside_attr(markup: MarkupModel, place: Place) -> bool {
    markup is Element ==> !place.in_attr
}

/// A `@let` stands directly in a block, and is complete.
pub open spec fn let_in_block(markup: MarkupModel, place: Place) -> bool {
    markup matches MarkupModel::Let { tokens } ==> place.in_block && is_let(tokens)
}

/// Whether these are the tokens of a `@let`: the keyword, a `=` further on, and a `;` at the end.
pub open spec fn is_let(tokens: Seq<Token>) -> bool {
    &&& tokens.len() > 0
    &&& is_word(tokens[0], "let"@)
    &&& exists|i: int| 0 < i < tokens.len() - 1 && is_punct(#[trigger] tokens[i], '=')
    &&& is_punct(tokens.last(), ';')
}

/// A guarded block or a `@match` is headed by its keyword.
pub open spec fn form_headed(markup: MarkupModel) -> bool {
    match markup {
        MarkupModel::Special { segments } => is_special(segments),
        MarkupModel::Match { head, .. } => is_match_head(head),
        _ => true,
    }
}

/// Whether these are the branches of an `@if`, or the one block of a `@while` or `@for`.
pub open spec fn is_special(segments: Seq<SpecialModel>) -> bool {
    &&& segments.len() > 0
    &&& segments[0].head.len() > 0
    &&& {
        ||| is_word(segments[0].head[0], "if"@)
        ||| segments.len() == 1 && is_word(segments[0].head[0], "while"@)
        ||| segments.len() == 1 && is_word(segments[0].head[0], "for"@)
    }
    &&& is_else_chain(segments, 1)
}

/// Whether this is the head of a `@match`: the keyword, and no braced block.
pub open spec fn is_match_head(head: Seq<Token>) -> bool {
    &&& head.len() > 0
    &&& is_word(head[0], "match"@)
    &&& forall|i: int| 0 <= i < head.len() ==> !is_group(#[trigger] head[i], Delimiter::Brace)
}

/// What holds of each piece of markup in a template.
pub open spec fn fits(markup: MarkupModel, place: Place) -> bool {
    &&& element_outside_attr(markup, place)
    &&& let_in_block(markup, place)
    &&& form_headed(markup)
}

/// Whether the rule asks no more than what holds of each piece of markup.
spec fn is_mild(rule: Rule) -> bool {
    forall|markup: MarkupModel, place: Place|
        fits(markup, place) ==> #[trigger] rule(markup, place)
}

/// Whether every literal, at any depth, can be decoded.
pub open spec fn literals_decodable(tokens: Seq<Token>) -> bool
    decreases tokens,
{
    forall|i: int|
        0 <= i < tokens.len() ==> match #[trigger] tokens[i] {
            Token::Literal { text, .. } => is_decodable(text),
            Token::Group { stream, .. } => literals_decodable(stream),
            _ => true,
        }
}

/// Whether this is one of the messages that the parser reports.
pub open spec fn is_message(message: Seq<char>) -> bool {
    ||| message == "unexpected end of input"@
    ||| message == "invalid syntax"@
    ||| message == "expected string"@
    ||| message == "expected identifier"@
    ||| message == "expected keyword after `@`"@
    ||| message == "@let only works inside a block"@
    ||| exists|word: Seq<char>| message == #[trigger] unknown_keyword(word)
    ||| message == "unexpected end of @if expression"@
    ||| message == "expected body for @else"@
    ||| message == "unexpected end of @while expression"@
    ||| message == "unexpected end of @for expression"@
    ||| message == "unexpected end of @match expression"@
    ||| message == "unexpected end of @match pattern"@
    ||| message == "unexpected end of @match arm"@
    ||| message == "unexpected end of @let expression"@
    ||| message == "unexpected element, you silly bumpkin"@
}

/// What holds of every result: a value is `good`, a message is a known one, and there is an
/// answer if all the literals in the input can be decoded.
pub open spec fn sound<T>(
    result: Result<T, Failure>,
    tokens: Seq<Token>,
    good: spec_fn(T) -> bool,
) -> bool {
    match result {
        Ok(value) => good(value),
        Err(Failure::Message(message)) => is_message(message),
        Err(Failure::Abort) => !literals_decodable(tokens),
    }
}

/// Where all literals can be decoded, so can those in a part.
proof fn lemma_decodable_subrange(tokens: Seq<Token>, lo: int, hi: int)
    requires
        0 <= lo <= hi <= tokens.len(),
        literals_decodable(tokens),
    ensures
        literals_decodable(tokens.subrange(lo, hi)),
{
    let part = tokens.subrange(lo, hi);
    assert forall|i: int| 0 <= i < part.len() implies match #[trigger] part[i] {
        Token::Literal { text, .. } => is_decodable(text),
        Token::Group { stream, .. } => literals_decodable(stream),
        _ => true,
    } by {
        assert(part[i] == tokens[lo + i]);
    }
}

/// Where all literals can be decoded, so can those that are still to come.
proof fn lemma_decodable_leaves(s: State, later: State)
    requires
        leaves(s, later, 0),
        literals_decodable(s.rest),
    ensures
        literals_decodable(later.rest),
{
    lemma_decodable_subrange(s.rest, s.rest.len() - later.rest.len(), s.rest.len() as int);
}

/// Where all literals can be decoded, so can those inside a group.
proof fn lemma_decodable_contents(tokens: Seq<Token>, i: int)
    requires
        0 <= i < tokens.len(),
        literals_decodable(tokens),
    ensures
        literals_decodable(contents(tokens[i])),
{
    match tokens[i] {
        Token::Group { .. } => {},
        _ => {
            assert(contents(tokens[i]).len() == 0);
        },
    }
}

proof fn lemma_block_sound(in_attr: bool, stream: Seq<Token>, span: Span, rule: Rule)
    requires
        is_mild(rule),
    ensures
        sound(
            block(in_attr, stream, span),
            stream,
            |block: BlockModel| block_everywhere(block, in_attr, rule),
        ),
    decreases weight(stream), 4int,
{
    lemma_markups_sound(State { in_attr, rest: stream }, rule);
}

/// Of the block in a group that stands in the input.
proof fn lemma_group_block_sound(in_attr: bool, tokens: Seq<Token>, i: int, rule: Rule)
    requires
        is_mild(rule),
        0 <= i < tokens.len(),
    ensures
        sound(
            group_block(in_attr, tokens[i]),
            tokens,
            |block: BlockModel| block_everywhere(block, in_attr, rule),
        ),
    decreases weight(tokens), 0int,
{
    lemma_weight_contents(tokens, i);
    lemma_block_sound(in_attr, contents(tokens[i]), span_of(tokens[i]), rule);
    if literals_decodable(tokens) {
        lemma_decodable_contents(tokens, i);
    }
}

proof fn lemma_special_sound(
    s: State,
    prefix: Seq<Token>,
    from: int,
    message: Seq<char>,
    rule: Rule,
)
    requires
        is_mild(rule),
        0 <= from <= s.rest.len(),
        is_message(message),
    ensures
        sound(
            special(s, prefix, from, message).0,
            s.rest,
            |special: SpecialModel| block_everywhere(special.body, s.in_attr, rule),
        ),
    decreases weight(s.rest), 1int,
{
    let i = find(s.rest, Mark::Body, from);
    lemma_find_bound(s.rest, Mark::Body, from);
    if i < s.rest.len() {
        lemma_group_block_sound(s.in_attr, s.rest, i, rule);
    }
}

proof fn lemma_if_expr_sound(s: State, prefix: Seq<Token>, segments: Seq<SpecialModel>, rule: Rule)
    requires
        is_mild(rule),
        specials_everywhere(segments, s.in_attr, rule),
    ensures
        ({
            let (result, segments, _) = if_expr(s, prefix, segments);
            &&& sound(result, s.rest, |unit: ()| true)
            &&& specials_everywhere(segments, s.in_attr, rule)
        }),
    decreases weight(s.rest), 2int,
{
    let message = "unexpected end of @if expression"@;
    lemma_special_leaves(s, prefix, 0, message);
    lemma_special_sound(s, prefix, 0, message, rule);
    if let (Ok(segment), s1) = special(s, prefix, 0, message) {
        lemma_leaves_weight(s, s1, 1);
        if literals_decodable(s.rest) {
            lemma_decodable_leaves(s, s1);
        }
        lemma_push_everywhere(segments, segment, s.in_attr, rule);
        lemma_else_if_expr_sound(s1, segments.push(segment), rule);
    }
}

/// One more guarded block.
proof fn lemma_push_everywhere(
    segments: Seq<SpecialModel>,
    segment: SpecialModel,
    in_attr: bool,
    rule: Rule,
)
    requires
        specials_everywhere(segments, in_attr, rule),
        block_everywhere(segment.body, in_attr, rule),
    ensures
        specials_everywhere(segments.push(segment), in_attr, rule),
{
    let all = segments.push(segment);
    assert forall|i: int| 0 <= i < all.len() implies block_everywhere(
        (#[trigger] all[i]).body,
        in_attr,
        rule,
    ) by {
        if i < segments.len() {
            assert(all[i] == segments[i]);
        }
    }
}

proof fn lemma_else_if_expr_sound(s: State, segments: Seq<SpecialModel>, rule: Rule)
    requires
        is_mild(rule),
        specials_everywhere(segments, s.in_attr, rule),
    ensures
        ({
            let (result, segments, _) = else_if_expr(s, segments);
            &&& sound(result, s.rest, |unit: ()| true)
            &&& specials_everywhere(segments, s.in_attr, rule)
        }),
    decreases weight(s.rest), 2int,
{
    if starts_with_keyword(s.rest, "else"@) {
        let s1 = s.skip(2);
        lemma_leaves_skip(s, 2);
        lemma_leaves_weight(s, s1, 2);
        if literals_decodable(s.rest) {
            lemma_decodable_leaves(s, s1);
        }
        if s1.rest.len() > 0 && is_word(s1.rest[0], "if"@) {
            let s2 = s1.skip(1);
            lemma_leaves_skip(s1, 1);
            lemma_leaves_weight(s1, s2, 1);
            if literals_decodable(s.rest) {
                lemma_decodable_leaves(s1, s2);
            }
            lemma_if_expr_sound(s2, seq![s.rest[1], s1.rest[0]], segments, rule);
        } else if s1.rest.len() > 0 && is_group(s1.rest[0], Delimiter::Brace) {
            lemma_group_block_sound(s.in_attr, s1.rest, 0, rule);
            if let Ok(body) = group_block(s.in_attr, s1.rest[0]) {
                lemma_push_everywhere(
                    segments,
                    SpecialModel { head: seq![s.rest[1]], body },
                    s.in_attr,
                    rule,
                );
            }
        }
    }
}

proof fn lemma_match_arms_sound(s: State, rule: Rule)
    requires
        is_mild(rule),
    ensures
        sound(
            match_arms(s).0,
            s.rest,
            |arms: Seq<SpecialModel>| specials_everywhere(arms, s.in_attr, rule),
        ),
    decreases weight(s.rest), 3int,
{
    lemma_match_arm_leaves(s);
    lemma_match_arm_sound(s, rule);
    if let (Ok(Some(arm)), s1) = match_arm(s) {
        lemma_leaves_weight(s, s1, 1);
        if literals_decodable(s.rest) {
            lemma_decodable_leaves(s, s1);
        }
        lemma_match_arms_sound(s1, rule);
        if let Ok(arms) = match_arms(s1).0 {
            let all = seq![arm] + arms;
            assert forall|i: int| 0 <= i < all.len() implies block_everywhere(
                (#[trigger] all[i]).body,
                s.in_attr,
                rule,
            ) by {
                if i > 0 {
                    assert(all[i] == arms[i - 1]);
                }
            }
        }
    }
}

proof fn lemma_match_arm_sound(s: State, rule: Rule)
    requires
        is_mild(rule),
    ensures
        sound(
            match_arm(s).0,
            s.rest,
            |arm: Option<SpecialModel>|
                arm matches Some(arm) ==> block_everywhere(arm.body, s.in_attr, rule),
        ),
    decreases weight(s.rest), 2int,
{
    let arrow = find_arrow(s.rest, 0);
    let start = arrow + 2;
    lemma_find_arrow_bound(s.rest, 0);
    if arrow < s.rest.len() && start < s.rest.len() {
        lemma_group_block_sound(s.in_attr, s.rest, start, rule);
        let comma = find(s.rest, Mark::Punct(','), start + 1);
        lemma_find_bound(s.rest, Mark::Punct(','), start + 1);
        if comma < s.rest.len() {
            let tokens = s.rest.subrange(start, comma);
            lemma_weight_subrange(s.rest, start, comma);
            lemma_block_sound(s.in_attr, tokens, joined_span(tokens), rule);
            if literals_decodable(s.rest) {
                lemma_decodable_subrange(s.rest, start, comma);
            }
        }
    }
}

proof fn lemma_attrs_sound(s: State, seen: AttrsModel, rule: Rule)
    requires
        is_mild(rule),
        attrs_everywhere(seen, rule),
    ensures
        sound(attrs(s, seen).0, s.rest, |attrs: AttrsModel| attrs_everywhere(attrs, rule)),
    decreases weight(s.rest), 2int,
{
    lemma_namespaced_name_leaves(s);
    let (found, s1) = namespaced_name(s);
    match found {
        Ok(found) => {
            let after = s1.skip(1);
            lemma_leaves_skip(s1, 1);
            lemma_leaves_trans(s, s1, after, 1, 0);
            lemma_leaves_weight(s, after, 1);
            if literals_decodable(s.rest) {
                lemma_decodable_leaves(s, after);
            }
            if starts_with(s1.rest, '=') {
                let v = State { in_attr: true, rest: after.rest };
                lemma_markup_leaves(v);
                lemma_markup_sound(v, false, rule);
                if let (Ok(value), s2) = markup(v) {
                    lemma_leaves_weight(v, s2, 1);
                    if literals_decodable(s.rest) {
                        lemma_decodable_leaves(v, s2);
                    }
                    let attr_type = AttrTypeModel::Normal { value };
                    lemma_with_attr_everywhere(seen, found, attr_type, rule);
                    lemma_attrs_sound(
                        State { in_attr: s.in_attr, rest: s2.rest },
                        with_attr(seen, found, attr_type),
                        rule,
                    );
                }
            } else if starts_with(s1.rest, '?') {
                let (toggler, s2) = attr_toggler(after);
                lemma_attr_toggler_leaves(after);
                lemma_leaves_weight(after, s2, 0);
                if literals_decodable(s.rest) {
                    lemma_decodable_leaves(after, s2);
                }
                let attr_type = AttrTypeModel::Empty { toggler };
                lemma_with_attr_everywhere(seen, found, attr_type, rule);
                lemma_attrs_sound(s2, with_attr(seen, found, attr_type), rule);
            }
        },
        Err(_) => {
            let after = s.skip(1);
            lemma_leaves_skip(s, 1);
            lemma_leaves_weight(s, after, 0);
            lemma_name_leaves(after);
            if let (Ok(found), s2) = name(after) {
                lemma_leaves_weight(after, s2, 1);
                if literals_decodable(s.rest) {
                    lemma_decodable_leaves(s, after);
                    lemma_decodable_leaves(after, s2);
                }
                if starts_with(s.rest, '.') {
                    let (toggler, s3) = attr_toggler(s2);
                    lemma_attr_toggler_leaves(s2);
                    lemma_leaves_weight(s2, s3, 0);
                    if literals_decodable(s.rest) {
                        lemma_decodable_leaves(s2, s3);
                    }
                    assert(with_class(seen, found, toggler).attrs == seen.attrs);
                    lemma_attrs_sound(s3, with_class(seen, found, toggler), rule);
                } else if starts_with(s.rest, '#') {
                    assert(with_id(seen, found).attrs == seen.attrs);
                    lemma_attrs_sound(s2, with_id(seen, found), rule);
                }
            }
        },
    }
}

/// One more attribute.
proof fn lemma_with_attr_everywhere(
    seen: AttrsModel,
    name: Seq<Token>,
    attr_type: AttrTypeModel,
    rule: Rule,
)
    requires
        attrs_everywhere(seen, rule),
        attribute_everywhere(AttributeModel { name, attr_type }, rule),
    ensures
        attrs_everywhere(with_attr(seen, name, attr_type), rule),
{
    let all = with_attr(seen, name, attr_type);
    assert forall|i: int| 0 <= i < all.attrs.len() implies attribute_everywhere(
        #[trigger] all.attrs[i],
        rule,
    ) by {
        if i < seen.attrs.len() {
            assert(all.attrs[i] == seen.attrs[i]);
        }
    }
}

proof fn lemma_element_sound(s: State, name: Seq<Token>, in_block: bool, rule: Rule)
    requires
        is_mild(rule),
    ensures
        sound(
            element(s, name).0,
            s.rest,
            |markup: MarkupModel| everywhere(markup, Place { in_attr: s.in_attr, in_block }, rule),
        ),
    decreases weight(s.rest), 3int,
{
    if !s.in_attr {
        lemma_attrs_leaves(s, no_attrs());
        lemma_attrs_sound(s, no_attrs(), rule);
        let (attrs, s1) = attrs(s, no_attrs());
        lemma_leaves_weight(s, s1, 0);
        if literals_decodable(s.rest) {
            lemma_decodable_leaves(s, s1);
        }
        lemma_markup_sound(s1, false, rule);
    }
}

proof fn lemma_special_form_sound(s: State, keyword: Token, in_block: bool, rule: Rule)
    requires
        is_mild(rule),
    ensures
        sound(
            special_form(s, keyword).0,
            s.rest,
            |markup: MarkupModel| everywhere(markup, Place { in_attr: s.in_attr, in_block }, rule),
        ),
    decreases weight(s.rest), 3int,
{
    let place = Place { in_attr: s.in_attr, in_block };
    if is_word(keyword, "if"@) {
        lemma_if_expr_sound(s, seq![keyword], Seq::empty(), rule);
        law_if_branches(s, keyword);
        if let (Ok(found), _) = special_form(s, keyword) {
            assert(found->Special_segments[0].head[0] == seq![keyword][0]);
            assert(fits(found, place));
        }
    } else if is_word(keyword, "while"@) {
        let outcome = special(s, seq![keyword], 0, "unexpected end of @while expression"@);
        lemma_special_sound(s, seq![keyword], 0, "unexpected end of @while expression"@, rule);
        lemma_find_bound(s.rest, Mark::Body, 0);
        lemma_single_sound(outcome, s, in_block, rule);
    } else if is_word(keyword, "for"@) {
        let message = "unexpected end of @for expression"@;
        let i = find(s.rest, Mark::Word("in"@), 0);
        lemma_find_bound(s.rest, Mark::Word("in"@), 0);
        if i < s.rest.len() {
            lemma_special_sound(s, seq![keyword], i + 1, message, rule);
            lemma_find_bound(s.rest, Mark::Body, i + 1);
            lemma_single_sound(special(s, seq![keyword], i + 1, message), s, in_block, rule);
        }
    } else if is_word(keyword, "match"@) {
        let i = find(s.rest, Mark::Body, 0);
        lemma_find_bound(s.rest, Mark::Body, 0);
        if i < s.rest.len() {
            lemma_weight_contents(s.rest, i);
            lemma_match_arms_sound(State { in_attr: s.in_attr, rest: contents(s.rest[i]) }, rule);
            if literals_decodable(s.rest) {
                lemma_decodable_contents(s.rest, i);
            }
            lemma_match_head(s.rest, keyword, i);
            if let (Ok(found), _) = special_form(s, keyword) {
                assert(fits(found, place));
            }
        }
    } else {
        let word = keyword->Ident_text;
        assert(unknown_keyword(word) == unknown_keyword(word));
    }
}

/// The head of a `@match` goes up to the first braced block.
proof fn lemma_match_head(tokens: Seq<Token>, keyword: Token, i: int)
    requires
        is_word(keyword, "match"@),
        i == find(tokens, Mark::Body, 0),
    ensures
        is_match_head(seq![keyword] + tokens.take(i)),
{
    let head = seq![keyword] + tokens.take(i);
    lemma_find_bound(tokens, Mark::Body, 0);
    lemma_find_first(tokens, Mark::Body, 0);
    assert forall|j: int| 0 <= j < head.len() implies !is_group(
        #[trigger] head[j],
        Delimiter::Brace,
    ) by {
        if j > 0 {
            assert(head[j] == tokens[j - 1]);
        }
    }
}

/// Of a single guarded block.
proof fn lemma_single_sound(
    outcome: Outcome<SpecialModel>,
    s: State,
    in_block: bool,
    rule: Rule,
)
    requires
        is_mild(rule),
        sound(
            outcome.0,
            s.rest,
            |special: SpecialModel| block_everywhere(special.body, s.in_attr, rule),
        ),
        outcome.0 matches Ok(segment) ==> {
            &&& segment.head.len() > 0
            &&& is_word(segment.head[0], "while"@) || is_word(segment.head[0], "for"@)
        },
    ensures
        sound(
            single(outcome).0,
            s.rest,
            |markup: MarkupModel|
                everywhere(markup, Place { in_attr: s.in_attr, in_block }, rule),
        ),
{
    if let (Ok(segment), _) = outcome {
        let segments = seq![segment];
        assert(specials_everywhere(segments, s.in_attr, rule));
        assert(fits(
            MarkupModel::Special { segments },
            Place { in_attr: s.in_attr, in_block },
        ));
    }
}

proof fn lemma_markup_sound(s: State, in_block: bool, rule: Rule)
    requires
        is_mild(rule),
    ensures
        sound(
            markup(s).0,
            s.rest,
            |markup: MarkupModel| everywhere(markup, Place { in_attr: s.in_attr, in_block }, rule),
        ),
    decreases weight(s.rest), 2int,
{
    if s.rest.len() > 0 {
        match s.rest[0] {
            Token::Punct { .. } => {
                if s.rest.len() > 1 {
                    let s1 = s.skip(2);
                    lemma_leaves_skip(s, 2);
                    lemma_leaves_weight(s, s1, 2);
                    if literals_decodable(s.rest) {
                        lemma_decodable_leaves(s, s1);
                    }
                    lemma_special_form_sound(s1, s.rest[1], in_block, rule);
                }
            },
            Token::Ident { .. } => {
                lemma_namespaced_name_leaves(s);
                if let (Ok(name), s1) = namespaced_name(s) {
                    lemma_leaves_weight(s, s1, 1);
                    if literals_decodable(s.rest) {
                        lemma_decodable_leaves(s, s1);
                    }
                    lemma_element_sound(s1, name, in_block, rule);
                }
            },
            Token::Group { .. } => {
                lemma_group_block_sound(s.in_attr, s.rest, 0, rule);
            },
            Token::Literal { .. } => {},
        }
    }
}

proof fn lemma_markups_sound(s: State, rule: Rule)
    requires
        is_mild(rule),
    ensures
        sound(
            markups(s).0,
            s.rest,
            |markups: Seq<MarkupModel>| markups_everywhere(markups, s.in_attr, rule),
        ),
    decreases weight(s.rest), 3int,
{
    lemma_leaves_skip(s, 1);
    lemma_leaves_skip(s, 2);
    if s.rest.len() == 0 {
    } else if starts_with(s.rest, ';') {
        lemma_leaves_weight(s, s.skip(1), 1);
        if literals_decodable(s.rest) {
            lemma_decodable_leaves(s, s.skip(1));
        }
        lemma_markups_sound(s.skip(1), rule);
    } else {
        let first = if starts_with_keyword(s.rest, "let"@) {
            lemma_let_expr_leaves(s.skip(2), s.rest[1]);
            lemma_leaves_trans(s, s.skip(2), let_expr(s.skip(2), s.rest[1]).1, 2, 0);
            lemma_let_sound(s.skip(2), s.rest[1]);
            let_expr(s.skip(2), s.rest[1])
        } else {
            lemma_markup_leaves(s);
            lemma_markup_sound(s, true, rule);
            markup(s)
        };
        if let (Ok(first), s1) = first {
            lemma_leaves_weight(s, s1, 1);
            if literals_decodable(s.rest) {
                lemma_decodable_leaves(s, s1);
            }
            lemma_markups_sound(s1, rule);
            if let Ok(more) = markups(s1).0 {
                let all = seq![first] + more;
                assert forall|i: int| 0 <= i < all.len() implies everywhere(
                    #[trigger] all[i],
                    Place { in_attr: s.in_attr, in_block: true },
                    rule,
                ) by {
                    if i > 0 {
                        assert(all[i] == more[i - 1]);
                    }
                }
            }
        }
    }
}

/// A `@let` that is found is complete.
proof fn lemma_let_sound(s: State, keyword: Token)
    requires
        is_word(keyword, "let"@),
    ensures
        let_expr(s, keyword).0 matches Ok(found) ==> {
            &&& found matches MarkupModel::Let { tokens }
            &&& is_let(tokens)
        },
{
    law_let_verbatim(s, keyword);
    if let Ok(MarkupModel::Let { tokens }) = let_expr(s, keyword).0 {
        let eq = find(s.rest, Mark::Punct('='), 0);
        lemma_find_bound(s.rest, Mark::Punct('='), 0);
        lemma_find_bound(s.rest, Mark::Punct(';'), eq + 1);
        lemma_find_first(s.rest, Mark::Punct('='), 0);
        assert(tokens[eq + 1] == s.rest[eq]);
    }
}

/// No element of a template stands inside an attribute: neither in the value itself nor in any
/// block inside the value.
pub proof fn law_no_element_in_attribute(tokens: Seq<Token>)
    ensures
        template(tokens) matches Ok(markups) ==> markups_everywhere(
            markups,
            false,
            |markup: MarkupModel, place: Place| element_outside_attr(markup, place),
        ),
{
    let rule = |markup: MarkupModel, place: Place| element_outside_attr(markup, place);
    lemma_markups_sound(State { in_attr: false, rest: tokens }, rule);
}

/// Every `@let` of a template stands directly in a block, or in the list that makes up the
/// template. It begins with its keyword, holds a `=`, and ends with a `;`.
pub proof fn law_let_in_block(tokens: Seq<Token>)
    ensures
        template(tokens) matches Ok(markups) ==> markups_everywhere(
            markups,
            false,
            |markup: MarkupModel, place: Place| let_in_block(markup, place),
        ),
{
    let rule = |markup: MarkupModel, place: Place| let_in_block(markup, place);
    lemma_markups_sound(State { in_attr: false, rest: tokens }, rule);
}

/// Every guarded block of a template is headed by `if`, `while` or `for`, and only an `@if` has
/// more branches. The head of every `@match` begins with its keyword and holds no braced block.
pub proof fn law_form_headed(tokens: Seq<Token>)
    ensures
        template(tokens) matches Ok(markups) ==> markups_everywhere(
            markups,
            false,
            |markup: MarkupModel, place: Place| form_headed(markup),
        ),
{
    let rule = |markup: MarkupModel, place: Place| form_headed(markup);
    lemma_markups_sound(State { in_attr: false, rest: tokens }, rule);
}

/// A template that is not valid is reported by one of the known messages.
pub proof fn law_known_message(tokens: Seq<Token>)
    ensures
        template(tokens) matches Err(Failure::Message(message)) ==> is_message(message),
{
    let rule = |markup: MarkupModel, place: Place| fits(markup, place);
    lemma_markups_sound(State { in_attr: false, rest: tokens }, rule);
}

/// There is always an answer if every literal in the template can be decoded.
pub proof fn law_answer_if_decodable(tokens: Seq<Token>)
    requires
        literals_decodable(tokens),
    ensures
        !aborts(template(tokens)),
{
    let rule = |markup: MarkupModel, place: Place| fits(markup, place);
    lemma_markups_sound(State { in_attr: false, rest: tokens }, rule);
}

/// What holds of templates holds of the attributes of an element alone: of all the markup in their
/// values, of the messages, and of when there is an answer.
pub proof fn law_attrs_sound(s: State)
    ensures
        attrs(s, no_attrs()).0 matches Ok(found) ==> attrs_everywhere(
            found,
            |markup: MarkupModel, place: Place| fits(markup, place),
        ),
        attrs(s, no_attrs()).0 matches Err(Failure::Message(message)) ==> is_message(message),
        literals_decodable(s.rest) ==> !aborts(attrs(s, no_attrs()).0),
{
    let rule = |markup: MarkupModel, place: Place| fits(markup, place);
    lemma_attrs_sound(s, no_attrs(), rule);
}

} // verus!
