//! What is parsed does not depend on what follows.
//!
//! Each lemma says of one construct that with more tokens behind the input it is parsed to the
//! same, and leaves those tokens where they are.
use vstd::prelude::*;

use crate::ast::AttrTypeModel;
use crate::ast::AttributeModel;
use crate::ast::AttrsModel;
use crate::ast::SpecialModel;
use crate::ast::TogglerModel;
use crate::grammar::after;
use crate::grammar::attrs;
use crate::grammar::element;
use crate::grammar::else_if_expr;
use crate::grammar::if_expr;
use crate::grammar::lemma_after_after;
use crate::grammar::lemma_after_nothing;
use crate::grammar::let_expr;
use crate::grammar::markup;
use crate::grammar::markups;
use crate::grammar::no_attrs;
use crate::grammar::special;
use crate::grammar::special_form;
use crate::grammar::template;
use crate::grammar::with_attr;
use crate::grammar::with_class;
use crate::grammar::with_id;
use crate::progress::leaves;
use crate::progress::lemma_attr_toggler_leaves;
use crate::progress::lemma_attrs_leaves;
use crate::progress::lemma_leaves_skip;
use crate::progress::lemma_leaves_trans;
use crate::progress::lemma_leaves_weight;
use crate::progress::lemma_let_expr_leaves;
use crate::progress::lemma_markup_leaves;
use crate::progress::lemma_markups_leaves;
use crate::progress::lemma_name_leaves;
use crate::progress::lemma_namespaced_name_leaves;
use crate::progress::lemma_special_leaves;
use crate::scan::attr_toggler;
use crate::scan::find;
use crate::scan::is_mark;
use crate::scan::lemma_find_bound;
use crate::scan::lemma_name_end_bound;
use crate::scan::name;
use crate::scan::name_end;
use crate::scan::name_goes_on;
use crate::scan::namespaced_name;
use crate::scan::starts_with;
use crate::scan::starts_with_keyword;
use crate::scan::Failure;
use crate::scan::Mark;
use crate::scan::Outcome;
use crate::scan::State;
use crate::token::is_ident;
use crate::token::is_punct;
use crate::token::is_word;
use crate::token::Token;
use crate::weight::weight;

verus! {

/// The state with more tokens at the end of the input.
pub open spec fn plus(s: State, more: Seq<Token>) -> State {
    State { in_attr: s.in_attr, rest: s.rest + more }
}

/// Whether no `@else` comes about where more tokens are put behind those of `s`.
pub open spec fn no_new_else(s: State, more: Seq<Token>) -> bool {
    starts_with_keyword(s.rest + more, "else"@) ==> starts_with_keyword(s.rest, "else"@)
}

pub proof fn lemma_plus_skip(s: State, more: Seq<Token>, n: int)
    requires
        0 <= n <= s.rest.len(),
    ensures
        plus(s, more).skip(n) == plus(s.skip(n), more),
{
    assert(plus(s, more).skip(n) =~= plus(s.skip(n), more));
}

pub proof fn lemma_find_plus(tokens: Seq<Token>, more: Seq<Token>, mark: Mark, from: int)
    requires
        0 <= from <= tokens.len(),
        find(tokens, mark, from) < tokens.len(),
    ensures
        find(tokens + more, mark, from) == find(tokens, mark, from),
    decreases tokens.len() - from,
{
    lemma_find_bound(tokens, mark, from);
    assert((tokens + more)[from] == tokens[from]);
    if !is_mark(tokens[from], mark) {
        lemma_find_plus(tokens, more, mark, from + 1);
    }
}

proof fn lemma_name_end_plus(tokens: Seq<Token>, more: Seq<Token>, n: int)
    requires
        0 < n <= tokens.len(),
        name_end(tokens, n) < tokens.len() || !name_goes_on(tokens + more, tokens.len() as int),
    ensures
        name_end(tokens + more, n) == name_end(tokens, n),
    decreases tokens.len() - n,
{
    lemma_name_end_bound(tokens, n);
    if n < tokens.len() {
        assert((tokens + more)[n] == tokens[n]);
        assert((tokens + more)[n - 1] == tokens[n - 1]);
        if name_goes_on(tokens, n) {
            lemma_name_end_plus(tokens, more, n + 1);
        }
    }
}

proof fn lemma_name_plus(s: State, more: Seq<Token>)
    requires
        s.rest.len() > 0,
        name(s).1.rest.len() > 0 || !name_goes_on(s.rest + more, s.rest.len() as int),
    ensures
        name(plus(s, more)) == (name(s).0, plus(name(s).1, more)),
{
    let p = plus(s, more);
    lemma_name_leaves(s);
    assert(p.rest[0] == s.rest[0]);
    if name(s).0 is Ok {
        let n = name_end(s.rest, 1);
        lemma_name_end_bound(s.rest, 1);
        lemma_name_end_plus(s.rest, more, 1);
        lemma_plus_skip(s, more, n);
        assert(p.rest.take(n) =~= s.rest.take(n));
    }
}

proof fn lemma_namespaced_name_plus(s: State, more: Seq<Token>)
    requires
        namespaced_name(s).1.rest.len() > 0,
    ensures
        namespaced_name(plus(s, more)) == (
            namespaced_name(s).0,
            plus(namespaced_name(s).1, more),
        ),
{
    lemma_name_leaves(s);
    if let (Ok(first), s1) = name(s) {
        if starts_with(s1.rest, ':') {
            lemma_leaves_skip(s1, 1);
            lemma_name_leaves(s1.skip(1));
            lemma_name_plus(s, more);
            lemma_plus_skip(s1, more, 1);
            lemma_name_plus(s1.skip(1), more);
            assert(plus(s1, more).rest[0] == s1.rest[0]);
        } else {
            lemma_name_plus(s, more);
            assert(plus(s1, more).rest[0] == s1.rest[0]);
        }
    } else {
        lemma_name_plus(s, more);
    }
}

proof fn lemma_attr_toggler_plus(s: State, more: Seq<Token>)
    requires
        s.rest.len() > 0 || attr_toggler(plus(s, more)).0 is None,
    ensures
        attr_toggler(plus(s, more)) == (attr_toggler(s).0, plus(attr_toggler(s).1, more)),
{
    if s.rest.len() > 0 {
        assert(plus(s, more).rest[0] == s.rest[0]);
        lemma_plus_skip(s, more, 1);
    }
}

proof fn lemma_let_expr_plus(s: State, keyword: Token, more: Seq<Token>)
    requires
        let_expr(s, keyword).0 is Ok,
    ensures
        let_expr(plus(s, more), keyword) == (
            let_expr(s, keyword).0,
            plus(let_expr(s, keyword).1, more),
        ),
{
    let p = plus(s, more);
    let eq = find(s.rest, Mark::Punct('='), 0);
    let semi = find(s.rest, Mark::Punct(';'), eq + 1);
    lemma_find_bound(s.rest, Mark::Punct('='), 0);
    lemma_find_bound(s.rest, Mark::Punct(';'), eq + 1);
    lemma_find_plus(s.rest, more, Mark::Punct('='), 0);
    lemma_find_plus(s.rest, more, Mark::Punct(';'), eq + 1);
    lemma_plus_skip(s, more, semi + 1);
    assert(p.rest.take(semi + 1) =~= s.rest.take(semi + 1));
}

proof fn lemma_special_plus(
    s: State,
    prefix: Seq<Token>,
    from: int,
    message: Seq<char>,
    more: Seq<Token>,
)
    requires
        0 <= from <= s.rest.len(),
        special(s, prefix, from, message).0 is Ok,
    ensures
        special(plus(s, more), prefix, from, message) == (
            special(s, prefix, from, message).0,
            plus(special(s, prefix, from, message).1, more),
        ),
{
    let p = plus(s, more);
    let i = find(s.rest, Mark::Body, from);
    lemma_find_bound(s.rest, Mark::Body, from);
    lemma_find_plus(s.rest, more, Mark::Body, from);
    lemma_plus_skip(s, more, i + 1);
    assert(p.rest[i] == s.rest[i]);
    assert(p.rest.take(i) =~= s.rest.take(i));
}

proof fn lemma_if_expr_plus(
    s: State,
    prefix: Seq<Token>,
    segments: Seq<SpecialModel>,
    more: Seq<Token>,
)
    requires
        if_expr(s, prefix, segments).0 is Ok,
        no_new_else(if_expr(s, prefix, segments).2, more),
    ensures
        ({
            let (result, all, s1) = if_expr(s, prefix, segments);
            if_expr(plus(s, more), prefix, segments) == (result, all, plus(s1, more))
        }),
    decreases weight(s.rest),
{
    let message = "unexpected end of @if expression"@;
    lemma_special_leaves(s, prefix, 0, message);
    if let (Ok(segment), s1) = special(s, prefix, 0, message) {
        lemma_leaves_weight(s, s1, 1);
        lemma_special_plus(s, prefix, 0, message, more);
        lemma_special_leaves(plus(s, more), prefix, 0, message);
        lemma_leaves_weight(plus(s, more), plus(s1, more), 1);
        lemma_else_if_expr_plus(s1, segments.push(segment), more);
    }
}

proof fn lemma_else_if_expr_plus(s: State, segments: Seq<SpecialModel>, more: Seq<Token>)
    requires
        else_if_expr(s, segments).0 is Ok,
        no_new_else(else_if_expr(s, segments).2, more),
    ensures
        ({
            let (result, all, s1) = else_if_expr(s, segments);
            else_if_expr(plus(s, more), segments) == (result, all, plus(s1, more))
        }),
    decreases weight(s.rest),
{
    let p = plus(s, more);
    if starts_with_keyword(s.rest, "else"@) {
        assert(p.rest[0] == s.rest[0]);
        assert(p.rest[1] == s.rest[1]);
        let s1 = s.skip(2);
        lemma_plus_skip(s, more, 2);
        lemma_leaves_skip(s, 2);
        lemma_leaves_weight(s, s1, 2);
        assert(s1.rest.len() > 0);
        assert(plus(s1, more).rest[0] == s1.rest[0]);
        lemma_plus_skip(s1, more, 1);
        if is_word(s1.rest[0], "if"@) {
            lemma_leaves_skip(s1, 1);
            lemma_leaves_weight(s1, s1.skip(1), 1);
            lemma_if_expr_plus(s1.skip(1), seq![s.rest[1], s1.rest[0]], segments, more);
        }
    }
}

proof fn lemma_special_form_plus(s: State, keyword: Token, more: Seq<Token>)
    requires
        special_form(s, keyword).0 is Ok,
        no_new_else(special_form(s, keyword).1, more),
    ensures
        special_form(plus(s, more), keyword) == (
            special_form(s, keyword).0,
            plus(special_form(s, keyword).1, more),
        ),
{
    let p = plus(s, more);
    if is_word(keyword, "if"@) {
        lemma_if_expr_plus(s, seq![keyword], Seq::empty(), more);
    } else if is_word(keyword, "while"@) {
        lemma_special_plus(s, seq![keyword], 0, "unexpected end of @while expression"@, more);
    } else if is_word(keyword, "for"@) {
        let i = find(s.rest, Mark::Word("in"@), 0);
        lemma_find_bound(s.rest, Mark::Word("in"@), 0);
        lemma_find_plus(s.rest, more, Mark::Word("in"@), 0);
        lemma_special_plus(s, seq![keyword], i + 1, "unexpected end of @for expression"@, more);
    } else if is_word(keyword, "match"@) {
        let i = find(s.rest, Mark::Body, 0);
        lemma_find_bound(s.rest, Mark::Body, 0);
        lemma_find_plus(s.rest, more, Mark::Body, 0);
        lemma_plus_skip(s, more, i + 1);
        assert(p.rest[i] == s.rest[i]);
        assert(p.rest.take(i) =~= s.rest.take(i));
    }
}

/// Whether attributes that end at `s` are followed by the rest of an element.
spec fn element_goes_on(s: State) -> bool {
    starts_with(s.rest, ';') || starts_with(s.rest, '/') || markup(s).0 is Ok
}

/// The rest of an element is neither empty nor just an `@`, so it does not become an `@else`.
proof fn lemma_no_new_else(s: State, more: Seq<Token>)
    requires
        s.rest.len() > 0,
        s.rest.len() > 1 || !is_punct(s.rest[0], '@'),
    ensures
        no_new_else(s, more),
{
    assert((s.rest + more)[0] == s.rest[0]);
    if s.rest.len() > 1 {
        assert((s.rest + more)[1] == s.rest[1]);
    }
}

/// Whether there is an attribute at the front of the input.
pub open spec fn is_attr(s: State) -> bool {
    let (found, s1) = namespaced_name(s);
    match found {
        Ok(_) => starts_with(s1.rest, '=') || starts_with(s1.rest, '?'),
        Err(_) => starts_with(s.rest, '.') || starts_with(s.rest, '#'),
    }
}

/// Attributes end where a name that is no attribute, or something else, begins.
proof fn lemma_attrs_end_plus(s: State, seen: AttrsModel, more: Seq<Token>)
    requires
        !is_attr(s),
        element_goes_on(s),
    ensures
        attrs(plus(s, more), seen) == (Ok::<AttrsModel, Failure>(seen), plus(s, more)),
{
    let (found, s1) = namespaced_name(s);
    lemma_namespaced_name_leaves(s);
    assert(s.rest.len() > 0);
    assert(plus(s, more).rest[0] == s.rest[0]);
    if s1.rest.len() == 0 {
        // Then the element would be at the end of the input.
        assert(s.rest[0] is Ident);
        assert(markup(s).0 is Ok);
        assert(found is Ok);
        lemma_element_at_end(s1, found->Ok_0);
        assert(false);
    }
    lemma_namespaced_name_plus(s, more);
    assert(plus(s1, more).rest[0] == s1.rest[0]);
}

/// No element is complete at the end of the input.
proof fn lemma_element_at_end(s: State, name: Seq<Token>)
    requires
        s.rest.len() == 0,
    ensures
        element(s, name).0 is Err,
{
    if !s.in_attr {
        assert(namespaced_name(s) == (
            Err::<Seq<Token>, Failure>(Failure::Message("expected identifier"@)),
            s,
        ));
        assert(attrs(s, no_attrs()) == (Ok::<AttrsModel, Failure>(no_attrs()), s));
        assert(markup(s).0 is Err);
    }
}

/// Where attributes end and the rest of an element follows, there is more than just an `@`.
proof fn lemma_attrs_not_at_end(s: State, seen: AttrsModel)
    requires
        attrs(s, seen).0 is Ok,
        element_goes_on(attrs(s, seen).1),
    ensures
        s.rest.len() > 0,
        s.rest.len() > 1 || !is_punct(s.rest[0], '@'),
{
    if s.rest.len() == 0 || s.rest.len() == 1 && is_punct(s.rest[0], '@') {
        assert(name(s).1 == s);
        assert(attrs(s, seen).1 == s);
        assert(markup(s).0 is Err);
    }
}

proof fn lemma_attrs_plus(s: State, seen: AttrsModel, more: Seq<Token>)
    requires
        attrs(s, seen).0 is Ok,
        element_goes_on(attrs(s, seen).1),
    ensures
        attrs(plus(s, more), seen) == (attrs(s, seen).0, plus(attrs(s, seen).1, more)),
    decreases weight(s.rest), 2int,
{
    let (found, s1) = namespaced_name(s);
    lemma_namespaced_name_leaves(s);
    if !is_attr(s) {
        lemma_attrs_end_plus(s, seen, more);
    } else {
        assert(plus(s, more).rest[0] == s.rest[0]);
        match found {
            Ok(found) => {
                let after = s1.skip(1);
                lemma_leaves_skip(s1, 1);
                lemma_leaves_trans(s, s1, after, 0, 1);
                lemma_leaves_weight(s, after, 1);
                lemma_namespaced_name_plus(s, more);
                lemma_plus_skip(s1, more, 1);
                assert(plus(s1, more).rest[0] == s1.rest[0]);
                if starts_with(s1.rest, '=') {
                    let v = State { in_attr: true, rest: after.rest };
                    lemma_markup_leaves(v);
                    if let (Ok(value), s2) = markup(v) {
                        lemma_leaves_weight(v, s2, 1);
                        let s3 = State { in_attr: s.in_attr, rest: s2.rest };
                        let now = with_attr(seen, found, AttrTypeModel::Normal { value });
                        lemma_attrs_not_at_end(s3, now);
                        lemma_no_new_else(s2, more);
                        lemma_markup_plus(v, more);
                        lemma_value_plus(s, seen, more);
                        lemma_attrs_plus(s3, now, more);
                    }
                } else {
                    let (toggler, s2) = attr_toggler(after);
                    let now = with_attr(seen, found, AttrTypeModel::Empty { toggler });
                    lemma_attr_toggler_leaves(after);
                    lemma_leaves_weight(after, s2, 0);
                    lemma_attrs_not_at_end(s2, now);
                    lemma_attr_toggler_plus(after, more);
                    lemma_attrs_plus(s2, now, more);
                }
            },
            Err(_) => {
                let after = s.skip(1);
                lemma_leaves_skip(s, 1);
                lemma_leaves_weight(s, after, 1);
                lemma_plus_skip(s, more, 1);
                lemma_name_leaves(after);
                if let (Ok(found), s2) = name(after) {
                    lemma_leaves_weight(after, s2, 1);
                    if starts_with(s.rest, '.') {
                        let (toggler, s3) = attr_toggler(s2);
                        let now = with_class(seen, found, toggler);
                        lemma_attr_toggler_leaves(s2);
                        lemma_leaves_weight(s2, s3, 0);
                        lemma_attrs_not_at_end(s3, now);
                        lemma_name_plus(after, more);
                        lemma_attr_toggler_plus(s2, more);
                        lemma_attrs_plus(s3, now, more);
                    } else {
                        let now = with_id(seen, found);
                        lemma_attrs_not_at_end(s2, now);
                        lemma_name_plus(after, more);
                        lemma_attrs_plus(s2, now, more);
                    }
                }
            },
        }
    }
}

/// An attribute with a value is the same with more tokens behind, if the value is.
proof fn lemma_value_plus(s: State, seen: AttrsModel, more: Seq<Token>)
    requires
        ({
            let (found, s1) = namespaced_name(s);
            let v = State { in_attr: true, rest: s1.skip(1).rest };
            &&& found is Ok
            &&& starts_with(s1.rest, '=')
            &&& markup(v).0 is Ok
            &&& markup(plus(v, more)) == (markup(v).0, plus(markup(v).1, more))
        }),
    ensures
        ({
            let (found, s1) = namespaced_name(s);
            let (value, s2) = markup(State { in_attr: true, rest: s1.skip(1).rest });
            let s3 = State { in_attr: s.in_attr, rest: s2.rest };
            let now = with_attr(seen, found->Ok_0, AttrTypeModel::Normal { value: value->Ok_0 });
            &&& attrs(s, seen) == attrs(s3, now)
            &&& attrs(plus(s, more), seen) == attrs(plus(s3, more), now)
        }),
{
    let (found, s1) = namespaced_name(s);
    let after = s1.skip(1);
    let v = State { in_attr: true, rest: after.rest };
    let s2 = markup(v).1;
    lemma_namespaced_name_leaves(s);
    lemma_leaves_skip(s1, 1);
    lemma_markup_leaves(v);
    lemma_leaves_weight(s, s1, 1);
    lemma_leaves_weight(s1, after, 1);
    lemma_leaves_weight(v, s2, 1);
    let p = plus(s, more);
    lemma_namespaced_name_plus(s, more);
    lemma_plus_skip(s1, more, 1);
    assert(plus(s1, more).rest[0] == s1.rest[0]);
    lemma_namespaced_name_leaves(p);
    lemma_leaves_skip(plus(s1, more), 1);
    lemma_markup_leaves(plus(v, more));
    lemma_leaves_weight(p, plus(s1, more), 1);
    lemma_leaves_weight(plus(s1, more), plus(after, more), 1);
    lemma_leaves_weight(plus(v, more), plus(s2, more), 1);
}

proof fn lemma_element_plus(s: State, name: Seq<Token>, more: Seq<Token>)
    requires
        element(s, name).0 is Ok,
        no_new_else(element(s, name).1, more),
    ensures
        element(plus(s, more), name) == (element(s, name).0, plus(element(s, name).1, more)),
    decreases weight(s.rest), 3int,
{
    let p = plus(s, more);
    let (found, s1) = attrs(s, no_attrs());
    lemma_attrs_leaves(s, no_attrs());
    lemma_leaves_weight(s, s1, 0);
    assert(element_goes_on(s1));
    lemma_attrs_plus(s, no_attrs(), more);
    lemma_attrs_leaves(p, no_attrs());
    lemma_leaves_weight(p, plus(s1, more), 0);
    if s1.rest.len() == 0 {
        assert(markup(s1).0 is Err);
    }
    assert(plus(s1, more).rest[0] == s1.rest[0]);
    if starts_with(s1.rest, ';') || starts_with(s1.rest, '/') {
        lemma_plus_skip(s1, more, 1);
    } else {
        lemma_markup_plus(s1, more);
    }
}

proof fn lemma_markup_plus(s: State, more: Seq<Token>)
    requires
        markup(s).0 is Ok,
        no_new_else(markup(s).1, more),
    ensures
        markup(plus(s, more)) == (markup(s).0, plus(markup(s).1, more)),
    decreases weight(s.rest), 2int,
{
    let p = plus(s, more);
    assert(s.rest.len() > 0);
    assert(p.rest[0] == s.rest[0]);
    lemma_plus_skip(s, more, 1);
    match s.rest[0] {
        Token::Punct { .. } => {
            assert(p.rest[1] == s.rest[1]);
            lemma_plus_skip(s, more, 2);
            lemma_special_form_plus(s.skip(2), s.rest[1], more);
        },
        Token::Ident { .. } => {
            lemma_namespaced_name_leaves(s);
            if let (Ok(name), s1) = namespaced_name(s) {
                lemma_leaves_weight(s, s1, 1);
                if s1.rest.len() == 0 {
                    lemma_element_at_end(s1, name);
                }
                lemma_namespaced_name_plus(s, more);
                lemma_element_plus(s1, name, more);
            }
        },
        _ => {},
    }
}

/// What comes before does not depend on what follows, and what follows not on what comes before.
pub proof fn lemma_markups_plus(s: State, more: Seq<Token>)
    requires
        markups(s).0 is Ok,
        !starts_with_keyword(more, "else"@),
    ensures
        markups(s) matches (Ok(found), end) && markups(plus(s, more)) == after(
            found,
            markups(plus(end, more)),
        ),
    decreases weight(s.rest),
{
    let p = plus(s, more);
    lemma_markups_leaves(s);
    if s.rest.len() == 0 {
        lemma_after_nothing(markups(p));
    } else if starts_with(s.rest, ';') {
        assert(p.rest[0] == s.rest[0]);
        lemma_plus_skip(s, more, 1);
        lemma_leaves_skip(s, 1);
        lemma_leaves_weight(s, s.skip(1), 1);
        lemma_markups_plus(s.skip(1), more);
    } else {
        assert(p.rest[0] == s.rest[0]);
        lemma_not_just_at(s);
        if s.rest.len() > 1 {
            assert(p.rest[1] == s.rest[1]);
        }
        if starts_with_keyword(s.rest, "let"@) {
            let s0 = s.skip(2);
            lemma_plus_skip(s, more, 2);
            lemma_leaves_skip(s, 2);
            lemma_let_expr_leaves(s0, s.rest[1]);
            if let (Ok(first), s1) = let_expr(s0, s.rest[1]) {
                lemma_leaves_trans(s, s0, s1, 2, 0);
                lemma_leaves_weight(s, s1, 1);
                lemma_let_expr_plus(s0, s.rest[1], more);
                lemma_let_expr_leaves(plus(s0, more), s.rest[1]);
                lemma_leaves_skip(p, 2);
                lemma_leaves_trans(p, plus(s0, more), plus(s1, more), 2, 0);
                lemma_leaves_weight(p, plus(s1, more), 1);
                lemma_markups_plus(s1, more);
                lemma_after_after(seq![first], markups(s1).0->Ok_0, markups(plus(s1.end(), more)));
                lemma_markups_leaves(s1);
            }
        } else {
            lemma_markup_leaves(s);
            if let (Ok(first), s1) = markup(s) {
                lemma_leaves_weight(s, s1, 1);
                if s1.rest.len() == 0 {
                    assert(s1.rest + more =~= more);
                } else {
                    lemma_not_just_at(s1);
                    lemma_no_new_else(s1, more);
                }
                lemma_markup_plus(s, more);
                lemma_markup_leaves(p);
                lemma_leaves_weight(p, plus(s1, more), 1);
                lemma_markups_plus(s1, more);
                lemma_after_after(seq![first], markups(s1).0->Ok_0, markups(plus(s1.end(), more)));
                lemma_markups_leaves(s1);
            }
        }
    }
}

/// Valid markup is not just an `@`.
proof fn lemma_not_just_at(s: State)
    requires
        s.rest.len() > 0,
        markups(s).0 is Ok,
    ensures
        s.rest.len() > 1 || !is_punct(s.rest[0], '@'),
{
    if s.rest.len() == 1 && is_punct(s.rest[0], '@') {
        assert(markup(s).0 is Err);
    }
}

/// Two templates side by side are parsed as each is on its own, unless the second one starts
/// with an `@else`: that would belong to an `@if` at the end of the first.
pub proof fn law_side_by_side(a: Seq<Token>, b: Seq<Token>)
    requires
        !starts_with_keyword(b, "else"@),
    ensures
        template(a) matches Ok(first) ==> template(a + b) == match template(b) {
            Ok(second) => Ok(first + second),
            Err(e) => Err(e),
        },
{
    let s = State { in_attr: false, rest: a };
    if markups(s).0 is Ok {
        lemma_markups_leaves(s);
        lemma_markups_plus(s, b);
        assert(plus(s.end(), b) =~= State { in_attr: false, rest: b });
    }
}

/// The attributes in `a`, and behind them those in `b`, kind by kind.
pub open spec fn both_attrs(a: AttrsModel, b: AttrsModel) -> AttrsModel {
    AttrsModel {
        classes_static: a.classes_static + b.classes_static,
        classes_toggled: a.classes_toggled + b.classes_toggled,
        ids: a.ids + b.ids,
        attrs: a.attrs + b.attrs,
    }
}

/// An outcome with more attributes in front, if there are attributes at all.
pub open spec fn after_attrs(front: AttrsModel, outcome: Outcome<AttrsModel>) -> Outcome<
    AttrsModel,
> {
    match outcome {
        (Ok(found), s) => (Ok(both_attrs(front, found)), s),
        (Err(e), s) => (Err(e), s),
    }
}

/// Whether the tokens start as an attribute does: with a name, a `.` or a `#`.
pub open spec fn starts_as_attr(tokens: Seq<Token>) -> bool {
    &&& tokens.len() > 0
    &&& is_ident(tokens[0]) || is_punct(tokens[0], '.') || is_punct(tokens[0], '#')
}

pub proof fn lemma_both_attrs(front: AttrsModel, seen: AttrsModel, name: Seq<Token>)
    ensures
        both_attrs(front, no_attrs()) == front,
        both_attrs(no_attrs(), front) == front,
        forall|attr_type: AttrTypeModel|
            #![trigger with_attr(seen, name, attr_type)]
            with_attr(both_attrs(front, seen), name, attr_type) == both_attrs(
                front,
                with_attr(seen, name, attr_type),
            ),
        forall|toggler: Option<TogglerModel>|
            #![trigger with_class(seen, name, toggler)]
            with_class(both_attrs(front, seen), name, toggler) == both_attrs(
                front,
                with_class(seen, name, toggler),
            ),
        with_id(both_attrs(front, seen), name) == both_attrs(front, with_id(seen, name)),
{
    let none = no_attrs();
    assert(front.classes_static + none.classes_static =~= front.classes_static);
    assert(front.classes_toggled + none.classes_toggled =~= front.classes_toggled);
    assert(front.ids + none.ids =~= front.ids);
    assert(front.attrs + none.attrs =~= front.attrs);
    assert(none.classes_static + front.classes_static =~= front.classes_static);
    assert(none.classes_toggled + front.classes_toggled =~= front.classes_toggled);
    assert(none.ids + front.ids =~= front.ids);
    assert(none.attrs + front.attrs =~= front.attrs);
    assert forall|attr_type: AttrTypeModel|
        #![trigger with_attr(seen, name, attr_type)]
        with_attr(both_attrs(front, seen), name, attr_type) == both_attrs(
            front,
            with_attr(seen, name, attr_type),
        ) by {
        let one = AttributeModel { name, attr_type };
        assert((front.attrs + seen.attrs).push(one) =~= front.attrs + seen.attrs.push(one));
    }
    assert forall|toggler: Option<TogglerModel>|
        #![trigger with_class(seen, name, toggler)]
        with_class(both_attrs(front, seen), name, toggler) == both_attrs(
            front,
            with_class(seen, name, toggler),
        ) by {
        match toggler {
            Some(toggler) => {
                let one = (name, toggler);
                assert((front.classes_toggled + seen.classes_toggled).push(one)
                    =~= front.classes_toggled + seen.classes_toggled.push(one));
            },
            None => {
                assert((front.classes_static + seen.classes_static).push(name)
                    =~= front.classes_static + seen.classes_static.push(name));
            },
        }
    }
    assert((front.ids + seen.ids).push(name) =~= front.ids + seen.ids.push(name));
}

/// Attributes that were found before make no difference to those that are still to come.
pub proof fn lemma_attrs_after(s: State, front: AttrsModel, seen: AttrsModel)
    ensures
        attrs(s, both_attrs(front, seen)) == after_attrs(front, attrs(s, seen)),
    decreases weight(s.rest),
{
    let (found, s1) = namespaced_name(s);
    lemma_namespaced_name_leaves(s);
    match found {
        Ok(found) => {
            let after = s1.skip(1);
            lemma_both_attrs(front, seen, found);
            lemma_leaves_skip(s1, 1);
            lemma_leaves_weight(s, s1, 1);
            if starts_with(s1.rest, '=') {
                let v = State { in_attr: true, rest: after.rest };
                lemma_leaves_weight(s1, after, 1);
                lemma_markup_leaves(v);
                if let (Ok(value), s2) = markup(v) {
                    lemma_leaves_weight(v, s2, 1);
                    lemma_attrs_after(
                        State { in_attr: s.in_attr, rest: s2.rest },
                        front,
                        with_attr(seen, found, AttrTypeModel::Normal { value }),
                    );
                }
            } else if starts_with(s1.rest, '?') {
                let (toggler, s2) = attr_toggler(after);
                lemma_attr_toggler_leaves(after);
                lemma_leaves_weight(s1, after, 1);
                lemma_leaves_weight(after, s2, 0);
                lemma_attrs_after(
                    s2,
                    front,
                    with_attr(seen, found, AttrTypeModel::Empty { toggler }),
                );
            }
        },
        Err(_) => {
            let after = s.skip(1);
            lemma_leaves_skip(s, 1);
            lemma_leaves_weight(s, after, 0);
            lemma_name_leaves(after);
            if let (Ok(found), s2) = name(after) {
                lemma_both_attrs(front, seen, found);
                lemma_leaves_weight(after, s2, 1);
                if starts_with(s.rest, '.') {
                    let (toggler, s3) = attr_toggler(s2);
                    lemma_attr_toggler_leaves(s2);
                    lemma_leaves_weight(s2, s3, 0);
                    lemma_attrs_after(s3, front, with_class(seen, found, toggler));
                } else if starts_with(s.rest, '#') {
                    lemma_attrs_after(s2, front, with_id(seen, found));
                }
            }
        },
    }
}

/// Attributes that take all the input are empty, or start as one attribute does.
proof fn lemma_attrs_start(s: State, seen: AttrsModel)
    requires
        attrs(s, seen).0 is Ok,
        attrs(s, seen).1.rest.len() == 0,
        s.rest.len() > 0,
    ensures
        is_attr(s),
        starts_as_attr(s.rest),
{
}

/// The last token stays the last one as tokens are consumed.
proof fn lemma_last(s: State, later: State)
    requires
        leaves(s, later, 0),
        later.rest.len() > 0,
    ensures
        later.rest.last() == s.rest.last(),
{
}

/// Where attributes take all the input, parsing goes on with what is put behind.
proof fn lemma_attrs_then(s: State, seen: AttrsModel, more: Seq<Token>)
    requires
        attrs(s, seen).0 is Ok,
        attrs(s, seen).1.rest.len() == 0,
        s.rest.len() > 0 ==> !is_punct(s.rest.last(), '-'),
        more.len() > 0 ==> starts_as_attr(more),
    ensures
        attrs(plus(s, more), seen) == attrs(plus(s.end(), more), attrs(s, seen).0->Ok_0),
    decreases weight(s.rest),
{
    let p = plus(s, more);
    let (found, s1) = namespaced_name(s);
    lemma_namespaced_name_leaves(s);
    if s.rest.len() == 0 {
        assert(s =~= s.end());
    } else {
        lemma_attrs_start(s, seen);
        assert(p.rest[0] == s.rest[0]);
        match found {
            Ok(found) => {
                let after = s1.skip(1);
                lemma_leaves_skip(s1, 1);
                lemma_leaves_trans(s, s1, after, 0, 1);
                lemma_leaves_weight(s, after, 1);
                lemma_namespaced_name_plus(s, more);
                lemma_plus_skip(s1, more, 1);
                assert(plus(s1, more).rest[0] == s1.rest[0]);
                if starts_with(s1.rest, '=') {
                    let v = State { in_attr: true, rest: after.rest };
                    lemma_markup_leaves(v);
                    if let (Ok(value), s2) = markup(v) {
                        lemma_leaves_weight(v, s2, 1);
                        let s3 = State { in_attr: s.in_attr, rest: s2.rest };
                        let now = with_attr(seen, found, AttrTypeModel::Normal { value });
                        if s3.rest.len() == 0 {
                            assert(s2.rest + more =~= more);
                        } else {
                            lemma_attrs_start(s3, now);
                            lemma_no_new_else(s2, more);
                            lemma_leaves_trans(s, after, s3, 0, 0);
                            lemma_last(s, s3);
                        }
                        lemma_markup_plus(v, more);
                        lemma_value_plus(s, seen, more);
                        lemma_attrs_then(s3, now, more);
                    }
                } else {
                    let (toggler, s2) = attr_toggler(after);
                    let now = with_attr(seen, found, AttrTypeModel::Empty { toggler });
                    lemma_attr_toggler_leaves(after);
                    lemma_leaves_weight(after, s2, 0);
                    lemma_leaves_trans(s, after, s2, 0, 0);
                    if s2.rest.len() > 0 {
                        lemma_last(s, s2);
                    }
                    assert(after.rest.len() == 0 ==> after.rest + more =~= more);
                    lemma_attr_toggler_plus(after, more);
                    lemma_attrs_then(s2, now, more);
                }
            },
            Err(_) => {
                let after = s.skip(1);
                lemma_leaves_skip(s, 1);
                lemma_leaves_weight(s, after, 1);
                lemma_plus_skip(s, more, 1);
                lemma_name_leaves(after);
                if let (Ok(found), s2) = name(after) {
                    lemma_leaves_weight(after, s2, 1);
                    lemma_last(s, after);
                    if more.len() > 0 {
                        let end = after.rest.len() as int;
                        assert((after.rest + more)[end] == more[0]);
                        assert((after.rest + more)[end - 1] == after.rest.last());
                    }
                    lemma_name_plus(after, more);
                    lemma_leaves_trans(s, after, s2, 0, 1);
                    if starts_with(s.rest, '.') {
                        let (toggler, s3) = attr_toggler(s2);
                        let now = with_class(seen, found, toggler);
                        lemma_attr_toggler_leaves(s2);
                        lemma_leaves_weight(s2, s3, 0);
                        lemma_leaves_trans(s, s2, s3, 0, 0);
                        if s3.rest.len() > 0 {
                            lemma_last(s, s3);
                        }
                        assert(s2.rest.len() == 0 ==> s2.rest + more =~= more);
                        lemma_attr_toggler_plus(s2, more);
                        lemma_attrs_then(s3, now, more);
                    } else {
                        let now = with_id(seen, found);
                        if s2.rest.len() > 0 {
                            lemma_last(s, s2);
                        }
                        lemma_attrs_then(s2, now, more);
                    }
                }
            },
        }
    }
}

/// Attributes that take all of `a`, with more tokens behind that start as an attribute does: the
/// attributes of what follows are put behind those of `a`, and what follows is left as it would be
/// without `a`.
///
/// Where `a` ends in a `-`, a name that follows would go on from there.
pub proof fn law_attrs_then(a: Seq<Token>, b: Seq<Token>, in_attr: bool)
    requires
        a.len() > 0 ==> !is_punct(a.last(), '-'),
        b.len() > 0 ==> starts_as_attr(b),
    ensures
        attrs(State { in_attr, rest: a }, no_attrs()) matches (Ok(first), end) ==> (end.rest.len()
            == 0 ==> attrs(State { in_attr, rest: a + b }, no_attrs()) == after_attrs(
            first,
            attrs(State { in_attr, rest: b }, no_attrs()),
        )),
{
    let s = State { in_attr, rest: a };
    if let (Ok(first), end) = attrs(s, no_attrs()) {
        if end.rest.len() == 0 {
            lemma_attrs_then(s, no_attrs(), b);
            assert(plus(s, b) == State { in_attr, rest: a + b });
            assert(plus(s.end(), b) =~= State { in_attr, rest: b });
            lemma_both_attrs(first, no_attrs(), Seq::empty());
            lemma_attrs_after(State { in_attr, rest: b }, first, no_attrs());
        }
    }
}

/// The attributes of two stretches side by side, where each is attributes and nothing else, are
/// those of the first and behind them those of the second, kind by kind: each list is in source
/// order, what occurs twice is kept twice, and the kinds may be mixed.
///
/// Where the first ends in a `-`, a name that follows would go on from there.
pub proof fn law_attrs_side_by_side(a: Seq<Token>, b: Seq<Token>, in_attr: bool)
    requires
        a.len() > 0 ==> !is_punct(a.last(), '-'),
        attrs(State { in_attr, rest: a }, no_attrs()).0 is Ok,
        attrs(State { in_attr, rest: a }, no_attrs()).1.rest.len() == 0,
        attrs(State { in_attr, rest: b }, no_attrs()).0 is Ok,
        attrs(State { in_attr, rest: b }, no_attrs()).1.rest.len() == 0,
    ensures
        attrs(State { in_attr, rest: a + b }, no_attrs()) == (
            Ok::<AttrsModel, Failure>(
                both_attrs(
                    attrs(State { in_attr, rest: a }, no_attrs()).0->Ok_0,
                    attrs(State { in_attr, rest: b }, no_attrs()).0->Ok_0,
                ),
            ),
            (State { in_attr, rest: Seq::empty() }),
        ),
{
    let s = State { in_attr, rest: b };
    if b.len() > 0 {
        lemma_attrs_start(s, no_attrs());
    }
    lemma_attrs_leaves(s, no_attrs());
    assert(attrs(s, no_attrs()).1 =~= State { in_attr, rest: Seq::empty() });
    law_attrs_then(a, b, in_attr);
}

} // verus!
