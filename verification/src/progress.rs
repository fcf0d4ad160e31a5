//! Parsing only ever moves forward.
use vstd::prelude::*;

use crate::ast::AttrTypeModel;
use crate::ast::AttrsModel;
use crate::ast::SpecialModel;
use crate::grammar::attrs;
use crate::grammar::element;
use crate::grammar::else_if_expr;
use crate::grammar::if_expr;
use crate::grammar::let_expr;
use crate::grammar::markup;
use crate::grammar::markups;
use crate::grammar::match_arm;
use crate::grammar::match_arms;
use crate::grammar::no_attrs;
use crate::grammar::special;
use crate::grammar::special_form;
use crate::grammar::with_attr;
use crate::grammar::with_class;
use crate::grammar::with_id;
use crate::scan::attr_toggler;
use crate::scan::find;
use crate::scan::find_arrow;
use crate::scan::group_scan;
use crate::scan::lemma_name_end_bound;
use crate::scan::lemma_skip_skip;
use crate::scan::name;
use crate::scan::name_end;
use crate::scan::namespaced_name;
use crate::scan::starts_with;
use crate::scan::starts_with_keyword;
use crate::scan::Mark;
use crate::scan::State;
use crate::token::is_word;
use crate::token::Token;
use crate::weight::group_weight;
use crate::weight::weight;

verus! {

broadcast use {group_scan, group_weight};

/// Whether `later` is `s` without some of its first tokens, at least `n` of them.
pub open spec fn leaves(s: State, later: State, n: nat) -> bool {
    &&& later.rest.len() + n <= s.rest.len()
    &&& later.rest == s.rest.skip(s.rest.len() - later.rest.len())
}

/// Steps forward add up.
pub broadcast proof fn lemma_leaves_trans(a: State, b: State, c: State, m: nat, n: nat)
    requires
        #[trigger] leaves(a, b, m),
        #[trigger] leaves(b, c, n),
    ensures
        leaves(a, c, m + n),
{
    assert(c.rest =~= a.rest.skip(a.rest.len() - c.rest.len()));
}

/// To consume tokens is to move forward.
pub proof fn lemma_leaves_skip(s: State, n: int)
    requires
        0 <= n,
    ensures
        leaves(s, s, 0),
        leaves(s, s.skip(n), 0),
        n <= s.rest.len() ==> leaves(s, s.skip(n), n as nat),
{
    assert(s.rest =~= s.rest.skip(0));
    assert(s.skip(n).rest =~= s.rest.skip(s.rest.len() - s.skip(n).rest.len()));
}

/// The end of the input is further on.
pub proof fn lemma_leaves_end(s: State)
    ensures
        leaves(s, s.end(), 0),
{
    assert(s.end().rest =~= s.rest.skip(s.rest.len() as int));
}

/// A step forward makes the input lighter.
pub proof fn lemma_leaves_weight(s: State, later: State, n: nat)
    requires
        leaves(s, later, n),
    ensures
        weight(later.rest) + n <= weight(s.rest),
{
}

/// A name takes at least one token; without one nothing is consumed.
pub proof fn lemma_name_leaves(s: State)
    ensures
        leaves(s, name(s).1, 0),
        name(s).0 is Ok ==> leaves(s, name(s).1, 1),
{
    if s.rest.len() > 0 {
        lemma_name_end_bound(s.rest, 1);
    }
    lemma_leaves_skip(s, 0);
    if name(s).0 is Ok {
        lemma_leaves_skip(s, name_end(s.rest, 1));
    }
}

/// A name, namespace included, takes at least one token; nothing is put back without one.
pub proof fn lemma_namespaced_name_leaves(s: State)
    ensures
        leaves(s, namespaced_name(s).1, 0),
        namespaced_name(s).0 is Ok ==> leaves(s, namespaced_name(s).1, 1),
{
    broadcast use lemma_leaves_trans;

    lemma_name_leaves(s);
    let s1 = name(s).1;
    if name(s).0 is Ok && starts_with(s1.rest, ':') {
        lemma_leaves_skip(s1, 1);
        lemma_name_leaves(s1.skip(1));
        assert(leaves(s, s1.skip(1), 2));
    }
}

/// A `@let` stays within the input.
pub proof fn lemma_let_expr_leaves(s: State, keyword: Token)
    ensures
        leaves(s, let_expr(s, keyword).1, 0),
        let_expr(s, keyword).1.in_attr == s.in_attr,
{
    lemma_leaves_end(s);
    let eq = find(s.rest, Mark::Punct('='), 0);
    let semi = find(s.rest, Mark::Punct(';'), eq + 1);
    if eq < s.rest.len() && semi < s.rest.len() {
        lemma_leaves_skip(s, semi + 1);
    }
}

/// A condition of an attribute takes one token, or none.
pub proof fn lemma_attr_toggler_leaves(s: State)
    ensures
        leaves(s, attr_toggler(s).1, 0),
        attr_toggler(s).1.in_attr == s.in_attr,
{
    lemma_leaves_skip(s, 1);
}

/// A guarded block takes at least one token.
pub proof fn lemma_special_leaves(s: State, prefix: Seq<Token>, from: int, message: Seq<char>)
    requires
        0 <= from <= s.rest.len(),
    ensures
        ({
            let (result, s1) = special(s, prefix, from, message);
            &&& leaves(s, s1, 0)
            &&& result is Ok ==> leaves(s, s1, 1)
            &&& s1.in_attr == s.in_attr
        }),
{
    broadcast use lemma_leaves_trans;

    lemma_leaves_end(s);
    let i = find(s.rest, Mark::Body, from);
    if i < s.rest.len() {
        lemma_leaves_skip(s, i + 1);
        lemma_leaves_skip(s, 1);
    }
}

/// An `@if` with all its branches takes at least one token after its keyword.
pub proof fn lemma_if_expr_leaves(s: State, prefix: Seq<Token>, segments: Seq<SpecialModel>)
    ensures
        leaves(s, if_expr(s, prefix, segments).2, 0),
        if_expr(s, prefix, segments).0 is Ok ==> leaves(s, if_expr(s, prefix, segments).2, 1),
        if_expr(s, prefix, segments).2.in_attr == s.in_attr,
    decreases weight(s.rest),
{
    broadcast use lemma_leaves_trans;

    lemma_special_leaves(s, prefix, 0, "unexpected end of @if expression"@);
    match special(s, prefix, 0, "unexpected end of @if expression"@) {
        (Ok(segment), s1) => {
            lemma_leaves_weight(s, s1, 1);
            lemma_else_if_expr_leaves(s1, segments.push(segment));
        },
        _ => {},
    }
}

/// What follows the branch of an `@if` stays within the input.
pub proof fn lemma_else_if_expr_leaves(s: State, segments: Seq<SpecialModel>)
    ensures
        leaves(s, else_if_expr(s, segments).2, 0),
        else_if_expr(s, segments).2.in_attr == s.in_attr,
    decreases weight(s.rest),
{
    broadcast use {lemma_leaves_trans, lemma_skip_skip};

    lemma_leaves_skip(s, 3);
    if starts_with_keyword(s.rest, "else"@) {
        let s1 = s.skip(2);
        if s1.rest.len() > 0 && is_word(s1.rest[0], "if"@) {
            lemma_leaves_weight(s, s.skip(3), 3);
            lemma_if_expr_leaves(s1.skip(1), seq![s.rest[1], s1.rest[0]], segments);
        }
    }
}

/// A special form stays within the input.
pub proof fn lemma_special_form_leaves(s: State, keyword: Token)
    ensures
        leaves(s, special_form(s, keyword).1, 0),
        special_form(s, keyword).1.in_attr == s.in_attr,
{
    lemma_leaves_end(s);
    lemma_leaves_skip(s, 0);
    lemma_if_expr_leaves(s, seq![keyword], Seq::empty());
    lemma_special_leaves(s, seq![keyword], 0, "unexpected end of @while expression"@);
    let i = find(s.rest, Mark::Word("in"@), 0);
    if i < s.rest.len() {
        lemma_special_leaves(s, seq![keyword], i + 1, "unexpected end of @for expression"@);
    }
    let i = find(s.rest, Mark::Body, 0);
    if i < s.rest.len() {
        lemma_leaves_skip(s, i + 1);
    }
}

/// An arm of a `@match` takes at least one token.
pub proof fn lemma_match_arm_leaves(s: State)
    ensures
        leaves(s, match_arm(s).1, 0),
        match_arm(s).0 matches Ok(Some(_)) ==> leaves(s, match_arm(s).1, 1),
        match_arm(s).1.in_attr == s.in_attr,
        match_arm(s).0 matches Ok(None) ==> match_arm(s).1.rest.len() == 0,
{
    broadcast use {lemma_leaves_trans, lemma_skip_skip};

    lemma_leaves_end(s);
    lemma_leaves_skip(s, 0);
    lemma_leaves_skip(s, 1);
    let arrow = find_arrow(s.rest, 0);
    if arrow < s.rest.len() {
        let start = arrow + 2;
        lemma_leaves_skip(s, start + 1);
        lemma_leaves_skip(s, start + 2);
        if start < s.rest.len() {
            let comma = find(s.rest, Mark::Punct(','), start + 1);
            lemma_leaves_skip(s, comma + 1);
        }
    }
}

/// The attributes of an element stay within the input, and leave its context.
pub proof fn lemma_attrs_leaves(s: State, seen: AttrsModel)
    ensures
        leaves(s, attrs(s, seen).1, 0),
        attrs(s, seen).0 is Ok ==> attrs(s, seen).1.in_attr == s.in_attr,
    decreases weight(s.rest), 2int,
{
    broadcast use lemma_leaves_trans;

    lemma_leaves_skip(s, 0);
    lemma_leaves_skip(s, 1);
    lemma_namespaced_name_leaves(s);
    let (found, s1) = namespaced_name(s);
    match found {
        Ok(found) => {
            let after = s1.skip(1);
            lemma_leaves_skip(s1, 1);
            if s1.rest.len() > 0 {
                assert(leaves(s, after, 1));
                lemma_leaves_weight(s, after, 1);
            }
            if starts_with(s1.rest, '=') {
                let v = State { in_attr: true, rest: after.rest };
                lemma_markup_leaves(v);
                let (value, s2) = markup(v);
                assert(leaves(s, v, 1));
                if let Ok(value) = value {
                    lemma_leaves_weight(v, s2, 1);
                    let s3 = State { in_attr: s.in_attr, rest: s2.rest };
                    lemma_attrs_leaves(
                        s3,
                        with_attr(seen, found, AttrTypeModel::Normal { value }),
                    );
                    assert(leaves(v, s3, 1));
                }
            } else if starts_with(s1.rest, '?') {
                lemma_attr_toggler_leaves(after);
                let (toggler, s2) = attr_toggler(after);
                lemma_attrs_leaves(s2, with_attr(seen, found, AttrTypeModel::Empty { toggler }));
            }
        },
        Err(_) => {
            let after = s.skip(1);
            if starts_with(s.rest, '.') {
                lemma_leaves_weight(s, after, 1);
                lemma_name_leaves(after);
                if let (Ok(class), s2) = name(after) {
                    lemma_attr_toggler_leaves(s2);
                    let (toggler, s3) = attr_toggler(s2);
                    lemma_leaves_weight(after, s3, 1);
                    lemma_attrs_leaves(s3, with_class(seen, class, toggler));
                }
            } else if starts_with(s.rest, '#') {
                lemma_leaves_weight(s, after, 1);
                lemma_name_leaves(after);
                if let (Ok(id), s2) = name(after) {
                    lemma_leaves_weight(after, s2, 1);
                    lemma_attrs_leaves(s2, with_id(seen, id));
                }
            }
        },
    }
}

/// An element stays within the input, and leaves its context.
pub proof fn lemma_element_leaves(s: State, name: Seq<Token>)
    ensures
        leaves(s, element(s, name).1, 0),
        element(s, name).0 is Ok ==> element(s, name).1.in_attr == s.in_attr,
    decreases weight(s.rest), 3int,
{
    broadcast use lemma_leaves_trans;

    lemma_leaves_skip(s, 0);
    if !s.in_attr {
        lemma_attrs_leaves(s, no_attrs());
        let s1 = attrs(s, no_attrs()).1;
        lemma_leaves_skip(s1, 1);
        lemma_leaves_weight(s, s1, 0);
        lemma_markup_leaves(s1);
    }
}

/// A piece of markup takes at least one token, and leaves its context.
pub proof fn lemma_markup_leaves(s: State)
    ensures
        leaves(s, markup(s).1, 0),
        markup(s).0 is Ok ==> leaves(s, markup(s).1, 1),
        markup(s).0 is Ok ==> markup(s).1.in_attr == s.in_attr,
    decreases weight(s.rest), 2int,
{
    broadcast use lemma_leaves_trans;

    lemma_leaves_skip(s, 0);
    lemma_leaves_skip(s, 1);
    lemma_leaves_skip(s, 2);
    if s.rest.len() > 1 {
        lemma_special_form_leaves(s.skip(2), s.rest[1]);
    }
    lemma_namespaced_name_leaves(s);
    if let (Ok(name), s1) = namespaced_name(s) {
        lemma_leaves_weight(s, s1, 1);
        lemma_element_leaves(s1, name);
    }
}

/// All the markup takes all the input.
pub proof fn lemma_markups_leaves(s: State)
    ensures
        leaves(s, markups(s).1, 0),
        markups(s).0 is Ok ==> markups(s).1 == s.end(),
    decreases weight(s.rest),
{
    broadcast use lemma_leaves_trans;

    lemma_leaves_skip(s, 0);
    lemma_leaves_skip(s, 1);
    lemma_leaves_skip(s, 2);
    if s.rest.len() == 0 {
        assert(s =~= s.end());
    } else if starts_with(s.rest, ';') {
        lemma_leaves_weight(s, s.skip(1), 1);
        lemma_markups_leaves(s.skip(1));
    } else {
        let s1 = if starts_with_keyword(s.rest, "let"@) {
            lemma_let_expr_leaves(s.skip(2), s.rest[1]);
            let_expr(s.skip(2), s.rest[1]).1
        } else {
            lemma_markup_leaves(s);
            markup(s).1
        };
        if leaves(s, s1, 1) {
            lemma_leaves_weight(s, s1, 1);
            lemma_markups_leaves(s1);
        }
    }
}

/// All the arms of a `@match` take all the input.
pub proof fn lemma_match_arms_leaves(s: State)
    ensures
        leaves(s, match_arms(s).1, 0),
        match_arms(s).0 is Ok ==> match_arms(s).1 == s.end(),
    decreases weight(s.rest),
{
    broadcast use lemma_leaves_trans;

    lemma_match_arm_leaves(s);
    let (arm, s1) = match_arm(s);
    if let Ok(Some(_)) = arm {
        lemma_leaves_weight(s, s1, 1);
        lemma_match_arms_leaves(s1);
    } else if let Ok(None) = arm {
        assert(s1 =~= s.end());
    }
}

} // verus!
