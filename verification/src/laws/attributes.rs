//! Attributes: each kind, put together from its parts, is read back with all of them.
use vstd::prelude::*;

use crate::ast::AttrTypeModel;
use crate::ast::AttributeModel;
use crate::ast::AttrsModel;
use crate::ast::TogglerModel;
use crate::extend::after_attrs;
use crate::extend::lemma_attrs_after;
use crate::extend::lemma_both_attrs;
use crate::grammar::attrs;
use crate::grammar::markup;
use crate::grammar::no_attrs;
use crate::grammar::with_attr;
use crate::grammar::with_class;
use crate::grammar::with_id;
use crate::laws::names::is_name;
use crate::laws::names::is_qualified;
use crate::laws::names::law_cut_short;
use crate::laws::names::law_name;
use crate::laws::names::law_namespaced_name;
use crate::laws::names::law_no_name;
use crate::laws::names::qualified_stops;
use crate::laws::names::stops;
use crate::progress::lemma_leaves_skip;
use crate::progress::lemma_leaves_weight;
use crate::progress::lemma_markup_leaves;
use crate::progress::lemma_namespaced_name_leaves;
use crate::scan::attr_toggler;
use crate::scan::Failure;
use crate::scan::State;
use crate::token::is_group;
use crate::token::is_ident;
use crate::token::is_punct;
use crate::token::Delimiter;
use crate::token::Span;
use crate::token::Token;

verus! {

/// `[ ... ]`
pub open spec fn bracketed(stream: Seq<Token>, span: Span) -> Token {
    Token::Group { delimiter: Delimiter::Bracket, stream, span }
}

/// No attributes at all.
pub open spec fn nothing() -> AttrsModel {
    AttrsModel {
        classes_static: Seq::empty(),
        classes_toggled: Seq::empty(),
        ids: Seq::empty(),
        attrs: Seq::empty(),
    }
}

/// One class, and nothing else.
pub open spec fn one_class(n: Seq<Token>) -> AttrsModel {
    AttrsModel {
        classes_static: seq![n],
        classes_toggled: Seq::empty(),
        ids: Seq::empty(),
        attrs: Seq::empty(),
    }
}

/// One class with a condition, and nothing else.
pub open spec fn one_toggled(n: Seq<Token>, cond: Seq<Token>, cond_span: Span) -> AttrsModel {
    AttrsModel {
        classes_static: Seq::empty(),
        classes_toggled: seq![(n, TogglerModel { cond, cond_span })],
        ids: Seq::empty(),
        attrs: Seq::empty(),
    }
}

/// One ID, and nothing else.
pub open spec fn one_id(n: Seq<Token>) -> AttrsModel {
    AttrsModel {
        classes_static: Seq::empty(),
        classes_toggled: Seq::empty(),
        ids: seq![n],
        attrs: Seq::empty(),
    }
}

/// One named attribute, and nothing else.
pub open spec fn one_attr(name: Seq<Token>, attr_type: AttrTypeModel) -> AttrsModel {
    AttrsModel {
        classes_static: Seq::empty(),
        classes_toggled: Seq::empty(),
        ids: Seq::empty(),
        attrs: seq![AttributeModel { name, attr_type }],
    }
}

/// Whether a `[cond]` comes first.
pub open spec fn starts_with_brackets(tokens: Seq<Token>) -> bool {
    tokens.len() > 0 && is_group(tokens[0], Delimiter::Bracket)
}

/// Adding one to none is that one.
proof fn lemma_one(n: Seq<Token>)
    ensures
        no_attrs() == nothing(),
        with_id(no_attrs(), n) == one_id(n),
        with_class(no_attrs(), n, None) == one_class(n),
        forall|t: TogglerModel| #[trigger]
            with_class(no_attrs(), n, Some(t)) == one_toggled(n, t.cond, t.cond_span),
        forall|t: AttrTypeModel| #[trigger] with_attr(no_attrs(), n, t) == one_attr(n, t),
{
    assert(with_id(no_attrs(), n).ids =~= one_id(n).ids);
    assert(with_class(no_attrs(), n, None).classes_static =~= one_class(n).classes_static);
    assert forall|t: TogglerModel| #[trigger]
        with_class(no_attrs(), n, Some(t)) == one_toggled(n, t.cond, t.cond_span) by {
        assert(with_class(no_attrs(), n, Some(t)).classes_toggled
            =~= one_toggled(n, t.cond, t.cond_span).classes_toggled);
    }
    assert forall|t: AttrTypeModel| #[trigger]
        with_attr(no_attrs(), n, t) == one_attr(n, t) by {
        assert(with_attr(no_attrs(), n, t).attrs =~= one_attr(n, t).attrs);
    }
}

/// What was found before comes in front of what is still to come.
proof fn lemma_front(s: State, front: AttrsModel)
    ensures
        attrs(s, front) == after_attrs(front, attrs(s, no_attrs())),
{
    lemma_both_attrs(front, no_attrs(), Seq::empty());
    lemma_attrs_after(s, front, no_attrs());
}

/// A `#` and a name are one ID: the whole name. The other attributes are what follows.
pub proof fn law_id(in_attr: bool, hash: Token, n: Seq<Token>, rest: Seq<Token>)
    requires
        is_punct(hash, '#'),
        is_name(n),
        stops(n, rest),
    ensures
        attrs(State { in_attr, rest: seq![hash] + n + rest }, no_attrs()) == after_attrs(
            one_id(n),
            attrs(State { in_attr, rest }, no_attrs()),
        ),
{
    let s = State { in_attr, rest: seq![hash] + n + rest };
    law_no_name(s);
    assert(s.skip(1).rest =~= n + rest);
    law_name(in_attr, n, rest);
    lemma_one(n);
    lemma_front(State { in_attr, rest }, one_id(n));
}

/// A `.` and a name without a condition are one class that is always there: the whole name.
pub proof fn law_class(in_attr: bool, dot: Token, n: Seq<Token>, rest: Seq<Token>)
    requires
        is_punct(dot, '.'),
        is_name(n),
        stops(n, rest),
        !starts_with_brackets(rest),
    ensures
        attrs(State { in_attr, rest: seq![dot] + n + rest }, no_attrs()) == after_attrs(
            one_class(n),
            attrs(State { in_attr, rest }, no_attrs()),
        ),
{
    let s = State { in_attr, rest: seq![dot] + n + rest };
    law_no_name(s);
    assert(s.skip(1).rest =~= n + rest);
    law_name(in_attr, n, rest);
    lemma_one(n);
    lemma_front(State { in_attr, rest }, one_class(n));
}

/// A `.`, a name and a condition are one class with that condition.
pub proof fn law_toggled_class(
    in_attr: bool,
    dot: Token,
    n: Seq<Token>,
    cond: Seq<Token>,
    cond_span: Span,
    rest: Seq<Token>,
)
    requires
        is_punct(dot, '.'),
        is_name(n),
    ensures
        attrs(
            State { in_attr, rest: seq![dot] + n + seq![bracketed(cond, cond_span)] + rest },
            no_attrs(),
        ) == after_attrs(
            one_toggled(n, cond, cond_span),
            attrs(State { in_attr, rest }, no_attrs()),
        ),
{
    let more = seq![bracketed(cond, cond_span)] + rest;
    let s = State { in_attr, rest: seq![dot] + n + seq![bracketed(cond, cond_span)] + rest };
    law_no_name(s);
    assert(s.skip(1).rest =~= n + more);
    law_name(in_attr, n, more);
    let s2 = State { in_attr, rest: more };
    assert(s2.skip(1).rest =~= rest);
    lemma_one(n);
    lemma_front(State { in_attr, rest }, one_toggled(n, cond, cond_span));
}

/// A `.` or `#` without a name after it is an error.
pub proof fn law_shorthand_needs_name(in_attr: bool, mark: Token, rest: Seq<Token>)
    requires
        is_punct(mark, '.') || is_punct(mark, '#'),
        rest.len() > 0 ==> !is_ident(rest[0]),
    ensures
        attrs(State { in_attr, rest: seq![mark] + rest }, no_attrs()) == (
            Err::<AttrsModel, Failure>(Failure::Message("expected identifier"@)),
            (State { in_attr, rest }),
        ),
{
    let s = State { in_attr, rest: seq![mark] + rest };
    law_no_name(s);
    assert(s.skip(1).rest =~= rest);
    law_no_name(State { in_attr, rest });
}

/// A name and a `?` without a condition are one empty attribute of that name.
pub proof fn law_empty_attr(in_attr: bool, q: Seq<Token>, mark: Token, rest: Seq<Token>)
    requires
        is_qualified(q),
        is_punct(mark, '?'),
        !starts_with_brackets(rest),
    ensures
        attrs(State { in_attr, rest: q + seq![mark] + rest }, no_attrs()) == after_attrs(
            one_attr(q, AttrTypeModel::Empty { toggler: None }),
            attrs(State { in_attr, rest }, no_attrs()),
        ),
{
    let more = seq![mark] + rest;
    let s = State { in_attr, rest: q + seq![mark] + rest };
    assert(s.rest =~= q + more);
    law_namespaced_name(in_attr, q, more);
    assert(State { in_attr, rest: more }.skip(1).rest =~= rest);
    lemma_one(q);
    lemma_namespaced_name_leaves(s);
    lemma_front(
        State { in_attr, rest },
        one_attr(q, AttrTypeModel::Empty { toggler: None }),
    );
}

/// A name, a `?` and a condition are one empty attribute of that name with that condition.
pub proof fn law_toggled_attr(
    in_attr: bool,
    q: Seq<Token>,
    mark: Token,
    cond: Seq<Token>,
    cond_span: Span,
    rest: Seq<Token>,
)
    requires
        is_qualified(q),
        is_punct(mark, '?'),
    ensures
        attrs(
            State { in_attr, rest: q + seq![mark, bracketed(cond, cond_span)] + rest },
            no_attrs(),
        ) == after_attrs(
            one_attr(q, AttrTypeModel::Empty { toggler: Some(TogglerModel { cond, cond_span }) }),
            attrs(State { in_attr, rest }, no_attrs()),
        ),
{
    let group = bracketed(cond, cond_span);
    let more = seq![mark, group] + rest;
    let s = State { in_attr, rest: q + seq![mark, group] + rest };
    assert(s.rest =~= q + more);
    law_namespaced_name(in_attr, q, more);
    let s1 = State { in_attr, rest: more };
    assert(s1.skip(1).rest =~= seq![group] + rest);
    assert(s1.skip(1).skip(1).rest =~= rest);
    lemma_one(q);
    lemma_front(
        State { in_attr, rest },
        one_attr(q, AttrTypeModel::Empty { toggler: Some(TogglerModel { cond, cond_span }) }),
    );
}

/// A name and a `=` are one attribute of that name, whose value is the markup that comes next,
/// parsed inside the attribute; the other attributes are what follows the value. Where the value
/// is not valid, its error is reported from inside the attribute.
pub proof fn law_attr_value(in_attr: bool, q: Seq<Token>, eq: Token, rest: Seq<Token>)
    requires
        is_qualified(q),
        is_punct(eq, '='),
    ensures
        attrs(State { in_attr, rest: q + seq![eq] + rest }, no_attrs()) == match markup(
            State { in_attr: true, rest },
        ) {
            (Ok(value), s) => after_attrs(
                one_attr(q, AttrTypeModel::Normal { value }),
                attrs(State { in_attr, rest: s.rest }, no_attrs()),
            ),
            (Err(e), s) => (Err(e), s),
        },
{
    let more = seq![eq] + rest;
    let s = State { in_attr, rest: q + seq![eq] + rest };
    assert(s.rest =~= q + more);
    law_namespaced_name(in_attr, q, more);
    let s1 = State { in_attr, rest: more };
    assert(s1.skip(1).rest =~= rest);
    let v = State { in_attr: true, rest };
    lemma_markup_leaves(v);
    lemma_namespaced_name_leaves(s);
    lemma_leaves_weight(s, s1, 1);
    lemma_leaves_skip(s1, 1);
    lemma_leaves_weight(s1, s1.skip(1), 1);
    if let (Ok(value), s2) = markup(v) {
        lemma_leaves_weight(v, s2, 1);
        lemma_one(q);
        lemma_front(
            State { in_attr, rest: s2.rest },
            one_attr(q, AttrTypeModel::Normal { value }),
        );
    }
}

/// Where neither a name nor a `.` or `#` comes first there are no attributes, and nothing is
/// consumed.
pub proof fn law_no_attr(s: State)
    requires
        s.rest.len() > 0 ==> !is_ident(s.rest[0]) && !is_punct(s.rest[0], '.') && !is_punct(
            s.rest[0],
            '#',
        ),
    ensures
        attrs(s, no_attrs()) == (Ok::<AttrsModel, Failure>(nothing()), s),
{
    law_no_name(s);
    lemma_one(Seq::empty());
}

/// A name that neither `=` nor `?` follows is no attribute, and nothing is consumed.
pub proof fn law_name_alone(in_attr: bool, q: Seq<Token>, rest: Seq<Token>)
    requires
        is_qualified(q),
        qualified_stops(q, rest),
        rest.len() > 0 ==> !is_punct(rest[0], '=') && !is_punct(rest[0], '?'),
    ensures
        attrs(State { in_attr, rest: q + rest }, no_attrs()) == (
            Ok::<AttrsModel, Failure>(nothing()),
            (State { in_attr, rest: q + rest }),
        ),
{
    law_namespaced_name(in_attr, q, rest);
    lemma_one(q);
}

/// A name that is cut short after its namespace is no attribute, whatever follows, and nothing is
/// consumed.
pub proof fn law_name_cut_short(in_attr: bool, n: Seq<Token>, colon: Token, rest: Seq<Token>)
    requires
        is_name(n),
        is_punct(colon, ':'),
        rest.len() > 0 ==> !is_ident(rest[0]),
    ensures
        attrs(State { in_attr, rest: n + seq![colon] + rest }, no_attrs()) == (
            Ok::<AttrsModel, Failure>(nothing()),
            (State { in_attr, rest: n + seq![colon] + rest }),
        ),
{
    law_cut_short(in_attr, n, colon, rest);
    assert((n + seq![colon] + rest)[0] == n[0]);
    lemma_one(n);
}

/// A single attribute of each kind, and nothing after it, is just that attribute.
pub proof fn law_single(
    in_attr: bool,
    mark: Token,
    n: Seq<Token>,
    cond: Seq<Token>,
    cond_span: Span,
)
    requires
        is_name(n),
    ensures
        ({
            let end = State { in_attr, rest: Seq::empty() };
            let group = bracketed(cond, cond_span);
            let toggler = Some(TogglerModel { cond, cond_span });
            &&& is_punct(mark, '#') ==> attrs(
                State { in_attr, rest: seq![mark] + n },
                no_attrs(),
            ) == (Ok::<AttrsModel, Failure>(one_id(n)), end)
            &&& is_punct(mark, '.') ==> attrs(
                State { in_attr, rest: seq![mark] + n },
                no_attrs(),
            ) == (Ok::<AttrsModel, Failure>(one_class(n)), end)
            &&& is_punct(mark, '.') ==> attrs(
                State { in_attr, rest: seq![mark] + n + seq![group] },
                no_attrs(),
            ) == (Ok::<AttrsModel, Failure>(one_toggled(n, cond, cond_span)), end)
            &&& is_punct(mark, '?') ==> attrs(
                State { in_attr, rest: n + seq![mark] },
                no_attrs(),
            ) == (
                Ok::<AttrsModel, Failure>(one_attr(n, AttrTypeModel::Empty { toggler: None })),
                end,
            )
            &&& is_punct(mark, '?') ==> attrs(
                State { in_attr, rest: n + seq![mark, group] },
                no_attrs(),
            ) == (
                Ok::<AttrsModel, Failure>(one_attr(n, AttrTypeModel::Empty { toggler })),
                end,
            )
        }),
{
    let none: Seq<Token> = Seq::empty();
    let end = State { in_attr, rest: none };
    let group = bracketed(cond, cond_span);
    assert(is_qualified(n));
    law_no_attr(end);
    lemma_one(n);
    assert forall|one: AttrsModel| #[trigger]
        after_attrs(one, attrs(end, no_attrs())) == (Ok::<AttrsModel, Failure>(one), end) by {
        lemma_both_attrs(one, no_attrs(), none);
    }
    assert(seq![mark] + n + none =~= seq![mark] + n);
    assert(n + seq![mark] + none =~= n + seq![mark]);
    assert(seq![mark] + n + seq![group] + none =~= seq![mark] + n + seq![group]);
    assert(n + seq![mark, group] + none =~= n + seq![mark, group]);
    if is_punct(mark, '#') {
        law_id(in_attr, mark, n, none);
    } else if is_punct(mark, '.') {
        law_class(in_attr, mark, n, none);
        law_toggled_class(in_attr, mark, n, cond, cond_span, none);
    } else if is_punct(mark, '?') {
        law_empty_attr(in_attr, n, mark, none);
        law_toggled_attr(in_attr, n, mark, cond, cond_span, none);
    }
}

/// A single attribute with a value, and nothing after the value, is just that attribute.
pub proof fn law_single_value(
    in_attr: bool,
    q: Seq<Token>,
    eq: Token,
    value_tokens: Seq<Token>,
)
    requires
        is_qualified(q),
        is_punct(eq, '='),
        markup(State { in_attr: true, rest: value_tokens }).0 is Ok,
        markup(State { in_attr: true, rest: value_tokens }).1.rest.len() == 0,
    ensures
        attrs(State { in_attr, rest: q + seq![eq] + value_tokens }, no_attrs()) == (
            Ok::<AttrsModel, Failure>(
                one_attr(
                    q,
                    AttrTypeModel::Normal {
                        value: markup(State { in_attr: true, rest: value_tokens }).0->Ok_0,
                    },
                ),
            ),
            (State { in_attr, rest: Seq::empty() }),
        ),
{
    law_attr_value(in_attr, q, eq, value_tokens);
    let (value, s) = markup(State { in_attr: true, rest: value_tokens });
    assert(s.rest =~= Seq::empty());
    law_no_attr(State { in_attr, rest: Seq::empty() });
    lemma_one(q);
    lemma_both_attrs(
        one_attr(q, AttrTypeModel::Normal { value: value->Ok_0 }),
        no_attrs(),
        Seq::empty(),
    );
}

/// A condition in brackets is read back as it is written; where there is none, nothing is consumed.
pub proof fn law_toggler(in_attr: bool, cond: Seq<Token>, cond_span: Span, rest: Seq<Token>)
    ensures
        attr_toggler(State { in_attr, rest: seq![bracketed(cond, cond_span)] + rest }) == (
            Some(TogglerModel { cond, cond_span }),
            (State { in_attr, rest }),
        ),
        !starts_with_brackets(rest) ==> attr_toggler(State { in_attr, rest }) == (
            None::<TogglerModel>,
            (State { in_attr, rest }),
        ),
{
    let s = State { in_attr, rest: seq![bracketed(cond, cond_span)] + rest };
    assert(s.skip(1).rest =~= rest);
}

} // verus!
