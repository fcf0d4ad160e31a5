//! Elements: put together from name, attributes and body, they are read back with all of these.
use vstd::prelude::*;

use crate::ast::AttrsModel;
use crate::ast::BlockModel;
use crate::ast::MarkupModel;
use crate::grammar::attrs;
use crate::grammar::element;
use crate::grammar::markup;
use crate::grammar::no_attrs;
use crate::grammar::template;
use crate::laws::names::is_colon;
use crate::laws::names::is_name;
use crate::laws::names::is_qualified;
use crate::laws::names::law_cut_short;
use crate::laws::names::law_namespaced_name;
use crate::laws::names::qualified_stops;
use crate::laws::sequence::law_block;
use crate::laws::sequence::law_one_markup;
use crate::progress::lemma_attrs_leaves;
use crate::progress::lemma_leaves_weight;
use crate::scan::Failure;
use crate::scan::State;
use crate::token::is_ident;
use crate::token::is_punct;
use crate::token::Delimiter;
use crate::token::Span;
use crate::token::Token;

verus! {

/// Inside an attribute there is no element.
pub proof fn law_element_in_attr(s: State, tag: Seq<Token>)
    requires
        s.in_attr,
    ensures
        element(s, tag) == (
            Err::<MarkupModel, Failure>(
                Failure::Message("unexpected element, you silly bumpkin"@),
            ),
            s,
        ),
{
}

/// Outside, an element is what follows its name: its attributes, and then a `;` or a `/`, which
/// make it void and are consumed, or else a body, which is just the markup that comes next. It is
/// void in no other case, and errors in the attributes or the body are its errors.
pub proof fn law_element(s: State, tag: Seq<Token>)
    requires
        !s.in_attr,
    ensures
        element(s, tag) == match attrs(s, no_attrs()) {
            (Ok(attrs), s1) => if s1.rest.len() > 0 && (is_punct(s1.rest[0], ';') || is_punct(
                s1.rest[0],
                '/',
            )) {
                (
                    Ok::<MarkupModel, Failure>(
                        MarkupModel::Element { name: tag, attrs, body: None },
                    ),
                    (State { in_attr: s1.in_attr, rest: s1.rest.skip(1) }),
                )
            } else {
                match markup(s1) {
                    (Ok(body), s2) => (
                        Ok::<MarkupModel, Failure>(
                            MarkupModel::Element { name: tag, attrs, body: Some(Box::new(body)) },
                        ),
                        s2,
                    ),
                    (Err(e), s2) => (Err(e), s2),
                }
            },
            (Err(e), s1) => (Err(e), s1),
        },
{
    lemma_attrs_leaves(s, no_attrs());
    lemma_leaves_weight(s, attrs(s, no_attrs()).1, 0);
}

/// A name that comes first is the name of an element, all of it.
pub proof fn law_tag(in_attr: bool, tag: Seq<Token>, rest: Seq<Token>)
    requires
        is_qualified(tag),
        qualified_stops(tag, rest),
    ensures
        markup(State { in_attr, rest: tag + rest }) == element(State { in_attr, rest }, tag),
{
    let s = State { in_attr, rest: tag + rest };
    if !is_name(tag) {
        let colon = choose|colon: int| is_colon(tag, colon);
        assert(tag.take(colon)[0] == tag[0]);
    }
    assert(s.rest[0] == tag[0]);
    law_namespaced_name(in_attr, tag, rest);
}

/// A namespace without a name after it is no element.
pub proof fn law_tag_cut_short(in_attr: bool, n: Seq<Token>, colon: Token, rest: Seq<Token>)
    requires
        is_name(n),
        is_punct(colon, ':'),
        rest.len() > 0 ==> !is_ident(rest[0]),
    ensures
        markup(State { in_attr, rest: n + seq![colon] + rest }) == (
            Err::<MarkupModel, Failure>(Failure::Message("expected identifier"@)),
            (State { in_attr, rest }),
        ),
{
    law_cut_short(in_attr, n, colon, rest);
    assert((n + seq![colon] + rest)[0] == n[0]);
}

/// An element whose body is in braces has that block for its body, even if it is empty: the whole
/// is valid exactly if what stands in the braces is a template.
pub proof fn law_braced_body(
    tag: Seq<Token>,
    attributes: Seq<Token>,
    found: AttrsModel,
    stream: Seq<Token>,
    span: Span,
)
    requires
        is_qualified(tag),
        ({
            let group = Token::Group { delimiter: Delimiter::Brace, stream, span };
            let rest = attributes + seq![group];
            &&& qualified_stops(tag, rest)
            &&& attrs(State { in_attr: false, rest }, no_attrs()) == (
                Ok::<AttrsModel, Failure>(found),
                (State { in_attr: false, rest: seq![group] }),
            )
        }),
    ensures
        ({
            let group = Token::Group { delimiter: Delimiter::Brace, stream, span };
            template(tag + attributes + seq![group]) == match template(stream) {
                Ok(markups) => Ok::<Seq<MarkupModel>, Failure>(
                    seq![
                        MarkupModel::Element {
                            name: tag,
                            attrs: found,
                            body: Some(
                                Box::new(
                                    MarkupModel::Block(BlockModel { markups, span }),
                                ),
                            ),
                        },
                    ],
                ),
                Err(e) => Err(e),
            }
        }),
{
    let group = Token::Group { delimiter: Delimiter::Brace, stream, span };
    let rest = attributes + seq![group];
    let tokens = tag + attributes + seq![group];
    assert(tokens =~= tag + rest);
    law_tag(false, tag, rest);
    law_element(State { in_attr: false, rest }, tag);
    law_block(false, stream, span, Seq::empty());
    assert(seq![group] + Seq::<Token>::empty() =~= seq![group]);
    if !is_name(tag) {
        let colon = choose|colon: int| is_colon(tag, colon);
        assert(tag.take(colon)[0] == tag[0]);
    }
    assert(tokens[0] == tag[0]);
    law_one_markup(tokens);
}

} // verus!
