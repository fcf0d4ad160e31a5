//! The parser.
use vstd::prelude::*;
use vstd::slice::slice_subrange;
use vstd::string::*;

use crate::ast::attributes_model;
use crate::ast::group_model_push;
use crate::ast::markups_model;
use crate::ast::specials_model;
use crate::ast::streams_model;
use crate::ast::toggled_model;
use crate::ast::toggler_model;
use crate::ast::AttrType;
use crate::ast::AttrTypeModel;
use crate::ast::Attribute;
use crate::ast::Attrs;
use crate::ast::Block;
use crate::ast::Markup;
use crate::ast::MarkupModel;
use crate::ast::Special;
use crate::ast::SpecialModel;
use crate::ast::Toggler;
use crate::grammar;
use crate::literal;
use crate::progress;
use crate::scan;
use crate::scan::aborts;
use crate::scan::Failure;
use crate::scan::Mark;
use crate::scan::Outcome;
use crate::scan::State;
use crate::token::contents;
use crate::token::group_tokens_of;
use crate::token::is_ident;
use crate::token::is_punct;
use crate::token::tokens_of;
use crate::token::Delimiter;
use crate::token::Literal;
use crate::token::Spacing;
use crate::token::Span;
use crate::token::TokenStream;
use crate::token::TokenTree;
use crate::weight;
use crate::weight::weight;

verus! {

broadcast use {group_model_push, group_tokens_of, scan::lemma_find_bound};

/// What the parser returns: a part of the syntax tree, or a message that says why there is none.
pub type ParseResult<T> = Result<T, String>;

/// A result of the parser, as the grammar sees it; `model` gives the view of a value.
pub open spec fn parsed<T, M>(result: ParseResult<T>, model: spec_fn(T) -> M) -> Result<
    M,
    Failure,
> {
    match result {
        Ok(value) => Ok(model(value)),
        Err(message) => Err(Failure::Message(message@)),
    }
}

/// A parser: a place in a sequence of token trees.
#[derive(Clone, Copy)]
pub struct Parser<'a> {
    /// Indicates whether we're inside an attribute node.
    in_attr: bool,
    /// The trees still to come.
    rest: &'a [TokenTree],
}

impl<'a> View for Parser<'a> {
    type V = State;

    closed spec fn view(&self) -> State {
        State { in_attr: self.in_attr, rest: tokens_of(self.rest@) }
    }
}

/// What a run of trees goes up to.
#[derive(Clone, Copy)]
enum Stop {
    Punct(char),
    Word(&'static str),
    Body,
}

impl Stop {
    /// The mark that the grammar knows it by.
    spec fn mark(self) -> Mark {
        match self {
            Stop::Punct(c) => Mark::Punct(c),
            Stop::Word(word) => Mark::Word(word@),
            Stop::Body => Mark::Body,
        }
    }

    /// Whether the run stops at this tree.
    fn is_at(&self, tree: &TokenTree) -> (yes: bool)
        ensures
            yes == scan::is_mark(tree@, self.mark()),
    {
        match self {
            Stop::Punct(c) => tree.is_punct(*c),
            Stop::Word(word) => tree.is_word(word),
            Stop::Body => tree.is_group(Delimiter::Brace),
        }
    }
}

impl<'a> Parser<'a> {
    /// A parser at the start of a template.
    pub fn new(input: &'a TokenStream) -> (parser: Parser<'a>)
        ensures
            parser@ == (State { in_attr: false, rest: input@ }),
    {
        Parser { in_attr: false, rest: input.trees.as_slice() }
    }

    /// A parser in the same context, at the start of other input.
    pub fn with_input<'b>(&self, input: &'b TokenStream) -> (parser: Parser<'b>)
        ensures
            parser@ == (State { in_attr: self@.in_attr, rest: input@ }),
    {
        Parser { in_attr: self.in_attr, rest: input.trees.as_slice() }
    }

    /// Consumes the next token and returns it.
    pub fn next(&mut self) -> (token: Option<&'a TokenTree>)
        ensures
            final(self)@ == old(self)@.skip(1),
            token is Some <==> old(self)@.rest.len() > 0,
            token matches Some(token) ==> token@ == old(self)@.rest[0],
    {
        let rest: &'a [TokenTree] = self.rest;
        if rest.len() == 0 {
            assert(self@ =~= old(self)@.skip(1));
            None
        } else {
            self.rest = slice_subrange(rest, 1, rest.len());
            assert(self@ =~= old(self)@.skip(1));
            Some(&rest[0])
        }
    }

    /// Returns the next token without consuming it.
    pub fn peek(&self) -> (token: Option<&'a TokenTree>)
        ensures
            token is Some <==> self@.rest.len() > 0,
            token matches Some(token) ==> token@ == self@.rest[0],
    {
        let mut ahead = *self;
        ahead.next()
    }

    /// Returns the next two tokens without consuming them.
    pub fn peek2(&self) -> (tokens: Option<(&'a TokenTree, Option<&'a TokenTree>)>)
        ensures
            tokens is Some <==> self@.rest.len() > 0,
            tokens matches Some((first, second)) ==> {
                &&& first@ == self@.rest[0]
                &&& second is Some <==> self@.rest.len() > 1
                &&& second matches Some(second) ==> second@ == self@.rest[1]
            },
    {
        let mut ahead = *self;
        match ahead.next() {
            Some(first) => Some((first, ahead.next())),
            None => None,
        }
    }

    /// Advances by one token.
    pub fn advance(&mut self)
        ensures
            final(self)@ == old(self)@.skip(1),
    {
        self.next();
    }

    /// Advances by two tokens.
    pub fn advance2(&mut self)
        ensures
            final(self)@ == old(self)@.skip(2),
    {
        proof {
            scan::lemma_skip_skip(self@, 1, 1);
        }
        self.next();
        self.next();
    }

    /// Overwrites the current parser state with the given parameter.
    pub fn commit(&mut self, attempt: Parser<'a>)
        ensures
            final(self)@ == attempt@,
    {
        *self = attempt;
    }

    /// Returns an `Err` with the given message.
    pub fn error<T>(&self, message: &str) -> (result: ParseResult<T>)
        ensures
            result matches Err(e) && e@ == message@,
    {
        Err(message.to_owned())
    }

    /// Consumes the tokens up to a stop, which it consumes and returns too if there is one; the
    /// tokens before it are added to `tokens`.
    fn take_until(&mut self, stop: Stop, tokens: &mut Vec<TokenTree>) -> (found: Option<
        &'a TokenTree,
    >)
        ensures
            ({
                let s = old(self)@;
                let i = scan::find(s.rest, stop.mark(), 0);
                &&& tokens_of(final(tokens)@) == tokens_of(old(tokens)@) + s.rest.take(i)
                &&& found is Some <==> i < s.rest.len()
                &&& found matches Some(tree) ==> tree@ == s.rest[i] && scan::is_mark(
                    tree@,
                    stop.mark(),
                )
                &&& final(self)@ == s.skip(i + 1)
            }),
    {
        let ghost s = self@;
        let ghost mut i: int = 0;
        assert(self@ =~= s.skip(0));
        assert(tokens_of(tokens@) =~= tokens_of(tokens@) + s.rest.take(0));
        loop
            invariant
                s == old(self)@,
                0 <= i <= s.rest.len(),
                self@ == s.skip(i),
                tokens_of(tokens@) == tokens_of(old(tokens)@) + s.rest.take(i),
                scan::find(s.rest, stop.mark(), i) == scan::find(s.rest, stop.mark(), 0),
            decreases s.rest.len() - i,
        {
            match self.next() {
                Some(token) => {
                    assert(token@ == s.rest[i]);
                    if stop.is_at(token) {
                        return Some(token);
                    }
                    tokens.push(token.clone());
                    assert(s.rest.take(i + 1) =~= s.rest.take(i).push(s.rest[i]));
                    assert(tokens_of(tokens@) =~= tokens_of(old(tokens)@) + s.rest.take(i + 1));
                    proof {
                        i = i + 1;
                    }
                },
                None => {
                    return None;
                },
            }
        }
    }

    /// Parses the `[cond]` syntax after an empty attribute or class shorthand.
    pub fn attr_toggler(&mut self) -> (toggler: Option<Toggler>)
        ensures
            (toggler_model(toggler), final(self)@) == scan::attr_toggler(old(self)@),
    {
        match self.peek() {
            Some(TokenTree::Group(group)) => if group.delimiter == Delimiter::Bracket {
                self.advance();
                Some(Toggler { cond: group.stream.clone(), cond_span: group.span })
            } else {
                None
            },
            _ => None,
        }
    }

    /// Parses an identifier, without dealing with namespaces.
    pub fn name(&mut self) -> (result: ParseResult<TokenStream>)
        ensures
            (parsed(result, |name: TokenStream| name@), final(self)@) == scan::name(old(self)@),
    {
        let ghost s = self@;
        let mut result: Vec<TokenTree> = Vec::new();
        match self.peek() {
            Some(token) => if token.is_ident() {
                self.advance();
                result.push(token.clone());
            } else {
                return self.error("expected identifier");
            },
            None => return self.error("expected identifier"),
        }
        let mut expect_ident = false;
        let ghost mut n: int = 1;
        assert(tokens_of(result@) =~= s.rest.take(1));
        loop
            invariant
                1 <= n <= s.rest.len(),
                self@ == s.skip(n),
                tokens_of(result@) == s.rest.take(n),
                expect_ident == is_punct(s.rest[n - 1], '-'),
                scan::name_end(s.rest, n) == scan::name_end(s.rest, 1),
            ensures
                n == scan::name_end(s.rest, 1),
            decreases s.rest.len() - n,
        {
            match self.peek() {
                Some(token) => {
                    assert(token@ == s.rest[n]);
                    if token.is_punct('-') {
                        expect_ident = true;
                    } else if token.is_ident() && expect_ident {
                        expect_ident = false;
                    } else {
                        break;
                    }
                    self.advance();
                    result.push(token.clone());
                    assert(s.rest.take(n + 1) =~= s.rest.take(n).push(s.rest[n]));
                    proof {
                        n = n + 1;
                    }
                },
                None => break,
            }
        }
        Ok(TokenStream { trees: result })
    }

    /// Parses a HTML element or attribute name, along with a namespace if necessary.
    pub fn namespaced_name(&mut self) -> (result: ParseResult<TokenStream>)
        ensures
            (parsed(result, |name: TokenStream| name@), final(self)@) == scan::namespaced_name(
                old(self)@,
            ),
    {
        let first = match self.name() {
            Ok(name) => name,
            Err(e) => return Err(e),
        };
        match self.peek() {
            Some(token) => if token.is_punct(':') {
                self.advance();
                let mut trees = first.trees;
                trees.push(token.clone());
                match self.name() {
                    Ok(second) => {
                        let mut second_trees = second.trees;
                        trees.append(&mut second_trees);
                        Ok(TokenStream { trees })
                    },
                    Err(e) => Err(e),
                }
            } else {
                Ok(first)
            },
            None => Ok(first),
        }
    }

    /// Parses and renders a literal string.
    pub fn literal(&self, lit: &Literal) -> (result: ParseResult<Markup>)
        requires
            literal::is_decodable(lit.text@),
        ensures
            parsed(result, |markup: Markup| markup.model()) == grammar::literal(
                lit.text@,
                lit.span,
            ),
    {
        match literal::parse_string(lit.text.as_str()) {
            Some(content) => Ok(Markup::Literal { content, span: lit.span }),
            None => self.error("expected string"),
        }
    }

    /// Parses a `@let` expression.
    ///
    /// The leading `@let` should already be consumed.
    pub fn let_expr(&mut self, keyword: &TokenTree) -> (result: ParseResult<Markup>)
        ensures
            (parsed(result, |markup: Markup| markup.model()), final(self)@) == grammar::let_expr(
                old(self)@,
                keyword@,
            ),
    {
        let ghost s = self@;
        let mut tokens: Vec<TokenTree> = Vec::new();
        tokens.push(keyword.clone());
        assert(tokens_of(tokens@) =~= seq![keyword@]);
        let ghost eq = scan::find(s.rest, Mark::Punct('='), 0);
        match self.take_until(Stop::Punct('='), &mut tokens) {
            Some(token) => tokens.push(token.clone()),
            None => {
                assert(self@ =~= s.end());
                return self.error("unexpected end of @let expression");
            },
        }
        proof {
            scan::lemma_find_skip(s.rest, Mark::Punct(';'), eq + 1, 0);
        }
        let ghost semi = scan::find(s.rest, Mark::Punct(';'), eq + 1);
        match self.take_until(Stop::Punct(';'), &mut tokens) {
            Some(token) => tokens.push(token.clone()),
            None => {
                assert(self@ =~= s.end());
                return self.error("unexpected end of @let expression");
            },
        }
        assert(tokens_of(tokens@) =~= seq![keyword@] + s.rest.take(semi + 1));
        Ok(Markup::Let { tokens: TokenStream { trees: tokens } })
    }

    /// Parses the given token stream as a Maud expression.
    pub fn block(&self, body: &TokenStream, span: Span) -> (result: ParseResult<Block>)
        requires
            !aborts(grammar::block(self@.in_attr, body@, span)),
        ensures
            parsed(result, |block: Block| block.model()) == grammar::block(
                self@.in_attr,
                body@,
                span,
            ),
        decreases weight(body@), 4int,
    {
        let mut parser = self.with_input(body);
        match parser.markups() {
            Ok(markups) => Ok(Block { markups, span }),
            Err(e) => Err(e),
        }
    }

    /// Parses a head up to a braced body, and the body. The head begins with `prefix`.
    fn special(&mut self, prefix: Vec<TokenTree>, message: &str) -> (result: ParseResult<Special>)
        requires
            !aborts(grammar::special(old(self)@, tokens_of(prefix@), 0, message@).0),
        ensures
            (parsed(result, |special: Special| special.model()), final(self)@) == grammar::special(
                old(self)@,
                tokens_of(prefix@),
                0,
                message@,
            ),
        decreases weight(old(self)@.rest), 1int,
    {
        let ghost s = self@;
        let mut head = prefix;
        match self.take_until(Stop::Body, &mut head) {
            Some(TokenTree::Group(group)) => {
                let ghost i = scan::find(s.rest, Mark::Body, 0);
                proof {
                    assert(contents(s.rest[i]) == group.stream@);
                    weight::lemma_weight_contents(s.rest, i);
                }
                match self.block(&group.stream, group.span) {
                    Ok(body) => Ok(Special { head: TokenStream { trees: head }, body }),
                    Err(e) => Err(e),
                }
            },
            _ => {
                assert(self@ =~= s.end());
                self.error(message)
            },
        }
    }

    /// Parses an `@if` expression.
    ///
    /// The leading `@if` should already be consumed.
    pub fn if_expr(&mut self, prefix: Vec<TokenTree>, segments: &mut Vec<Special>) -> (result:
        ParseResult<()>)
        requires
            !aborts(
                grammar::if_expr(
                    old(self)@,
                    tokens_of(prefix@),
                    specials_model(old(segments)@),
                ).0,
            ),
        ensures
            (
                parsed(result, |unit: ()| unit),
                specials_model(final(segments)@),
                final(self)@,
            ) == grammar::if_expr(
                old(self)@,
                tokens_of(prefix@),
                specials_model(old(segments)@),
            ),
        decreases weight(old(self)@.rest), 2int,
    {
        let ghost s = self@;
        proof {
            progress::lemma_special_leaves(
                s,
                tokens_of(prefix@),
                0,
                "unexpected end of @if expression"@,
            );
        }
        match self.special(prefix, "unexpected end of @if expression") {
            Ok(segment) => {
                proof {
                    progress::lemma_leaves_weight(s, self@, 1);
                }
                segments.push(segment);
                self.else_if_expr(segments)
            },
            Err(e) => Err(e),
        }
    }

    /// Parses an optional `@else if` or `@else`.
    ///
    /// The leading `@else if` or `@else` should *not* already be consumed.
    pub fn else_if_expr(&mut self, segments: &mut Vec<Special>) -> (result: ParseResult<()>)
        requires
            !aborts(grammar::else_if_expr(old(self)@, specials_model(old(segments)@)).0),
        ensures
            (
                parsed(result, |unit: ()| unit),
                specials_model(final(segments)@),
                final(self)@,
            ) == grammar::else_if_expr(old(self)@, specials_model(old(segments)@)),
        decreases weight(old(self)@.rest), 2int,
    {
        let ghost s = self@;
        match self.peek2() {
            Some((punct, Some(else_keyword))) => {
                if punct.is_punct('@') && else_keyword.is_word("else") {
                    self.advance2();
                    match self.peek() {
                        Some(if_keyword) => {
                            // `@else if`
                            if if_keyword.is_word("if") {
                                self.advance();
                                let mut prefix: Vec<TokenTree> = Vec::new();
                                prefix.push(else_keyword.clone());
                                prefix.push(if_keyword.clone());
                                proof {
                                    assert(tokens_of(prefix@) =~= seq![
                                        s.rest[1],
                                        s.skip(2).rest[0],
                                    ]);
                                    scan::lemma_skip_skip(s, 2, 1);
                                    weight::lemma_weight_skip(s.rest, 3);
                                }
                                return self.if_expr(prefix, segments);
                            }
                        },
                        None => {},
                    }
                    // Just an `@else`
                    match self.next() {
                        Some(TokenTree::Group(group)) => {
                            if group.delimiter == Delimiter::Brace {
                                proof {
                                    assert(contents(s.rest[2]) == group.stream@);
                                    weight::lemma_weight_contents(s.rest, 2);
                                }
                                match self.block(&group.stream, group.span) {
                                    Ok(body) => {
                                        let mut head: Vec<TokenTree> = Vec::new();
                                        head.push(else_keyword.clone());
                                        assert(tokens_of(head@) =~= seq![s.rest[1]]);
                                        segments.push(
                                            Special { head: TokenStream { trees: head }, body },
                                        );
                                        Ok(())
                                    },
                                    Err(e) => Err(e),
                                }
                            } else {
                                self.error("expected body for @else")
                            }
                        },
                        _ => self.error("expected body for @else"),
                    }
                } else {
                    Ok(())
                }
            },
            // We didn't find an `@else`; stop
            _ => Ok(()),
        }
    }

    /// Parses and renders an `@while` expression.
    ///
    /// The leading `@while` should already be consumed.
    pub fn while_expr(&mut self, keyword: &TokenTree) -> (result: ParseResult<Markup>)
        requires
            !aborts(grammar::while_expr(old(self)@, keyword@).0),
        ensures
            (parsed(result, |markup: Markup| markup.model()), final(self)@) == grammar::while_expr(
                old(self)@,
                keyword@,
            ),
        decreases weight(old(self)@.rest), 2int,
    {
        let mut head: Vec<TokenTree> = Vec::new();
        head.push(keyword.clone());
        assert(tokens_of(head@) =~= seq![keyword@]);
        match self.special(head, "unexpected end of @while expression") {
            Ok(segment) => {
                let mut segments: Vec<Special> = Vec::new();
                segments.push(segment);
                assert(specials_model(segments@) =~= seq![segment.model()]);
                Ok(Markup::Special { segments })
            },
            Err(e) => Err(e),
        }
    }

    /// Parses a `@for` expression.
    ///
    /// The leading `@for` should already be consumed.
    pub fn for_expr(&mut self, keyword: &TokenTree) -> (result: ParseResult<Markup>)
        requires
            !aborts(grammar::for_expr(old(self)@, keyword@).0),
        ensures
            (parsed(result, |markup: Markup| markup.model()), final(self)@) == grammar::for_expr(
                old(self)@,
                keyword@,
            ),
        decreases weight(old(self)@.rest), 2int,
    {
        let ghost s = self@;
        let mut head: Vec<TokenTree> = Vec::new();
        head.push(keyword.clone());
        assert(tokens_of(head@) =~= seq![keyword@]);
        let ghost k = scan::find(s.rest, Mark::Word("in"@), 0);
        match self.take_until(Stop::Word("in"), &mut head) {
            Some(in_keyword) => head.push(in_keyword.clone()),
            None => {
                assert(self@ =~= s.end());
                return self.error("unexpected end of @for expression");
            },
        }
        proof {
            assert(tokens_of(head@) =~= seq![keyword@] + s.rest.take(k + 1));
            weight::lemma_weight_skip(s.rest, k + 1);
            grammar::lemma_special_skip(
                s,
                seq![keyword@],
                k + 1,
                "unexpected end of @for expression"@,
            );
        }
        match self.special(head, "unexpected end of @for expression") {
            Ok(segment) => {
                let mut segments: Vec<Special> = Vec::new();
                segments.push(segment);
                assert(specials_model(segments@) =~= seq![segment.model()]);
                Ok(Markup::Special { segments })
            },
            Err(e) => Err(e),
        }
    }

    /// Parses a `@match` expression.
    ///
    /// The leading `@match` should already be consumed.
    pub fn match_expr(&mut self, keyword: &TokenTree) -> (result: ParseResult<Markup>)
        requires
            !aborts(grammar::match_expr(old(self)@, keyword@).0),
        ensures
            (parsed(result, |markup: Markup| markup.model()), final(self)@) == grammar::match_expr(
                old(self)@,
                keyword@,
            ),
        decreases weight(old(self)@.rest), 2int,
    {
        let ghost s = self@;
        let mut head: Vec<TokenTree> = Vec::new();
        head.push(keyword.clone());
        assert(tokens_of(head@) =~= seq![keyword@]);
        match self.take_until(Stop::Body, &mut head) {
            Some(TokenTree::Group(body)) => {
                let ghost i = scan::find(s.rest, Mark::Body, 0);
                proof {
                    assert(contents(s.rest[i]) == body.stream@);
                    weight::lemma_weight_contents(s.rest, i);
                }
                let mut parser = self.with_input(&body.stream);
                match parser.match_arms() {
                    Ok(arms) => Ok(
                        Markup::Match {
                            head: TokenStream { trees: head },
                            arms,
                            arms_span: body.span,
                        },
                    ),
                    Err(e) => Err(e),
                }
            },
            _ => {
                assert(self@ =~= s.end());
                self.error("unexpected end of @match expression")
            },
        }
    }

    /// Parses the arms of a `@match` expression.
    pub fn match_arms(&mut self) -> (result: ParseResult<Vec<Special>>)
        requires
            !aborts(grammar::match_arms(old(self)@).0),
        ensures
            (parsed(result, |arms: Vec<Special>| specials_model(arms@)), final(self)@)
                == grammar::match_arms(old(self)@),
        decreases weight(old(self)@.rest), 3int,
    {
        let ghost s = self@;
        let mut arms: Vec<Special> = Vec::new();
        proof {
            grammar::lemma_after_nothing(grammar::match_arms(s));
        }
        loop
            invariant
                s == old(self)@,
                !aborts(grammar::match_arms(s).0),
                weight(self@.rest) <= weight(s.rest),
                grammar::match_arms(s) == grammar::after(
                    specials_model(arms@),
                    grammar::match_arms(self@),
                ),
            decreases weight(self@.rest),
        {
            let ghost before = self@;
            let ghost done = specials_model(arms@);
            proof {
                progress::lemma_match_arm_leaves(before);
            }
            match self.match_arm() {
                Ok(Some(arm)) => {
                    proof {
                        progress::lemma_leaves_weight(before, self@, 1);
                        lemma_after_push(done, arm.model(), grammar::match_arms(self@));
                    }
                    arms.push(arm);
                },
                Ok(None) => {
                    assert(done + Seq::<SpecialModel>::empty() =~= done);
                    return Ok(arms);
                },
                Err(e) => return Err(e),
            }
        }
    }

    /// Parses the pattern of an arm of a `@match` expression, up to the `=>`, unless there are
    /// no more arms.
    fn match_head(&mut self) -> (result: ParseResult<Option<TokenStream>>)
        ensures
            ({
                let s = old(self)@;
                let arrow = scan::find_arrow(s.rest, 0);
                if arrow < s.rest.len() {
                    &&& result matches Ok(Some(head)) && head@ == s.rest.take(arrow + 2)
                    &&& final(self)@ == s.skip(arrow + 2)
                } else {
                    &&& s.rest.len() == 0 ==> (result matches Ok(None))
                    &&& s.rest.len() > 0 ==> (result matches Err(e) && e@
                        == "unexpected end of @match pattern"@)
                    &&& final(self)@ == s.end()
                }
            }),
    {
        let ghost s = self@;
        let mut head: Vec<TokenTree> = Vec::new();
        let ghost mut i: int = 0;
        assert(s.skip(0) =~= s);
        assert(tokens_of(head@) =~= s.rest.take(0));
        loop
            invariant
                s == old(self)@,
                0 <= i <= s.rest.len(),
                self@ == s.skip(i),
                tokens_of(head@) == s.rest.take(i),
                scan::find_arrow(s.rest, i) == scan::find_arrow(s.rest, 0),
            decreases s.rest.len() - i,
        {
            match self.peek2() {
                Some((first, second)) => {
                    assert(first@ == s.rest[i]);
                    if let (TokenTree::Punct(eq), Some(gt)) = (first, second) {
                        assert(gt@ == s.rest[i + 1]);
                        if eq.ch == '=' && gt.is_punct('>') && eq.spacing == Spacing::Joint {
                            proof {
                                scan::lemma_skip_skip(s, i, 2);
                            }
                            self.advance2();
                            head.push(first.clone());
                            head.push(gt.clone());
                            assert(tokens_of(head@) =~= s.rest.take(i + 2));
                            return Ok(Some(TokenStream { trees: head }));
                        }
                    }
                    proof {
                        scan::lemma_skip_skip(s, i, 1);
                    }
                    self.advance();
                    head.push(first.clone());
                    assert(tokens_of(head@) =~= s.rest.take(i + 1));
                    proof {
                        i = i + 1;
                    }
                },
                None => {
                    assert(self@ =~= s.end());
                    assert(tokens_of(head@).len() == i);
                    return if head.len() == 0 {
                        Ok(None)
                    } else {
                        self.error("unexpected end of @match pattern")
                    };
                },
            }
        }
    }

    /// Parses one arm of a `@match` expression, unless there are no more.
    pub fn match_arm(&mut self) -> (result: ParseResult<Option<Special>>)
        requires
            !aborts(grammar::match_arm(old(self)@).0),
        ensures
            (parsed(result, |arm: Option<Special>| special_model(arm)), final(self)@)
                == grammar::match_arm(old(self)@),
        decreases weight(old(self)@.rest), 2int,
    {
        let ghost s = self@;
        let ghost start = scan::find_arrow(s.rest, 0) + 2;
        proof {
            scan::lemma_find_arrow_bound(s.rest, 0);
        }
        let head = match self.match_head() {
            Ok(Some(head)) => head,
            Ok(None) => {
                assert(s.end() =~= s);
                return Ok(None);
            },
            Err(e) => return Err(e),
        };
        proof {
            scan::lemma_skip_skip(s, start, 1);
        }
        match self.next() {
            Some(first_token) => {
                assert(first_token@ == s.rest[start]);
                // $pat => { $stmts }
                if let TokenTree::Group(group) = first_token {
                    if group.delimiter == Delimiter::Brace {
                        assert(contents(s.rest[start]) == group.stream@);
                        proof {
                            weight::lemma_weight_contents(s.rest, start);
                        }
                        return match self.block(&group.stream, group.span) {
                            Ok(body) => {
                                // Trailing commas are optional if the match arm is a braced block
                                if let Some(token) = self.peek() {
                                    if token.is_punct(',') {
                                        self.advance();
                                    }
                                }
                                Ok(Some(Special { head, body }))
                            },
                            Err(e) => Err(e),
                        };
                    }
                }
                // $pat => $expr
                let mut tokens: Vec<TokenTree> = Vec::new();
                tokens.push(first_token.clone());
                let ghost comma = scan::find(s.rest, Mark::Punct(','), start + 1);
                proof {
                    scan::lemma_find_bound(s.rest, Mark::Punct(','), start + 1);
                    scan::lemma_find_skip(s.rest, Mark::Punct(','), start + 1, 0);
                    scan::lemma_skip_skip(s, start + 1, comma - start);
                }
                match self.take_until(Stop::Punct(','), &mut tokens) {
                    Some(_) => {
                        assert(tokens_of(tokens@) =~= s.rest.subrange(start, comma));
                        proof {
                            weight::lemma_weight_subrange(s.rest, start, comma);
                        }
                        let span = joined_span(&tokens);
                        let body = TokenStream { trees: tokens };
                        match self.block(&body, span) {
                            Ok(body) => Ok(Some(Special { head, body })),
                            Err(e) => Err(e),
                        }
                    },
                    None => {
                        assert(self@ =~= s.end());
                        self.error("unexpected end of @match arm")
                    },
                }
            },
            None => {
                assert(self@ =~= s.end());
                self.error("unexpected end of @match arm")
            },
        }
    }

    /// Parses an element node.
    ///
    /// The element name should already be consumed.
    pub fn element(&mut self, name: TokenStream) -> (result: ParseResult<Markup>)
        requires
            !aborts(grammar::element(old(self)@, name@).0),
        ensures
            (parsed(result, |markup: Markup| markup.model()), final(self)@) == grammar::element(
                old(self)@,
                name@,
            ),
        decreases weight(old(self)@.rest), 3int,
    {
        let ghost s = self@;
        if self.in_attr {
            return self.error("unexpected element, you silly bumpkin");
        }
        proof {
            progress::lemma_attrs_leaves(s, grammar::no_attrs());
        }
        let attrs = match self.attrs() {
            Ok(attrs) => attrs,
            Err(e) => return Err(e),
        };
        proof {
            progress::lemma_leaves_weight(s, self@, 0);
        }
        if let Some(token) = self.peek() {
            if token.is_punct(';') || token.is_punct('/') {
                // Void element
                self.advance();
                return Ok(Markup::Element { name, attrs, body: None });
            }
        }
        match self.markup() {
            Ok(body) => Ok(Markup::Element { name, attrs, body: Some(Box::new(body)) }),
            Err(e) => Err(e),
        }
    }

    /// Parses the attributes of an element.
    pub fn attrs(&mut self) -> (result: ParseResult<Attrs>)
        requires
            !aborts(grammar::attrs(old(self)@, grammar::no_attrs()).0),
        ensures
            (parsed(result, |attrs: Attrs| attrs.model()), final(self)@) == grammar::attrs(
                old(self)@,
                grammar::no_attrs(),
            ),
        decreases weight(old(self)@.rest), 2int,
    {
        let ghost s = self@;
        let mut found = Attrs {
            classes_static: Vec::new(),
            classes_toggled: Vec::new(),
            ids: Vec::new(),
            attrs: Vec::new(),
        };
        proof {
            let none = grammar::no_attrs();
            assert(streams_model(found.classes_static@) =~= none.classes_static);
            assert(toggled_model(found.classes_toggled@) =~= none.classes_toggled);
            assert(streams_model(found.ids@) =~= none.ids);
            assert(attributes_model(found.attrs@) =~= none.attrs);
            assert(found.model() == none);
        }
        loop
            invariant
                s == old(self)@,
                !aborts(grammar::attrs(s, grammar::no_attrs()).0),
                weight(self@.rest) <= weight(s.rest),
                grammar::attrs(self@, found.model()) == grammar::attrs(s, grammar::no_attrs()),
            decreases weight(self@.rest),
        {
            let ghost before = self@;
            let mut attempt = *self;
            match attempt.namespaced_name() {
                Ok(name) => {
                    let ghost s1 = attempt@;
                    let token_after = match attempt.next() {
                        Some(token) => token,
                        None => return Ok(found),
                    };
                    proof {
                        scan::lemma_namespaced_name_consumes(before);
                        weight::lemma_weight_skip(s1.rest, 1);
                    }
                    if token_after.is_punct('=') {
                        // Non-empty attribute
                        self.commit(attempt);
                        // Parse a value under an attribute context
                        let in_attr = self.in_attr;
                        self.in_attr = true;
                        let ghost inside = self@;
                        proof {
                            progress::lemma_markup_leaves(inside);
                        }
                        let value = match self.markup() {
                            Ok(value) => value,
                            Err(e) => return Err(e),
                        };
                        proof {
                            progress::lemma_leaves_weight(inside, self@, 1);
                        }
                        self.in_attr = in_attr;
                        let attr_type = AttrType::Normal { value };
                        assert(attr_type.model() == (AttrTypeModel::Normal {
                            value: value.model(),
                        }));
                        found.attrs.push(Attribute { name, attr_type });
                    } else if token_after.is_punct('?') {
                        // Empty attribute
                        self.commit(attempt);
                        proof {
                            lemma_attr_toggler_weight(self@);
                        }
                        let toggler = self.attr_toggler();
                        let attr_type = AttrType::Empty { toggler };
                        assert(attr_type.model() == (AttrTypeModel::Empty {
                            toggler: toggler_model(toggler),
                        }));
                        found.attrs.push(Attribute { name, attr_type });
                    } else {
                        // If it's not a valid attribute, backtrack and bail out
                        return Ok(found);
                    }
                },
                Err(_) => {
                    // A shorthand stands at the front, before anything that was tried as a name
                    let token = match self.peek() {
                        Some(token) => token,
                        None => return Ok(found),
                    };
                    proof {
                        weight::lemma_weight_skip(before.rest, 1);
                    }
                    if token.is_punct('.') {
                        // Class shorthand
                        self.advance();
                        proof {
                            scan::lemma_name_consumes(self@);
                        }
                        let name = match self.name() {
                            Ok(name) => name,
                            Err(e) => return Err(e),
                        };
                        proof {
                            lemma_attr_toggler_weight(self@);
                        }
                        if let Some(toggler) = self.attr_toggler() {
                            found.classes_toggled.push((name, toggler));
                        } else {
                            found.classes_static.push(name);
                        }
                    } else if token.is_punct('#') {
                        // ID shorthand
                        self.advance();
                        proof {
                            scan::lemma_name_consumes(self@);
                        }
                        match self.name() {
                            Ok(name) => found.ids.push(name),
                            Err(e) => return Err(e),
                        }
                    } else {
                        // If it's not a valid attribute, backtrack and bail out
                        return Ok(found);
                    }
                },
            }
            assert(found.model().attrs == attributes_model(found.attrs@));
        }
    }

    /// Parses a special form.
    ///
    /// The leading `@` and the keyword should already be consumed.
    fn special_form(&mut self, keyword: &TokenTree) -> (result: ParseResult<Markup>)
        requires
            is_ident(keyword@),
            !aborts(grammar::special_form(old(self)@, keyword@).0),
        ensures
            (parsed(result, |markup: Markup| markup.model()), final(self)@)
                == grammar::special_form(old(self)@, keyword@),
        decreases weight(old(self)@.rest), 3int,
    {
        if keyword.is_word("if") {
            let mut prefix: Vec<TokenTree> = Vec::new();
            prefix.push(keyword.clone());
            assert(tokens_of(prefix@) =~= seq![keyword@]);
            let mut segments: Vec<Special> = Vec::new();
            assert(specials_model(segments@) =~= Seq::empty());
            match self.if_expr(prefix, &mut segments) {
                Ok(_) => Ok(Markup::Special { segments }),
                Err(e) => Err(e),
            }
        } else if keyword.is_word("while") {
            self.while_expr(keyword)
        } else if keyword.is_word("for") {
            self.for_expr(keyword)
        } else if keyword.is_word("match") {
            self.match_expr(keyword)
        } else if keyword.is_word("let") {
            self.error("@let only works inside a block")
        } else {
            let mut message = "unknown keyword `@".to_owned();
            if let TokenTree::Ident(other) = keyword {
                message.append(other.text.as_str());
            }
            message.append("`");
            self.error(message.as_str())
        }
    }

    /// Parses and renders a single block of markup.
    pub fn markup(&mut self) -> (result: ParseResult<Markup>)
        requires
            !aborts(grammar::markup(old(self)@).0),
        ensures
            (parsed(result, |markup: Markup| markup.model()), final(self)@) == grammar::markup(
                old(self)@,
            ),
        decreases weight(old(self)@.rest), 2int,
    {
        let ghost s = self@;
        let token = match self.peek() {
            Some(token) => token,
            None => return self.error("unexpected end of input"),
        };
        match token {
            // Literal
            TokenTree::Literal(lit) => {
                self.advance();
                self.literal(lit)
            },
            // Special form
            TokenTree::Punct(punct) => {
                if punct.ch != '@' {
                    return self.error("invalid syntax");
                }
                proof {
                    scan::lemma_skip_skip(s, 1, 1);
                }
                self.advance();
                if let Some(keyword) = self.next() {
                    if keyword.is_ident() {
                        proof {
                            weight::lemma_weight_skip(s.rest, 2);
                        }
                        return self.special_form(keyword);
                    }
                }
                self.error("expected keyword after `@`")
            },
            // Element
            TokenTree::Ident(_) => {
                proof {
                    scan::lemma_namespaced_name_consumes(s);
                }
                match self.namespaced_name() {
                    Ok(name) => self.element(name),
                    Err(e) => Err(e),
                }
            },
            TokenTree::Group(group) => {
                match group.delimiter {
                    // Splice
                    Delimiter::Parenthesis => {
                        self.advance();
                        Ok(Markup::Splice { expr: group.stream.clone() })
                    },
                    // Block
                    Delimiter::Brace => {
                        proof {
                            assert(contents(s.rest[0]) == group.stream@);
                            weight::lemma_weight_contents(s.rest, 0);
                        }
                        self.advance();
                        match self.block(&group.stream, group.span) {
                            Ok(block) => Ok(Markup::Block(block)),
                            Err(e) => Err(e),
                        }
                    },
                    // ???
                    _ => self.error("invalid syntax"),
                }
            },
        }
    }

    /// Parses and renders multiple blocks of markup.
    pub fn markups(&mut self) -> (result: ParseResult<Vec<Markup>>)
        requires
            !aborts(grammar::markups(old(self)@).0),
        ensures
            (parsed(result, |markups: Vec<Markup>| markups_model(markups@)), final(self)@)
                == grammar::markups(old(self)@),
        decreases weight(old(self)@.rest), 3int,
    {
        let ghost s = self@;
        let mut result: Vec<Markup> = Vec::new();
        proof {
            assert(markups_model(result@) =~= Seq::empty());
            grammar::lemma_after_nothing(grammar::markups(s));
        }
        loop
            invariant
                s == old(self)@,
                !aborts(grammar::markups(s).0),
                weight(self@.rest) <= weight(s.rest),
                grammar::markups(s) == grammar::after(
                    markups_model(result@),
                    grammar::markups(self@),
                ),
            decreases weight(self@.rest),
        {
            let ghost before = self@;
            let ghost done = markups_model(result@);
            let (first, second) = match self.peek2() {
                Some(tokens) => tokens,
                None => {
                    assert(done + Seq::<MarkupModel>::empty() =~= done);
                    return Ok(result);
                },
            };
            if first.is_punct(';') {
                proof {
                    weight::lemma_weight_skip(before.rest, 1);
                }
                self.advance();
                continue;
            }
            if let Some(keyword) = second {
                if first.is_punct('@') && keyword.is_word("let") {
                    self.advance2();
                    proof {
                        progress::lemma_leaves_skip(before, 2);
                        progress::lemma_let_expr_leaves(before.skip(2), before.rest[1]);
                        progress::lemma_leaves_weight(before, before.skip(2), 2);
                    }
                    match self.let_expr(keyword) {
                        Ok(markup) => {
                            proof {
                                progress::lemma_leaves_weight(before.skip(2), self@, 0);
                                lemma_after_push(done, markup.model(), grammar::markups(self@));
                            }
                            result.push(markup);
                        },
                        Err(e) => return Err(e),
                    }
                    continue;
                }
            }
            proof {
                progress::lemma_markup_leaves(before);
            }
            match self.markup() {
                Ok(markup) => {
                    proof {
                        progress::lemma_leaves_weight(before, self@, 1);
                        lemma_after_push(done, markup.model(), grammar::markups(self@));
                    }
                    result.push(markup);
                },
                Err(e) => return Err(e),
            }
        }
    }
}

/// Parses a template.
pub fn parse(input: TokenStream) -> (result: ParseResult<Vec<Markup>>)
    requires
        !aborts(grammar::template(input@)),
    ensures
        parsed(result, |markups: Vec<Markup>| markups_model(markups@)) == grammar::template(input@),
{
    let mut parser = Parser::new(&input);
    parser.markups()
}

/// A condition of an attribute does not make the input heavier.
proof fn lemma_attr_toggler_weight(s: State)
    ensures
        weight(scan::attr_toggler(s).1.rest) <= weight(s.rest),
{
    if s.rest.len() > 0 {
        weight::lemma_weight_skip(s.rest, 1);
    }
}

/// The view of an arm of a `@match`, if there is one.
pub open spec fn special_model(special: Option<Special>) -> Option<SpecialModel> {
    match special {
        Some(special) => Some(special.model()),
        None => None,
    }
}

/// Items in front of a list can be moved there one by one.
proof fn lemma_after_push<T>(front: Seq<T>, item: T, outcome: Outcome<Seq<T>>)
    ensures
        grammar::after(front, grammar::after(seq![item], outcome)) == grammar::after(
            front.push(item),
            outcome,
        ),
{
    grammar::lemma_after_after(front, seq![item], outcome);
    assert(front + seq![item] =~= front.push(item));
}

/// The span of a stretch of trees: that of the first one, joined with those of the others as far
/// as they can be joined.
fn joined_span(trees: &Vec<TokenTree>) -> (span: Span)
    requires
        trees@.len() > 0,
    ensures
        span == grammar::joined_span(tokens_of(trees@)),
{
    let ghost tokens = tokens_of(trees@);
    let mut span = trees[0].span();
    let mut i: usize = 1;
    assert(tokens.take(1)[0] == tokens[0]);
    while i < trees.len()
        invariant
            1 <= i <= trees@.len(),
            tokens == tokens_of(trees@),
            span == grammar::joined_span(tokens.take(i as int)),
        decreases trees@.len() - i,
    {
        if let Some(bigger_span) = span.join(trees[i].span()) {
            span = bigger_span;
        }
        assert(tokens.take(i + 1).drop_last() =~= tokens.take(i as int));
        i = i + 1;
    }
    assert(tokens.take(i as int) =~= tokens);
    span
}

/// A result of the parser is seen as it is: a value by its view, a message by its characters.
pub proof fn law_parsed<T, M>(result: ParseResult<T>, model: spec_fn(T) -> M)
    ensures
        match result {
            Ok(value) => parsed(result, model) == Ok::<M, Failure>(model(value)),
            Err(message) => parsed(result, model) == Err::<M, Failure>(
                Failure::Message(message@),
            ),
        },
{
}

/// The view of an arm that may be missing is that of the arm, if there is one.
pub proof fn law_special_model(special: Option<Special>)
    ensures
        special matches Some(arm) ==> special_model(special) == Some(arm.model()),
        special is None ==> special_model(special) is None,
{
}

} // verus!
