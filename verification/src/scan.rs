//! The parts of the grammar that are not recursive: finding where a stretch of tokens ends, and
//! reading names.
use vstd::prelude::*;

use crate::ast::TogglerModel;
use crate::token::contents;
use crate::token::is_group;
use crate::token::is_ident;
use crate::token::is_punct;
use crate::token::is_word;
use crate::token::span_of;
use crate::token::Delimiter;
use crate::token::Spacing;
use crate::token::Token;
use crate::weight::group_weight;
use crate::weight::weight;

verus! {

broadcast use group_weight;

/// Where a parser stands: whether it is inside an attribute, and the tokens still to come.
#[verifier::ext_equal]
pub struct State {
    pub in_attr: bool,
    pub rest: Seq<Token>,
}

impl State {
    /// The state once the next `n` tokens are consumed, or all of them if there are fewer.
    pub open spec fn skip(self, n: int) -> State {
        State {
            in_attr: self.in_attr,
            rest: if n <= self.rest.len() {
                self.rest.skip(n)
            } else {
                Seq::empty()
            },
        }
    }

    /// The state at the end of the input.
    pub open spec fn end(self) -> State {
        State { in_attr: self.in_attr, rest: Seq::empty() }
    }
}

/// Consuming tokens in two steps is consuming them in one.
pub broadcast proof fn lemma_skip_skip(s: State, m: int, n: int)
    requires
        0 <= m,
        0 <= n,
    ensures
        #[trigger] s.skip(m).skip(n) == s.skip(m + n),
{
    assert(s.skip(m).skip(n) =~= s.skip(m + n));
}

/// Why there is no syntax tree.
pub enum Failure {
    /// The template is not valid, for the reason given.
    Message(Seq<char>),
    /// A string literal that is to be rendered is malformed: no answer is defined.
    Abort,
}

/// Whether no answer is defined.
pub open spec fn aborts<T>(result: Result<T, Failure>) -> bool {
    result matches Err(Failure::Abort)
}

/// What a construct is parsed to, and where that leaves the parser.
pub type Outcome<T> = (Result<T, Failure>, State);

/// The outcome where no construct fits.
pub open spec fn fail<T>(message: Seq<char>, state: State) -> Outcome<T> {
    (Err(Failure::Message(message)), state)
}

/// Whether the first token is the punctuation character `c`.
pub open spec fn starts_with(tokens: Seq<Token>, c: char) -> bool {
    tokens.len() > 0 && is_punct(tokens[0], c)
}

/// Whether the first two tokens are `@` and the given word.
pub open spec fn starts_with_keyword(tokens: Seq<Token>, word: Seq<char>) -> bool {
    tokens.len() > 1 && is_punct(tokens[0], '@') && is_word(tokens[1], word)
}

/// What the end of a stretch of tokens is marked by.
pub enum Mark {
    /// A punctuation character.
    Punct(char),
    /// A keyword.
    Word(Seq<char>),
    /// A braced block.
    Body,
}

/// Whether the mark stands at this token.
pub open spec fn is_mark(token: Token, mark: Mark) -> bool {
    match mark {
        Mark::Punct(c) => is_punct(token, c),
        Mark::Word(word) => is_word(token, word),
        Mark::Body => is_group(token, Delimiter::Brace),
    }
}

/// The first index, from `from` on, at which the mark stands; the number of tokens if there is
/// none.
pub open spec fn find(tokens: Seq<Token>, mark: Mark, from: int) -> int
    decreases tokens.len() - from,
{
    if 0 <= from < tokens.len() && !is_mark(tokens[from], mark) {
        find(tokens, mark, from + 1)
    } else {
        from
    }
}

/// Whether a `=>` stands at index `i`.
pub open spec fn is_arrow(tokens: Seq<Token>, i: int) -> bool {
    &&& 0 <= i < tokens.len() - 1
    &&& tokens[i] matches Token::Punct { ch, spacing, .. } && ch == '=' && spacing == Spacing::Joint
    &&& is_punct(tokens[i + 1], '>')
}

/// The first index, from `from` on, at which a `=>` stands; the number of tokens if there is
/// none.
pub open spec fn find_arrow(tokens: Seq<Token>, from: int) -> int
    decreases tokens.len() - from,
{
    if 0 <= from < tokens.len() && !is_arrow(tokens, from) {
        find_arrow(tokens, from + 1)
    } else {
        from
    }
}

/// What is found is within bounds.
pub broadcast proof fn lemma_find_bound(tokens: Seq<Token>, mark: Mark, from: int)
    requires
        0 <= from <= tokens.len(),
    ensures
        from <= #[trigger] find(tokens, mark, from) <= tokens.len(),
    decreases tokens.len() - from,
{
    if from < tokens.len() && !is_mark(tokens[from], mark) {
        lemma_find_bound(tokens, mark, from + 1);
    }
}

/// What is found does not depend on what is left out in front.
pub proof fn lemma_find_skip(tokens: Seq<Token>, mark: Mark, n: int, from: int)
    requires
        0 <= n,
        0 <= from,
        n + from <= tokens.len(),
    ensures
        find(tokens.skip(n), mark, from) + n == find(tokens, mark, n + from),
    decreases tokens.len() - n - from,
{
    if n + from < tokens.len() && !is_mark(tokens[n + from], mark) {
        lemma_find_skip(tokens, mark, n, from + 1);
    }
}

/// What is found is within bounds.
pub broadcast proof fn lemma_find_arrow_bound(tokens: Seq<Token>, from: int)
    requires
        0 <= from <= tokens.len(),
    ensures
        from <= #[trigger] find_arrow(tokens, from) <= tokens.len(),
        find_arrow(tokens, from) < tokens.len() ==> is_arrow(tokens, find_arrow(tokens, from)),
    decreases tokens.len() - from,
{
    if from < tokens.len() && !is_arrow(tokens, from) {
        lemma_find_arrow_bound(tokens, from + 1);
    }
}

/// What is found is the first: no mark stands before it, and one stands there.
pub proof fn lemma_find_first(tokens: Seq<Token>, mark: Mark, from: int)
    requires
        0 <= from <= tokens.len(),
    ensures
        forall|i: int|
            from <= i < find(tokens, mark, from) ==> !is_mark(#[trigger] tokens[i], mark),
        find(tokens, mark, from) < tokens.len() ==> is_mark(
            tokens[find(tokens, mark, from)],
            mark,
        ),
    decreases tokens.len() - from,
{
    if from < tokens.len() && !is_mark(tokens[from], mark) {
        lemma_find_first(tokens, mark, from + 1);
    }
}

/// What is found is the first: no `=>` stands before it.
pub proof fn lemma_find_arrow_first(tokens: Seq<Token>, from: int)
    requires
        0 <= from <= tokens.len(),
    ensures
        forall|i: int| from <= i < find_arrow(tokens, from) ==> !#[trigger] is_arrow(tokens, i),
    decreases tokens.len() - from,
{
    if from < tokens.len() && !is_arrow(tokens, from) {
        lemma_find_arrow_first(tokens, from + 1);
    }
}

/// Whether a name that takes the first `n` tokens goes on: by a `-`, or by an identifier right
/// after one.
pub open spec fn name_goes_on(tokens: Seq<Token>, n: int) -> bool {
    &&& 0 < n < tokens.len()
    &&& is_punct(tokens[n], '-') || is_ident(tokens[n]) && is_punct(tokens[n - 1], '-')
}

/// Where a name that takes at least the first `n` tokens ends.
pub open spec fn name_end(tokens: Seq<Token>, n: int) -> int
    decreases tokens.len() - n,
{
    if name_goes_on(tokens, n) {
        name_end(tokens, n + 1)
    } else {
        n
    }
}

/// A name ends within the tokens.
pub proof fn lemma_name_end_bound(tokens: Seq<Token>, n: int)
    requires
        0 <= n <= tokens.len(),
    ensures
        n <= name_end(tokens, n) <= tokens.len(),
    decreases tokens.len() - n,
{
    if name_goes_on(tokens, n) {
        lemma_name_end_bound(tokens, n + 1);
    }
}

/// An identifier, without dealing with namespaces: it may hold hyphens.
pub open spec fn name(s: State) -> Outcome<Seq<Token>> {
    if s.rest.len() > 0 && is_ident(s.rest[0]) {
        let n = name_end(s.rest, 1);
        (Ok(s.rest.take(n)), s.skip(n))
    } else {
        fail("expected identifier"@, s)
    }
}

/// The name of an element or attribute, along with a namespace if there is one.
pub open spec fn namespaced_name(s: State) -> Outcome<Seq<Token>> {
    match name(s) {
        (Ok(first), s1) => if starts_with(s1.rest, ':') {
            match name(s1.skip(1)) {
                (Ok(second), s2) => (Ok(first.push(s1.rest[0]) + second), s2),
                (Err(e), s2) => (Err(e), s2),
            }
        } else {
            (Ok(first), s1)
        },
        (Err(e), s1) => (Err(e), s1),
    }
}

/// A name takes at least one token; without one nothing is consumed.
pub broadcast proof fn lemma_name_consumes(s: State)
    ensures
        (#[trigger] name(s)).1.in_attr == s.in_attr,
        name(s).0 is Ok ==> weight(name(s).1.rest) < weight(s.rest),
        name(s).0 is Err ==> name(s).1 == s,
{
    if s.rest.len() > 0 {
        lemma_name_end_bound(s.rest, 1);
    }
}

/// A name takes at least one token; without one no token is put back.
pub broadcast proof fn lemma_namespaced_name_consumes(s: State)
    ensures
        (#[trigger] namespaced_name(s)).1.in_attr == s.in_attr,
        namespaced_name(s).0 is Ok ==> weight(namespaced_name(s).1.rest) < weight(s.rest),
        weight(namespaced_name(s).1.rest) <= weight(s.rest),
{
    broadcast use lemma_name_consumes;

}

/// The `[cond]` after an empty attribute or class shorthand, if there is one.
pub open spec fn attr_toggler(s: State) -> (Option<TogglerModel>, State) {
    if s.rest.len() > 0 && is_group(s.rest[0], Delimiter::Bracket) {
        (
            Some(TogglerModel { cond: contents(s.rest[0]), cond_span: span_of(s.rest[0]) }),
            s.skip(1),
        )
    } else {
        (None, s)
    }
}

/// What is found, and what is left after it.
pub broadcast group group_scan {
    lemma_find_bound,
    lemma_find_arrow_bound,
    lemma_name_consumes,
    lemma_namespaced_name_consumes,
}

} // verus!
