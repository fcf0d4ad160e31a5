//! Token trees, as a procedural macro receives them, and their mathematical view.
use vstd::prelude::*;

verus! {

/// A region of source code: the positions from `lo` up to `hi` of the file numbered `file`.
///
/// Positions are ordered as the source is read; nothing else is assumed of them.
#[derive(Clone, Copy, Debug, PartialEq, Eq, Structural)]
pub struct Span {
    pub file: u64,
    pub lo: u64,
    pub hi: u64,
}

impl Span {
    /// Whether `other` lies within this span.
    pub open spec fn covers(self, other: Span) -> bool {
        self.file == other.file && self.lo <= other.lo && other.hi <= self.hi
    }

    /// The smallest span that covers both, or nothing if they lie in different files.
    pub open spec fn joined(self, other: Span) -> Option<Span> {
        if self.file == other.file {
            Some(
                Span {
                    file: self.file,
                    lo: if self.lo <= other.lo { self.lo } else { other.lo },
                    hi: if self.hi >= other.hi { self.hi } else { other.hi },
                },
            )
        } else {
            None
        }
    }

    /// Creates a span that encompasses `self` and `other`.
    ///
    /// Returns `None` if they are from different files.
    pub fn join(&self, other: Span) -> (span: Option<Span>)
        ensures
            span == self.joined(other),
    {
        if self.file == other.file {
            Some(
                Span {
                    file: self.file,
                    lo: if self.lo <= other.lo { self.lo } else { other.lo },
                    hi: if self.hi >= other.hi { self.hi } else { other.hi },
                },
            )
        } else {
            None
        }
    }
}

/// The order in which spans are joined makes no difference, a span joined with itself is itself,
/// and a span that covers two others covers what they are joined to, which covers them both. Only
/// spans of different files cannot be joined.
pub proof fn law_joined(a: Span, b: Span, c: Span)
    ensures
        a.joined(b) == b.joined(a),
        a.joined(a) == Some(a),
        a.joined(b) matches Some(both) ==> {
            &&& both.covers(a)
            &&& both.covers(b)
            &&& c.covers(a) && c.covers(b) ==> c.covers(both)
        },
        a.joined(b) is None <==> a.file != b.file,
        a.covers(b) <==> a.file == b.file && a.lo <= b.lo && b.hi <= a.hi,
{
}

/// How a group of tokens is enclosed.
#[derive(Clone, Copy, Debug, PartialEq, Eq, Structural)]
pub enum Delimiter {
    /// `( ... )`
    Parenthesis,
    /// `{ ... }`
    Brace,
    /// `[ ... ]`
    Bracket,
    /// No delimiter in the source: the tokens were substituted by another macro.
    Invisible,
}

/// Whether a punctuation character is followed at once by another one.
#[derive(Clone, Copy, Debug, PartialEq, Eq, Structural)]
pub enum Spacing {
    Alone,
    Joint,
}

/// An identifier or keyword.
#[derive(Debug, PartialEq, Eq)]
pub struct Ident {
    pub text: String,
    pub span: Span,
}

/// A single punctuation character.
#[derive(Clone, Copy, Debug, PartialEq, Eq)]
pub struct Punct {
    pub ch: char,
    pub spacing: Spacing,
    pub span: Span,
}

/// A literal, as it is written in the source: quotes, escapes and suffix included.
#[derive(Debug, PartialEq, Eq)]
pub struct Literal {
    pub text: String,
    pub span: Span,
}

/// A delimited token stream.
#[derive(Debug, PartialEq, Eq)]
pub struct Group {
    pub delimiter: Delimiter,
    pub stream: TokenStream,
    pub span: Span,
}

/// A single token or a delimited sequence of tokens.
#[derive(Debug, PartialEq, Eq)]
pub enum TokenTree {
    Group(Group),
    Ident(Ident),
    Punct(Punct),
    Literal(Literal),
}

/// A sequence of token trees.
#[derive(Debug, PartialEq, Eq)]
pub struct TokenStream {
    pub trees: Vec<TokenTree>,
}

/// The mathematical view of a [`TokenTree`].
pub enum Token {
    Group { delimiter: Delimiter, stream: Seq<Token>, span: Span },
    Ident { text: Seq<char>, span: Span },
    Punct { ch: char, spacing: Spacing, span: Span },
    Literal { text: Seq<char>, span: Span },
}

impl TokenTree {
    /// The token that this tree stands for.
    pub open spec fn token(self) -> Token
        decreases self,
    {
        match self {
            TokenTree::Group(group) => Token::Group {
                delimiter: group.delimiter,
                stream: tokens_of(group.stream.trees@),
                span: group.span,
            },
            TokenTree::Ident(ident) => Token::Ident { text: ident.text@, span: ident.span },
            TokenTree::Punct(punct) => Token::Punct {
                ch: punct.ch,
                spacing: punct.spacing,
                span: punct.span,
            },
            TokenTree::Literal(lit) => Token::Literal { text: lit.text@, span: lit.span },
        }
    }
}

/// The tokens that the given trees stand for, in order.
pub open spec fn tokens_of(trees: Seq<TokenTree>) -> Seq<Token>
    decreases trees,
{
    Seq::new(
        trees.len(),
        |i: int|
            if 0 <= i < trees.len() {
                trees[i].token()
            } else {
                arbitrary()
            },
    )
}

/// The span of a token.
pub open spec fn span_of(token: Token) -> Span {
    match token {
        Token::Group { span, .. } => span,
        Token::Ident { span, .. } => span,
        Token::Punct { span, .. } => span,
        Token::Literal { span, .. } => span,
    }
}

/// Whether the token is the punctuation character `c`.
pub open spec fn is_punct(token: Token, c: char) -> bool {
    token matches Token::Punct { ch, .. } && ch == c
}

/// Whether the token is an identifier or keyword.
pub open spec fn is_ident(token: Token) -> bool {
    token is Ident
}

/// Whether the token is the given identifier or keyword.
pub open spec fn is_word(token: Token, word: Seq<char>) -> bool {
    token matches Token::Ident { text, .. } && text == word
}

/// Whether the token is a group with the given delimiter.
pub open spec fn is_group(token: Token, delim: Delimiter) -> bool {
    token matches Token::Group { delimiter, .. } && delimiter == delim
}

/// The tokens inside a group; any other token holds none.
pub open spec fn contents(token: Token) -> Seq<Token> {
    match token {
        Token::Group { stream, .. } => stream,
        _ => Seq::empty(),
    }
}

impl TokenTree {
    /// The span of the whole tree.
    pub fn span(&self) -> (span: Span)
        ensures
            span == span_of(self@),
    {
        match self {
            TokenTree::Group(group) => group.span,
            TokenTree::Ident(ident) => ident.span,
            TokenTree::Punct(punct) => punct.span,
            TokenTree::Literal(lit) => lit.span,
        }
    }

    /// Whether this is the punctuation character `c`.
    pub fn is_punct(&self, c: char) -> (yes: bool)
        ensures
            yes == is_punct(self@, c),
    {
        match self {
            TokenTree::Punct(punct) => punct.ch == c,
            _ => false,
        }
    }

    /// Whether this is an identifier or keyword.
    pub fn is_ident(&self) -> (yes: bool)
        ensures
            yes == is_ident(self@),
    {
        matches!(self, TokenTree::Ident(_))
    }

    /// Whether this is the given identifier or keyword.
    pub fn is_word(&self, word: &str) -> (yes: bool)
        ensures
            yes == is_word(self@, word@),
    {
        match self {
            TokenTree::Ident(ident) => ident.text == word.to_owned(),
            _ => false,
        }
    }

    /// Whether this is a group with the given delimiter.
    pub fn is_group(&self, delimiter: Delimiter) -> (yes: bool)
        ensures
            yes == is_group(self@, delimiter),
    {
        match self {
            TokenTree::Group(group) => group.delimiter == delimiter,
            _ => false,
        }
    }
}

impl View for TokenTree {
    type V = Token;

    open spec fn view(&self) -> Token {
        self.token()
    }
}

impl View for TokenStream {
    type V = Seq<Token>;

    open spec fn view(&self) -> Seq<Token> {
        tokens_of(self.trees@)
    }
}

/// One more tree at the end is one more token at the end.
pub broadcast proof fn lemma_tokens_of_push(trees: Seq<TokenTree>, tree: TokenTree)
    ensures
        #[trigger] tokens_of(trees.push(tree)) == tokens_of(trees).push(tree.token()),
{
    assert(tokens_of(trees.push(tree)) =~= tokens_of(trees).push(tree.token()));
}

/// The tokens of a part of the trees are that part of the tokens.
pub broadcast proof fn lemma_tokens_of_subrange(trees: Seq<TokenTree>, lo: int, hi: int)
    requires
        0 <= lo <= hi <= trees.len(),
    ensures
        #[trigger] tokens_of(trees.subrange(lo, hi)) == tokens_of(trees).subrange(lo, hi),
{
    assert(tokens_of(trees.subrange(lo, hi)) =~= tokens_of(trees).subrange(lo, hi));
}

/// Trees side by side are tokens side by side.
pub broadcast proof fn lemma_tokens_of_concat(a: Seq<TokenTree>, b: Seq<TokenTree>)
    ensures
        #[trigger] tokens_of(a + b) == tokens_of(a) + tokens_of(b),
{
    assert(tokens_of(a + b) =~= tokens_of(a) + tokens_of(b));
}

/// Operations on trees are operations on their tokens.
pub broadcast group group_tokens_of {
    lemma_tokens_of_push,
    lemma_tokens_of_subrange,
    lemma_tokens_of_concat,
}

impl Clone for Ident {
    fn clone(&self) -> (copy: Ident)
        ensures
            copy == *self,
    {
        Ident { text: self.text.clone(), span: self.span }
    }
}

impl Clone for Literal {
    fn clone(&self) -> (copy: Literal)
        ensures
            copy == *self,
    {
        Literal { text: self.text.clone(), span: self.span }
    }
}

impl Clone for Group {
    fn clone(&self) -> (copy: Group)
        ensures
            copy.delimiter == self.delimiter,
            copy.stream@ == self.stream@,
            copy.span == self.span,
        decreases self,
    {
        Group { delimiter: self.delimiter, stream: self.stream.clone(), span: self.span }
    }
}

impl Clone for TokenTree {
    fn clone(&self) -> (copy: TokenTree)
        ensures
            copy@ == self@,
        decreases self,
    {
        match self {
            TokenTree::Group(group) => TokenTree::Group(group.clone()),
            TokenTree::Ident(ident) => TokenTree::Ident(ident.clone()),
            TokenTree::Punct(punct) => TokenTree::Punct(*punct),
            TokenTree::Literal(lit) => TokenTree::Literal(lit.clone()),
        }
    }
}

impl Clone for TokenStream {
    fn clone(&self) -> (copy: TokenStream)
        ensures
            copy@ == self@,
        decreases self,
    {
        let mut trees: Vec<TokenTree> = Vec::new();
        let mut i: usize = 0;
        while i < self.trees.len()
            invariant
                i <= self.trees@.len(),
                tokens_of(trees@) == self@.take(i as int),
            decreases self.trees@.len() - i,
        {
            broadcast use lemma_tokens_of_push;

            assert(decreases_to!(self => self.trees@[i as int]));
            trees.push(self.trees[i].clone());
            assert(self@.take(i + 1) =~= self@.take(i as int).push(self@[i as int]));
            i = i + 1;
        }
        assert(self@.take(self@.len() as int) =~= self@);
        TokenStream { trees }
    }
}

/// The view of a tree is a token of the same kind, with the views of the same parts; that of a
/// stream is the views of its trees, as many and in the same order.
pub proof fn law_view(tree: TokenTree, stream: TokenStream, i: int)
    ensures
        match tree {
            TokenTree::Group(group) => tree@ == (Token::Group {
                delimiter: group.delimiter,
                stream: group.stream@,
                span: group.span,
            }),
            TokenTree::Ident(ident) => tree@ == (Token::Ident {
                text: ident.text@,
                span: ident.span,
            }),
            TokenTree::Punct(punct) => tree@ == (Token::Punct {
                ch: punct.ch,
                spacing: punct.spacing,
                span: punct.span,
            }),
            TokenTree::Literal(lit) => tree@ == (Token::Literal {
                text: lit.text@,
                span: lit.span,
            }),
        },
        stream@.len() == stream.trees@.len(),
        0 <= i < stream.trees@.len() ==> stream@[i] == stream.trees@[i]@,
{
}

/// What is asked of a token is answered by its kind and its parts.
pub proof fn law_kinds(token: Token, c: char, word: Seq<char>, delim: Delimiter)
    ensures
        match token {
            Token::Group { delimiter, stream, span } => {
                &&& is_group(token, delim) <==> delimiter == delim
                &&& contents(token) == stream
                &&& span_of(token) == span
                &&& !is_punct(token, c) && !is_ident(token) && !is_word(token, word)
            },
            Token::Ident { text, span } => {
                &&& is_ident(token)
                &&& is_word(token, word) <==> text == word
                &&& span_of(token) == span
                &&& !is_punct(token, c) && !is_group(token, delim)
            },
            Token::Punct { ch, span, .. } => {
                &&& is_punct(token, c) <==> ch == c
                &&& span_of(token) == span
                &&& !is_ident(token) && !is_word(token, word) && !is_group(token, delim)
            },
            Token::Literal { span, .. } => {
                &&& span_of(token) == span
                &&& !is_punct(token, c) && !is_ident(token) && !is_word(token, word) && !is_group(
                    token,
                    delim,
                )
            },
        },
{
}

} // verus!
