//! The weight of a token sequence: how many tokens it holds, at every depth.
//!
//! Each step of the grammar goes on with a lighter sequence, so parsing comes to an end.
use vstd::prelude::*;

use crate::token::contents;
use crate::token::Token;

verus! {

/// The number of tokens, those inside groups included.
pub open spec fn weight(tokens: Seq<Token>) -> nat
    decreases tokens,
{
    if tokens.len() == 0 {
        0
    } else {
        let first = match tokens[0] {
            Token::Group { stream, .. } => 1 + weight(stream),
            _ => 1,
        };
        first + weight(tokens.skip(1))
    }
}

/// Side by side, weights add up.
pub proof fn lemma_weight_concat(a: Seq<Token>, b: Seq<Token>)
    ensures
        weight(a + b) == weight(a) + weight(b),
    decreases a.len(),
{
    if a.len() == 0 {
        assert(a + b =~= b);
    } else {
        assert((a + b).skip(1) =~= a.skip(1) + b);
        lemma_weight_concat(a.skip(1), b);
    }
}

/// No token, no weight; some token, some weight.
pub broadcast proof fn lemma_weight_positive(tokens: Seq<Token>)
    ensures
        tokens.len() <= #[trigger] weight(tokens),
    decreases tokens.len(),
{
    if tokens.len() > 0 {
        lemma_weight_positive(tokens.skip(1));
    }
}

/// A sequence weighs more than what is left of it without its first tokens.
pub broadcast proof fn lemma_weight_skip(tokens: Seq<Token>, n: int)
    requires
        0 <= n <= tokens.len(),
    ensures
        #[trigger] weight(tokens.skip(n)) + n <= weight(tokens),
{
    assert(tokens =~= tokens.take(n) + tokens.skip(n));
    lemma_weight_concat(tokens.take(n), tokens.skip(n));
    lemma_weight_positive(tokens.take(n));
}

/// A sequence weighs more than any of its parts, by at least the tokens that are left out.
pub broadcast proof fn lemma_weight_subrange(tokens: Seq<Token>, lo: int, hi: int)
    requires
        0 <= lo <= hi <= tokens.len(),
    ensures
        #[trigger] weight(tokens.subrange(lo, hi)) + tokens.len() - (hi - lo) <= weight(tokens),
{
    let part = tokens.subrange(lo, hi);
    assert(tokens =~= (tokens.take(lo) + part) + tokens.skip(hi));
    lemma_weight_concat(tokens.take(lo) + part, tokens.skip(hi));
    lemma_weight_concat(tokens.take(lo), part);
    lemma_weight_positive(tokens.take(lo));
    lemma_weight_positive(tokens.skip(hi));
}

/// A sequence weighs more than what is inside any of its groups.
pub broadcast proof fn lemma_weight_contents(tokens: Seq<Token>, i: int)
    requires
        0 <= i < tokens.len(),
    ensures
        #[trigger] weight(contents(tokens[i])) < weight(tokens),
{
    lemma_weight_skip(tokens, i);
    assert(tokens.skip(i)[0] == tokens[i]);
    assert(weight(Seq::<Token>::empty()) == 0);
}

/// What the termination of the grammar rests on.
pub broadcast group group_weight {
    lemma_weight_positive,
    lemma_weight_skip,
    lemma_weight_subrange,
    lemma_weight_contents,
}

} // verus!
