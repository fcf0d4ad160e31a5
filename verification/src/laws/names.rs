//! Names: put together from identifiers and hyphens, they are read back whole.
use vstd::prelude::*;

use crate::scan::name;
use crate::scan::name_end;
use crate::scan::namespaced_name;
use crate::scan::Failure;
use crate::scan::State;
use crate::token::is_ident;
use crate::token::is_punct;
use crate::token::Token;

verus! {

/// Whether these tokens are one name: an identifier, then hyphens and identifiers, each of these
/// right after a hyphen.
pub open spec fn is_name(n: Seq<Token>) -> bool {
    &&& n.len() > 0
    &&& is_ident(n[0])
    &&& forall|i: int|
        0 < i < n.len() ==> is_punct(#[trigger] n[i], '-') || is_ident(n[i]) && is_punct(
            n[i - 1],
            '-',
        )
}

/// Whether these tokens are one name, or two with a `:` between them.
pub open spec fn is_qualified(q: Seq<Token>) -> bool {
    is_name(q) || exists|colon: int| is_colon(q, colon)
}

/// Whether the `:` at this index stands between two names.
pub open spec fn is_colon(q: Seq<Token>, colon: int) -> bool {
    &&& 0 < colon < q.len() - 1
    &&& is_punct(q[colon], ':')
    &&& is_name(q.take(colon))
    &&& is_name(q.skip(colon + 1))
}

/// Whether a name that ends with the last token of `n` does not go on with `rest`.
pub open spec fn stops(n: Seq<Token>, rest: Seq<Token>) -> bool {
    rest.len() > 0 ==> !is_punct(rest[0], '-') && !(is_ident(rest[0]) && is_punct(n.last(), '-'))
}

/// Whether a name, namespace included, does not go on with `rest`.
pub open spec fn qualified_stops(q: Seq<Token>, rest: Seq<Token>) -> bool {
    stops(q, rest) && (is_name(q) && rest.len() > 0 ==> !is_punct(rest[0], ':'))
}

/// A name is read back whole, and what follows is left.
pub proof fn law_name(in_attr: bool, n: Seq<Token>, rest: Seq<Token>)
    requires
        is_name(n),
        stops(n, rest),
    ensures
        name(State { in_attr, rest: n + rest }) == (
            Ok::<Seq<Token>, Failure>(n),
            (State { in_attr, rest }),
        ),
{
    let s = State { in_attr, rest: n + rest };
    assert(s.rest[0] == n[0]);
    lemma_name_end_at(n, rest, 1);
    assert(s.rest.take(n.len() as int) =~= n);
    assert(s.rest.skip(n.len() as int) =~= rest);
}

proof fn lemma_name_end_at(n: Seq<Token>, rest: Seq<Token>, from: int)
    requires
        is_name(n),
        stops(n, rest),
        1 <= from <= n.len(),
    ensures
        name_end(n + rest, from) == n.len(),
    decreases n.len() - from,
{
    let all = n + rest;
    assert(all[from - 1] == n[from - 1]);
    if from < n.len() {
        assert(all[from] == n[from]);
        lemma_name_end_at(n, rest, from + 1);
    } else if rest.len() > 0 {
        assert(all[from] == rest[0]);
    }
}

/// Where there is no identifier there is no name, and nothing is consumed.
pub proof fn law_no_name(s: State)
    requires
        s.rest.len() == 0 || !is_ident(s.rest[0]),
    ensures
        name(s) == (
            Err::<Seq<Token>, Failure>(Failure::Message("expected identifier"@)),
            s,
        ),
        namespaced_name(s) == (
            Err::<Seq<Token>, Failure>(Failure::Message("expected identifier"@)),
            s,
        ),
{
}

/// A name, namespace included, is read back whole, and what follows is left.
pub proof fn law_namespaced_name(in_attr: bool, q: Seq<Token>, rest: Seq<Token>)
    requires
        is_qualified(q),
        qualified_stops(q, rest),
    ensures
        namespaced_name(State { in_attr, rest: q + rest }) == (
            Ok::<Seq<Token>, Failure>(q),
            (State { in_attr, rest }),
        ),
{
    if is_name(q) {
        law_name(in_attr, q, rest);
    } else {
        let colon = choose|colon: int| is_colon(q, colon);
        let n = q.take(colon);
        let m = q.skip(colon + 1);
        let more = seq![q[colon]] + m + rest;
        assert(q + rest =~= n + more);
        law_name(in_attr, n, more);
        let s1 = State { in_attr, rest: more };
        assert(s1.skip(1).rest =~= m + rest);
        assert(m.last() == q.last());
        law_name(in_attr, m, rest);
        assert(n.push(q[colon]) + m =~= q);
    }
}

/// A namespace without a name after it is an error right after the `:`.
pub proof fn law_cut_short(in_attr: bool, n: Seq<Token>, colon: Token, rest: Seq<Token>)
    requires
        is_name(n),
        is_punct(colon, ':'),
        rest.len() > 0 ==> !is_ident(rest[0]),
    ensures
        namespaced_name(State { in_attr, rest: n + seq![colon] + rest }) == (
            Err::<Seq<Token>, Failure>(Failure::Message("expected identifier"@)),
            (State { in_attr, rest }),
        ),
{
    let more = seq![colon] + rest;
    assert(n + seq![colon] + rest =~= n + more);
    law_name(in_attr, n, more);
    let s1 = State { in_attr, rest: more };
    assert(s1.skip(1).rest =~= rest);
    law_no_name(State { in_attr, rest });
}

} // verus!
