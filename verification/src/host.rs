//! Host-session helpers: the source text that invokes a bound definition.

use vstd::prelude::*;

use crate::dialect::Dialect;
use crate::request::{BindingEvaluationPolicy, BindingKind, Request, RequestV, SessionCommand, SessionCommandV, request_view};
use crate::strings::{lemma_sep_join_pair, owned, sep_join};
use crate::term::Term;

verus! {

/// Character views of a sequence of names.
pub open spec fn names_view(names: Seq<String>) -> Seq<Seq<char>> {
    Seq::new(names.len(), |i: int| names[i]@)
}

/// Source text calling `symbol` on the bound argument names: `f[a, b]` in
/// Mathematica, `f(a, b)` in MATLAB, the bare symbol in simple math.
pub open spec fn spec_invoke_source(dialect: Dialect, symbol: Seq<char>, names: Seq<Seq<char>>) -> Seq<char> {
    match dialect {
        Dialect::Mathematica => symbol + "["@ + sep_join(names, ", "@) + "]"@,
        Dialect::Matlab => symbol + "("@ + sep_join(names, ", "@) + ")"@,
        Dialect::SimpleMath => symbol,
    }
}

fn join_names(names: &[String], sep: &str) -> (r: String)
    ensures
        r@ == sep_join(names_view(names@), sep@),
{
    let mut r = String::new();
    let mut i: usize = 0;
    proof {
        assert(names_view(names@.subrange(0, 0)) =~= Seq::<Seq<char>>::empty());
    }
    while i < names.len()
        invariant
            i <= names.len(),
            r@ == sep_join(names_view(names@.subrange(0, i as int)), sep@),
        decreases names.len() - i,
    {
        proof {
            let pre = names_view(names@.subrange(0, i as int));
            let nxt = names_view(names@.subrange(0, i + 1));
            assert(nxt.drop_last() =~= pre);
            assert(nxt.last() == names@[i as int]@);
        }
        if i > 0 {
            r.append(sep);
        }
        r.append(names[i].as_str());
        i = i + 1;
    }
    assert(names@.subrange(0, names.len() as int) =~= names@);
    r
}

/// Source text calling `symbol` on the bound argument names.
pub fn invoke_source(dialect: Dialect, symbol: &str, arg_names: &[String]) -> (r: String)
    ensures
        r@ == spec_invoke_source(dialect, symbol@, names_view(arg_names@)),
{
    match dialect {
        Dialect::Mathematica => {
            let mut r = String::from_str(symbol);
            r.append("[");
            let joined = join_names(arg_names, ", ");
            r.append(joined.as_str());
            r.append("]");
            r
        },
        Dialect::Matlab => {
            let mut r = String::from_str(symbol);
            r.append("(");
            let joined = join_names(arg_names, ", ");
            r.append(joined.as_str());
            r.append(")");
            r
        },
        Dialect::SimpleMath => String::from_str(symbol),
    }
}

/// Request binding a host name to an already-built term in the session
/// scope: the term is stored as it stands, not evaluated again.
pub fn bind_request(name: &str, value: Term) -> (r: Request)
    ensures
        request_view(r) == RequestV::Command(
            SessionCommandV::Define {
                symbol: name@,
                value: value@,
                kind: BindingKind::Session,
                evaluation: BindingEvaluationPolicy::StoreResidualTerm,
            },
        ),
{
    Request::Command(
        SessionCommand::Define {
            symbol: owned(name),
            value,
            kind: BindingKind::Session,
            evaluation: BindingEvaluationPolicy::StoreResidualTerm,
        },
    )
}


/// Invocation text: with no argument names `f[]` and `f()`; with names `a`
/// and `b`, `f[a, b]` and `f(a, b)` with the names in order; simple math
/// names the symbol alone.
pub proof fn lemma_invoke_source_text(f: Seq<char>, a: Seq<char>, b: Seq<char>, names: Seq<Seq<char>>)
    ensures
        spec_invoke_source(Dialect::Mathematica, f, seq![]) == f + "[]"@,
        spec_invoke_source(Dialect::Matlab, f, seq![]) == f + "()"@,
        spec_invoke_source(Dialect::Mathematica, f, seq![a, b]) == f + "["@ + a + ", "@ + b + "]"@,
        spec_invoke_source(Dialect::Matlab, f, seq![a, b]) == f + "("@ + a + ", "@ + b + ")"@,
        spec_invoke_source(Dialect::SimpleMath, f, names) == f,
{
    lemma_sep_join_pair(a, b, ", "@);
    reveal_strlit("[]");
    reveal_strlit("[");
    reveal_strlit("]");
    reveal_strlit("()");
    reveal_strlit("(");
    reveal_strlit(")");
    assert(sep_join(Seq::<Seq<char>>::empty(), ", "@) == Seq::<char>::empty());
    assert(f + "["@ + Seq::<char>::empty() + "]"@ =~= f + "[]"@);
    assert(f + "("@ + Seq::<char>::empty() + ")"@ =~= f + "()"@);
    assert(f + "["@ + (a + ", "@ + b) + "]"@ =~= f + "["@ + a + ", "@ + b + "]"@);
    assert(f + "("@ + (a + ", "@ + b) + ")"@ =~= f + "("@ + a + ", "@ + b + ")"@);
}

} // verus!
