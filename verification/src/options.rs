//! Host evaluate post-strategy (neutral, not dialect-named modes).

use vstd::prelude::*;

use crate::error::SxoError;
use crate::strings::{concat3, str_eq};

verus! {

/// Evaluate post-strategy.
#[derive(Debug, Clone, Copy, PartialEq, Eq, Structural)]
pub enum EvalStrategy {
    /// Return the evaluate result as-is.
    AsIs,
    /// Run `Simplify` on the evaluate result before returning.
    Simplify,
}

/// Parse a strategy tag: absent or `none` gives [`EvalStrategy::AsIs`],
/// `simplify` gives [`EvalStrategy::Simplify`], anything else is an error.
pub fn parse_strategy(strategy: Option<&str>) -> (r: Result<EvalStrategy, SxoError>)
    ensures
        strategy is None ==> r == Ok::<EvalStrategy, SxoError>(EvalStrategy::AsIs),
        strategy matches Some(t) ==> (t@ == "none"@ ==> r == Ok::<EvalStrategy, SxoError>(EvalStrategy::AsIs)),
        strategy matches Some(t) ==> (t@ == "simplify"@ ==> r == Ok::<EvalStrategy, SxoError>(EvalStrategy::Simplify)),
        strategy matches Some(t) ==> (t@ != "none"@ && t@ != "simplify"@ ==> (r matches Err(e)
            && e.message@ == "unknown evaluate strategy `"@ + t@ + "` (expected `none` or `simplify`)"@)),
{
    proof {
        reveal_strlit("none");
        reveal_strlit("simplify");
        assert("none"@.len() == 4);
        assert("simplify"@.len() == 8);
    }
    match strategy {
        None => Ok(EvalStrategy::AsIs),
        Some(t) => {
            if str_eq(t, "none") {
                Ok(EvalStrategy::AsIs)
            } else if str_eq(t, "simplify") {
                Ok(EvalStrategy::Simplify)
            } else {
                Err(SxoError { message: concat3("unknown evaluate strategy `", t, "` (expected `none` or `simplify`)") })
            }
        },
    }
}

} // verus!
