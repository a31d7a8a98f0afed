//! Explicit dialect tags (no auto-detection).
//!
//! Callers must choose a concrete dialect. There is no `Auto` variant and no
//! heuristic detection of a dialect from source text.

use vstd::prelude::*;

use crate::error::{SxoError, error_from_str};
use crate::strings::{concat2, str_eq};

verus! {

/// Dialect selector for parse / render.
#[derive(Debug, Clone, Copy, PartialEq, Eq, Structural)]
pub enum Dialect {
    /// Simple-math (not on the current delivery route).
    SimpleMath,
    /// Mathematica / Wolfram forms.
    Mathematica,
    /// MATLAB forms.
    Matlab,
}

impl Default for Dialect {
    fn default() -> (d: Self)
        ensures
            d == Dialect::SimpleMath,
    {
        Dialect::SimpleMath
    }
}

/// Host wire name of a dialect.
pub open spec fn dialect_name(d: Dialect) -> Seq<char> {
    match d {
        Dialect::SimpleMath => "simple-math"@,
        Dialect::Mathematica => "mathematica"@,
        Dialect::Matlab => "matlab"@,
    }
}

/// The dialect a host wire name selects, if any (`auto` selects none).
pub open spec fn dialect_of_name(name: Seq<char>) -> Option<Dialect> {
    if name == "simple-math"@ || name == "sm"@ {
        Some(Dialect::SimpleMath)
    } else if name == "mathematica"@ {
        Some(Dialect::Mathematica)
    } else if name == "matlab"@ {
        Some(Dialect::Matlab)
    } else {
        None
    }
}

/// Message when no dialect is given.
pub open spec fn msg_dialect_required() -> Seq<char> {
    "dialect is required (mathematica | matlab | simple-math)"@
}

/// Message when the removed `auto` dialect is asked for.
pub open spec fn msg_dialect_auto() -> Seq<char> {
    "dialect auto is removed. pass an explicit dialect"@
}

/// Parse a host dialect tag.
///
/// `None` and `auto` are refused; `simple-math`/`sm`, `mathematica` and `matlab`
/// select a dialect; any other tag is an unknown dialect.
pub fn dialect_from_str(s: Option<&str>) -> (r: Result<Dialect, SxoError>)
    ensures
        s is None ==> (r matches Err(e) && e.message@ == msg_dialect_required()),
        s matches Some(t) ==> (t@ == "auto"@ ==> (r matches Err(e) && e.message@ == msg_dialect_auto())),
        s matches Some(t) ==> (t@ != "auto"@ ==> (match dialect_of_name(t@) {
            Some(d) => r == Ok::<Dialect, SxoError>(d),
            None => r matches Err(e) && e.message@ == "unknown dialect: "@ + t@,
        })),
{
    match s {
        None => Err(error_from_str("dialect is required (mathematica | matlab | simple-math)")),
        Some(t) => {
            if str_eq(t, "auto") {
                Err(error_from_str("dialect auto is removed. pass an explicit dialect"))
            } else if str_eq(t, "simple-math") || str_eq(t, "sm") {
                Ok(Dialect::SimpleMath)
            } else if str_eq(t, "mathematica") {
                Ok(Dialect::Mathematica)
            } else if str_eq(t, "matlab") {
                Ok(Dialect::Matlab)
            } else {
                Err(SxoError { message: concat2("unknown dialect: ", t) })
            }
        },
    }
}

/// Host wire name of a dialect.
pub fn dialect_to_str(d: Dialect) -> (r: &'static str)
    ensures
        r@ == dialect_name(d),
{
    match d {
        Dialect::SimpleMath => "simple-math",
        Dialect::Mathematica => "mathematica",
        Dialect::Matlab => "matlab",
    }
}

/// A dialect's wire name parses back to that dialect.
pub proof fn lemma_dialect_name_roundtrip(d: Dialect)
    ensures
        dialect_of_name(dialect_name(d)) == Some(d),
        dialect_name(d) != "auto"@,
{
    reveal_strlit("simple-math");
    reveal_strlit("sm");
    reveal_strlit("mathematica");
    reveal_strlit("matlab");
    reveal_strlit("auto");
    assert("mathematica"@[0] != "simple-math"@[0]);
    assert("mathematica"@ != "simple-math"@);
    assert("sm"@.len() != "mathematica"@.len());
    assert("auto"@.len() == 4);
    assert("matlab"@.len() == 6);
    assert("mathematica"@.len() == 11);
    assert("simple-math"@.len() == 11);
}

} // verus!
