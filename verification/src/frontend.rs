//! Product facades holding a preferred render dialect.

use vstd::prelude::*;

use crate::dialect::Dialect;

verus! {

/// SXO dialect frontend: parse, form bridge and render wiring.
#[derive(Debug, Clone, Copy, PartialEq, Eq, Structural)]
pub struct SxoFrontend {
    /// Preferred render dialect when callers do not override.
    pub default_dialect: Dialect,
}

impl SxoFrontend {
    /// Frontend with the default dialect preference ([`Dialect::SimpleMath`]).
    pub fn new() -> (f: Self)
        ensures
            f.default_dialect == Dialect::SimpleMath,
    {
        SxoFrontend { default_dialect: Dialect::SimpleMath }
    }

    /// Frontend with an explicit default dialect.
    pub fn with_dialect(dialect: Dialect) -> (f: Self)
        ensures
            f.default_dialect == dialect,
    {
        SxoFrontend { default_dialect: dialect }
    }

    /// The dialect to use for `input`: always the explicit `dialect`, since
    /// dialects are never detected from source text.
    pub fn resolve_dialect(&self, input: &str, dialect: Dialect) -> (d: Dialect)
        ensures
            d == dialect,
    {
        dialect
    }
}

/// SXO engine: frontend parse, bridge forms, host-facing evaluate/render.
#[derive(Debug, Clone, Copy, PartialEq, Eq, Structural)]
pub struct SxoEngine {
    /// Preferred render dialect when callers do not override.
    pub default_dialect: Dialect,
}

impl SxoEngine {
    /// Engine with the default dialect preference ([`Dialect::SimpleMath`]).
    pub fn new() -> (e: Self)
        ensures
            e.default_dialect == Dialect::SimpleMath,
    {
        SxoEngine { default_dialect: Dialect::SimpleMath }
    }

    /// Engine with an explicit default dialect.
    pub fn with_dialect(dialect: Dialect) -> (e: Self)
        ensures
            e.default_dialect == dialect,
    {
        SxoEngine { default_dialect: dialect }
    }

    /// The dialect to use for `input`: always the explicit `dialect`, since
    /// dialects are never detected from source text.
    pub fn resolve_dialect(&self, input: &str, dialect: Dialect) -> (d: Dialect)
        ensures
            d == dialect,
    {
        dialect
    }
}

} // verus!
