//! Span solver selection and the errors of the sag-tension core.
//!
//! The solvers themselves (exact inclined catenary, parabolic approximation,
//! change of state) are floating-point numerics and live with the application;
//! this module holds the method choice they are driven by and the error values
//! they report.
use vstd::prelude::*;
use crate::text::{debug_quote, debug_str, str_eq, string_of};

verus! {

/// Which solver to use for a span.
#[derive(Clone, Copy, Debug, PartialEq, Eq, Structural)]
pub enum Method {
    /// Pick catenary or parabola by the regime rule.
    Auto,
    /// Force the exact inclined catenary.
    Catenary,
    /// Force the parabolic approximation.
    Parabola,
}

/// Errors of the sag-tension core.
#[derive(Debug, PartialEq, Eq)]
pub enum CoreError {
    /// The horizontal span is not positive.
    NonPositiveSpan,
    /// The load per unit length or the horizontal tension is not positive.
    NonPositiveLoadOrTension,
    /// A method name other than `auto`, `catenary` or `parabola`.
    UnknownMethod(String),
    /// The change-of-state residual has the same sign at both ends of its bracket.
    RootNotBracketed,
}

/// The CLI-facing (lower-case) name of each method.
pub open spec fn method_name(m: Method) -> Seq<char> {
    match m {
        Method::Auto => "auto"@,
        Method::Catenary => "catenary"@,
        Method::Parabola => "parabola"@,
    }
}

/// The method a name stands for, if any.
pub open spec fn method_named(name: Seq<char>) -> Option<Method> {
    if name == "auto"@ {
        Some(Method::Auto)
    } else if name == "catenary"@ {
        Some(Method::Catenary)
    } else if name == "parabola"@ {
        Some(Method::Parabola)
    } else {
        None
    }
}

impl Method {
    /// Parse a CLI-style method name (`"auto"`, `"catenary"`, `"parabola"`);
    /// any other name is an [`CoreError::UnknownMethod`] carrying that name.
    pub fn parse(name: &str) -> (r: Result<Method, CoreError>)
        ensures
            method_named(name@) matches Some(m) ==> r == Ok::<Method, CoreError>(m),
            method_named(name@) is None ==> (r matches Err(CoreError::UnknownMethod(s)) && s@ == name@),
    {
        if str_eq(name, "auto") {
            Ok(Method::Auto)
        } else if str_eq(name, "catenary") {
            Ok(Method::Catenary)
        } else if str_eq(name, "parabola") {
            Ok(Method::Parabola)
        } else {
            Err(CoreError::UnknownMethod(string_of(name)))
        }
    }

    /// Lower-case name of the method.
    pub fn as_str(self) -> (r: &'static str)
        ensures
            r@ == method_name(self),
    {
        match self {
            Method::Auto => "auto",
            Method::Catenary => "catenary",
            Method::Parabola => "parabola",
        }
    }
}

/// Parsing the name of a method gives back that method: `Method::parse` inverts
/// `Method::as_str`.
pub proof fn law_method_name_round_trip(m: Method)
    ensures
        method_named(method_name(m)) == Some(m),
{
    reveal_strlit("auto");
    reveal_strlit("catenary");
    reveal_strlit("parabola");
    assert("catenary"@[0] != "parabola"@[0]);
    assert("auto"@.len() != "catenary"@.len());
    assert("auto"@.len() != "parabola"@.len());
}

/// The text reported for an unknown method name.
pub open spec fn unknown_method_text(name: Seq<char>) -> Seq<char> {
    "unknown method "@ + debug_str(name) + "; expected auto, catenary or parabola"@
}

/// The human-readable text of an error.
pub open spec fn core_error_text(e: CoreError) -> Seq<char> {
    match e {
        CoreError::NonPositiveSpan => "span must be positive"@,
        CoreError::NonPositiveLoadOrTension => "load per unit length and horizontal tension must be positive"@,
        CoreError::UnknownMethod(name) => unknown_method_text(name@),
        CoreError::RootNotBracketed => "change of state: no root between the slack limit and the rated strength"@,
    }
}

impl CoreError {
    /// The human-readable text of the error (what the CLI prints).
    pub fn message(&self) -> (r: String)
        ensures
            r@ == core_error_text(*self),
    {
        match self {
            CoreError::NonPositiveSpan => string_of("span must be positive"),
            CoreError::NonPositiveLoadOrTension => string_of(
                "load per unit length and horizontal tension must be positive",
            ),
            CoreError::UnknownMethod(name) => {
                let mut s = string_of("unknown method ");
                let q = debug_quote(name.as_str());
                s.append(q.as_str());
                s.append("; expected auto, catenary or parabola");
                s
            },
            CoreError::RootNotBracketed => string_of(
                "change of state: no root between the slack limit and the rated strength",
            ),
        }
    }
}

} // verus!
