//! Yield-curve interpolation schemes, their names, and their parser.

use vstd::prelude::*;
use crate::text::{chars_of, fold, folded_equals, lemma_fold_idempotent};

verus! {

/// How a curve interpolates between its pillar points.
#[derive(Debug, Clone, Copy, PartialEq, Eq, Hash)]
pub enum Interpolation {
    /// Linear in zero rates.
    Linear,
    /// Linear in log discount factors (piecewise-constant instantaneous forwards).
    LogLinear,
    /// Natural cubic spline in zero rates.
    NaturalCubic,
}

/// The canonical lowercase name of an interpolation scheme.
pub open spec fn interpolation_name(i: Interpolation) -> Seq<char> {
    match i {
        Interpolation::Linear => "linear"@,
        Interpolation::LogLinear => "log-linear"@,
        Interpolation::NaturalCubic => "natural-cubic"@,
    }
}

impl Interpolation {
    /// The canonical lowercase name, used in rendered output.
    pub fn as_str(self) -> (s: &'static str)
        ensures
            s@ == interpolation_name(self),
    {
        match self {
            Interpolation::Linear => "linear",
            Interpolation::LogLinear => "log-linear",
            Interpolation::NaturalCubic => "natural-cubic",
        }
    }
}

/// The label a curve reports for its construction: `"flat"` for a flat curve
/// (`None`), otherwise the interpolation scheme's name.
pub open spec fn curve_label_view(interp: Option<Interpolation>) -> Seq<char> {
    match interp {
        None => "flat"@,
        Some(i) => interpolation_name(i),
    }
}

/// The construction label of a curve that is flat (`None`) or interpolated with
/// the given scheme.
pub fn curve_label(interp: Option<Interpolation>) -> (s: &'static str)
    ensures
        s@ == curve_label_view(interp),
{
    match interp {
        None => "flat",
        Some(i) => i.as_str(),
    }
}

/// The interpolation scheme named by `s`, ignoring ASCII case.
pub open spec fn spec_parse_interpolation(s: Seq<char>) -> Option<Interpolation> {
    let f = fold(s, false);
    if f == "linear"@ {
        Some(Interpolation::Linear)
    } else if f == "log-linear"@ || f == "loglinear"@ || f == "log_linear"@ {
        Some(Interpolation::LogLinear)
    } else if f == "natural-cubic"@ || f == "naturalcubic"@ || f == "natural_cubic"@ || f
        == "cubic"@ {
        Some(Interpolation::NaturalCubic)
    } else {
        None
    }
}

/// Parse a curve interpolation name (case-insensitive; `log-linear`,
/// `loglinear`, `log_linear`, `natural-cubic`, ..., `cubic`).
pub fn parse_interpolation(s: &str) -> (r: Option<Interpolation>)
    ensures
        r == spec_parse_interpolation(s@),
{
    let v = chars_of(s);
    if folded_equals(&v, "linear", false) {
        Some(Interpolation::Linear)
    } else if folded_equals(&v, "log-linear", false) || folded_equals(&v, "loglinear", false)
        || folded_equals(&v, "log_linear", false) {
        Some(Interpolation::LogLinear)
    } else if folded_equals(&v, "natural-cubic", false) || folded_equals(
        &v,
        "naturalcubic",
        false,
    ) || folded_equals(&v, "natural_cubic", false) || folded_equals(&v, "cubic", false) {
        Some(Interpolation::NaturalCubic)
    } else {
        None
    }
}

/// Every scheme's canonical name parses back to that scheme.
pub proof fn lemma_interpolation_name_round_trip(i: Interpolation)
    ensures
        spec_parse_interpolation(interpolation_name(i)) == Some(i),
{
    reveal_strlit("linear");
    reveal_strlit("log-linear");
    reveal_strlit("natural-cubic");
    let n = interpolation_name(i);
    assert(fold(n, false) =~= n);
    match i {
        Interpolation::Linear => {},
        Interpolation::LogLinear => {
            assert(n.len() != "linear"@.len());
        },
        Interpolation::NaturalCubic => {
            reveal_strlit("loglinear");
            reveal_strlit("log_linear");
            assert(n.len() != "linear"@.len());
            assert(n.len() != "log-linear"@.len());
            assert(n.len() != "loglinear"@.len());
            assert(n.len() != "log_linear"@.len());
        },
    }
}

/// Interpolation schemes are named `linear`, `log-linear` (or `loglinear`,
/// `log_linear`) and `natural-cubic` (or `naturalcubic`, `natural_cubic`,
/// `cubic`), in any ASCII case.
pub proof fn lemma_interpolation_names(s: Seq<char>)
    ensures
        fold(s, false) == "linear"@ ==> spec_parse_interpolation(s) == Some(Interpolation::Linear),
        fold(s, false) == "log-linear"@ || fold(s, false) == "loglinear"@ || fold(s, false) == "log_linear"@ ==> spec_parse_interpolation(s) == Some(Interpolation::LogLinear),
        fold(s, false) == "natural-cubic"@ || fold(s, false) == "naturalcubic"@ || fold(s, false) == "natural_cubic"@ || fold(s, false) == "cubic"@ ==> spec_parse_interpolation(s) == Some(Interpolation::NaturalCubic),
        spec_parse_interpolation(fold(s, false)) == spec_parse_interpolation(s),
{
    reveal_strlit("linear");
    reveal_strlit("log-linear");
    reveal_strlit("loglinear");
    reveal_strlit("log_linear");
    reveal_strlit("natural-cubic");
    reveal_strlit("naturalcubic");
    reveal_strlit("natural_cubic");
    reveal_strlit("cubic");
    lemma_fold_idempotent(s, false);
}

} // verus!
