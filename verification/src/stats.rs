//! Statistics request classification and risk-method selection.

use vstd::prelude::*;
use crate::text::{chars_equal, chars_of, fold, folded_equals, lemma_fold_idempotent};

verus! {

/// How a statistics request's primary sample is interpreted.
#[derive(Debug, Clone, Copy, PartialEq, Eq, Hash)]
pub enum SampleKind {
    /// A periodic-returns series: enables returns / risk / VaR metrics.
    Returns,
    /// A generic numeric sample: descriptive statistics only.
    Values,
}

impl SampleKind {
    /// Whether the financial (returns, risk, VaR) metrics apply to the sample.
    pub fn is_financial(self) -> (b: bool)
        ensures
            b == (self is Returns),
    {
        matches!(self, SampleKind::Returns)
    }
}

/// How a Value-at-Risk or Expected-Shortfall figure is estimated.
#[derive(Debug, Clone, Copy, PartialEq, Eq, Hash)]
pub enum RiskMethod {
    /// Empirical quantile of the sample.
    Historical,
    /// Gaussian quantile from the sample mean and deviation.
    Parametric,
    /// Gaussian quantile corrected for skewness and kurtosis.
    CornishFisher,
}

/// The Value-at-Risk method named by `s`, ignoring ASCII case.
pub open spec fn spec_parse_var_method(s: Seq<char>) -> Option<RiskMethod> {
    let f = fold(s, false);
    if f == "historical"@ || f == "hist"@ {
        Some(RiskMethod::Historical)
    } else if f == "parametric"@ || f == "gaussian"@ {
        Some(RiskMethod::Parametric)
    } else if f == "cornish-fisher"@ || f == "cf"@ {
        Some(RiskMethod::CornishFisher)
    } else {
        None
    }
}

/// The Expected-Shortfall method named by `s`, ignoring ASCII case (no
/// Cornish-Fisher variant).
pub open spec fn spec_parse_es_method(s: Seq<char>) -> Option<RiskMethod> {
    let f = fold(s, false);
    if f == "historical"@ || f == "hist"@ {
        Some(RiskMethod::Historical)
    } else if f == "parametric"@ || f == "gaussian"@ {
        Some(RiskMethod::Parametric)
    } else {
        None
    }
}

/// Parse a Value-at-Risk method (`historical`/`hist`, `parametric`/`gaussian`,
/// `cornish-fisher`/`cf`).
pub fn parse_var_method(s: &str) -> (r: Option<RiskMethod>)
    ensures
        r == spec_parse_var_method(s@),
{
    let v = chars_of(s);
    if folded_equals(&v, "historical", false) || folded_equals(&v, "hist", false) {
        Some(RiskMethod::Historical)
    } else if folded_equals(&v, "parametric", false) || folded_equals(&v, "gaussian", false) {
        Some(RiskMethod::Parametric)
    } else if folded_equals(&v, "cornish-fisher", false) || folded_equals(&v, "cf", false) {
        Some(RiskMethod::CornishFisher)
    } else {
        None
    }
}

/// Parse an Expected-Shortfall method (`historical`/`hist`, `parametric`/`gaussian`).
pub fn parse_es_method(s: &str) -> (r: Option<RiskMethod>)
    ensures
        r == spec_parse_es_method(s@),
{
    let v = chars_of(s);
    if folded_equals(&v, "historical", false) || folded_equals(&v, "hist", false) {
        Some(RiskMethod::Historical)
    } else if folded_equals(&v, "parametric", false) || folded_equals(&v, "gaussian", false) {
        Some(RiskMethod::Parametric)
    } else {
        None
    }
}

/// The risk-method names: `historical` and its abbreviation `hist` select
/// historical estimation, `parametric` and `gaussian` the Gaussian one,
/// `cornish-fisher` and `cf` the Cornish-Fisher one, in any ASCII case. Each
/// name of a method selects the same method as its synonym, and Expected
/// Shortfall reads every name it accepts as Value-at-Risk does; it accepts every
/// Value-at-Risk name except the Cornish-Fisher ones.
pub proof fn lemma_risk_method_names(s: Seq<char>)
    ensures
        fold(s, false) == "historical"@ || fold(s, false) == "hist"@ ==> spec_parse_var_method(s)
            == Some(RiskMethod::Historical),
        fold(s, false) == "parametric"@ || fold(s, false) == "gaussian"@ ==> spec_parse_var_method(
            s,
        ) == Some(RiskMethod::Parametric),
        fold(s, false) == "cornish-fisher"@ || fold(s, false) == "cf"@ ==> spec_parse_var_method(s)
            == Some(RiskMethod::CornishFisher),
        spec_parse_var_method("historical"@) == spec_parse_var_method("hist"@),
        spec_parse_var_method("parametric"@) == spec_parse_var_method("gaussian"@),
        spec_parse_var_method("cornish-fisher"@) == spec_parse_var_method("cf"@),
        spec_parse_es_method(s) is Some ==> spec_parse_var_method(s) == spec_parse_es_method(s),
        spec_parse_var_method(s) is Some ==> (spec_parse_es_method(s) is Some <==> spec_parse_var_method(
            s,
        ) != Some(RiskMethod::CornishFisher)),
        spec_parse_var_method(fold(s, false)) == spec_parse_var_method(s),
{
    reveal_strlit("historical");
    reveal_strlit("hist");
    reveal_strlit("parametric");
    reveal_strlit("gaussian");
    reveal_strlit("cornish-fisher");
    reveal_strlit("cf");
    assert(fold("historical"@, false) =~= "historical"@);
    assert(fold("hist"@, false) =~= "hist"@);
    assert(fold("parametric"@, false) =~= "parametric"@);
    assert(fold("gaussian"@, false) =~= "gaussian"@);
    assert(fold("cornish-fisher"@, false) =~= "cornish-fisher"@);
    assert(fold("cf"@, false) =~= "cf"@);
    assert("parametric"@[0] != "historical"@[0]);
    assert("parametric"@ != "historical"@);
    lemma_fold_idempotent(s, false);
}

/// Which mean-variance portfolio an optimization reports.
#[derive(Debug, Clone, Copy, PartialEq, Eq, Hash)]
pub enum OptimizeFlavor {
    /// The global minimum-variance portfolio.
    MinVariance,
    /// The maximum-Sharpe (tangency) portfolio.
    Tangency,
    /// The frontier portfolio for a target return.
    Frontier,
}

/// The flavor named by `s` (exact spelling; `min-var` abbreviates `min-variance`).
pub open spec fn spec_parse_flavor(s: Seq<char>) -> Option<OptimizeFlavor> {
    if s == "min-variance"@ || s == "min-var"@ {
        Some(OptimizeFlavor::MinVariance)
    } else if s == "tangency"@ {
        Some(OptimizeFlavor::Tangency)
    } else if s == "frontier"@ {
        Some(OptimizeFlavor::Frontier)
    } else {
        None
    }
}

/// The canonical label an optimization report carries for its flavor.
pub open spec fn flavor_label(f: OptimizeFlavor) -> Seq<char> {
    match f {
        OptimizeFlavor::MinVariance => "min-variance"@,
        OptimizeFlavor::Tangency => "tangency"@,
        OptimizeFlavor::Frontier => "frontier"@,
    }
}

/// Parse an optimization flavor: `min-variance` (or `min-var`), `tangency`, `frontier`.
pub fn parse_flavor(s: &str) -> (r: Option<OptimizeFlavor>)
    ensures
        r == spec_parse_flavor(s@),
{
    let v = chars_of(s);
    if chars_equal(&v, "min-variance") || chars_equal(&v, "min-var") {
        Some(OptimizeFlavor::MinVariance)
    } else if chars_equal(&v, "tangency") {
        Some(OptimizeFlavor::Tangency)
    } else if chars_equal(&v, "frontier") {
        Some(OptimizeFlavor::Frontier)
    } else {
        None
    }
}

impl OptimizeFlavor {
    /// The canonical label of the flavor.
    pub fn label(self) -> (s: &'static str)
        ensures
            s@ == flavor_label(self),
    {
        match self {
            OptimizeFlavor::MinVariance => "min-variance",
            OptimizeFlavor::Tangency => "tangency",
            OptimizeFlavor::Frontier => "frontier",
        }
    }
}

/// Every flavor's label parses back to that flavor, and `min-var` abbreviates
/// `min-variance`.
pub proof fn lemma_flavor_label_round_trip(f: OptimizeFlavor)
    ensures
        spec_parse_flavor(flavor_label(f)) == Some(f),
        spec_parse_flavor("min-var"@) == Some(OptimizeFlavor::MinVariance),
{
    reveal_strlit("min-variance");
    reveal_strlit("min-var");
    reveal_strlit("tangency");
    reveal_strlit("frontier");
    assert("tangency"@[0] != "frontier"@[0]);
}

} // verus!
