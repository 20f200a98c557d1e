//! Option and exotic-option identifiers, their stable names, and the
//! case-insensitive parsers that map user text onto them.

use vstd::prelude::*;
use crate::text::{chars_of, fold, folded_equals, lemma_fold_idempotent};

verus! {

/// Call or put.
#[derive(Debug, Clone, Copy, PartialEq, Eq, Hash)]
pub enum OptionType {
    /// The right to buy at the strike.
    Call,
    /// The right to sell at the strike.
    Put,
}

/// When an option may be exercised.
#[derive(Debug, Clone, Copy, PartialEq, Eq, Hash)]
pub enum ExerciseStyle {
    /// Only at expiry.
    European,
    /// At any time up to expiry.
    American,
}

/// Which barrier, by direction and knock sense.
#[derive(Debug, Clone, Copy, PartialEq, Eq, Hash)]
pub enum BarrierType {
    /// Knocked **in** if the spot falls to the (lower) barrier.
    DownIn,
    /// Knocked **out** if the spot falls to the (lower) barrier.
    DownOut,
    /// Knocked **in** if the spot rises to the (upper) barrier.
    UpIn,
    /// Knocked **out** if the spot rises to the (upper) barrier.
    UpOut,
}

/// Whether a lookback's strike floats with the realized extremum or is fixed.
#[derive(Debug, Clone, Copy, PartialEq, Eq, Hash)]
pub enum LookbackStrike {
    /// Floating strike: payoff measured against the realized min/max.
    Floating,
    /// Fixed strike `K`: payoff is `max(extremum - K, 0)` style.
    Fixed,
}

/// The stable name of a barrier type.
pub open spec fn barrier_name(b: BarrierType) -> Seq<char> {
    match b {
        BarrierType::DownIn => "down-in"@,
        BarrierType::DownOut => "down-out"@,
        BarrierType::UpIn => "up-in"@,
        BarrierType::UpOut => "up-out"@,
    }
}

/// Whether a barrier sits below the spot (a down barrier).
pub open spec fn barrier_is_down(b: BarrierType) -> bool {
    b is DownIn || b is DownOut
}

/// Whether touching the barrier activates (rather than cancels) the option.
pub open spec fn barrier_is_in(b: BarrierType) -> bool {
    b is DownIn || b is UpIn
}

impl BarrierType {
    /// A short, stable identifier for output / the CLI.
    pub fn as_str(self) -> (s: &'static str)
        ensures
            s@ == barrier_name(self),
    {
        match self {
            BarrierType::DownIn => "down-in",
            BarrierType::DownOut => "down-out",
            BarrierType::UpIn => "up-in",
            BarrierType::UpOut => "up-out",
        }
    }

    /// Whether the barrier is below the spot.
    pub fn is_down(self) -> (b: bool)
        ensures
            b == barrier_is_down(self),
    {
        matches!(self, BarrierType::DownIn | BarrierType::DownOut)
    }

    /// Whether the option is knocked in (rather than out) at the barrier.
    pub fn is_in(self) -> (b: bool)
        ensures
            b == barrier_is_in(self),
    {
        matches!(self, BarrierType::DownIn | BarrierType::UpIn)
    }
}

/// The stable name of a lookback strike convention.
pub open spec fn lookback_name(l: LookbackStrike) -> Seq<char> {
    match l {
        LookbackStrike::Floating => "floating"@,
        LookbackStrike::Fixed => "fixed"@,
    }
}

impl LookbackStrike {
    /// A short, stable identifier for output / the CLI.
    pub fn as_str(self) -> (s: &'static str)
        ensures
            s@ == lookback_name(self),
    {
        match self {
            LookbackStrike::Floating => "floating",
            LookbackStrike::Fixed => "fixed",
        }
    }
}

/// The option type named by `s`: `call`/`c` or `put`/`p`, ignoring ASCII case.
pub open spec fn spec_parse_option_type(s: Seq<char>) -> Option<OptionType> {
    let f = fold(s, false);
    if f == "call"@ || f == "c"@ {
        Some(OptionType::Call)
    } else if f == "put"@ || f == "p"@ {
        Some(OptionType::Put)
    } else {
        None
    }
}

/// Parse `"call"`/`"put"` (case-insensitive, or `c`/`p`) into an option type.
pub fn parse_option_type(s: &str) -> (r: Option<OptionType>)
    ensures
        r == spec_parse_option_type(s@),
{
    let v = chars_of(s);
    if folded_equals(&v, "call", false) || folded_equals(&v, "c", false) {
        Some(OptionType::Call)
    } else if folded_equals(&v, "put", false) || folded_equals(&v, "p", false) {
        Some(OptionType::Put)
    } else {
        None
    }
}

/// The exercise style named by `s`, ignoring ASCII case.
pub open spec fn spec_parse_exercise(s: Seq<char>) -> Option<ExerciseStyle> {
    let f = fold(s, false);
    if f == "european"@ || f == "euro"@ || f == "e"@ {
        Some(ExerciseStyle::European)
    } else if f == "american"@ || f == "amer"@ || f == "a"@ {
        Some(ExerciseStyle::American)
    } else {
        None
    }
}

/// Parse `"european"`/`"american"` (case-insensitive; `euro`/`e`, `amer`/`a`).
pub fn parse_exercise(s: &str) -> (r: Option<ExerciseStyle>)
    ensures
        r == spec_parse_exercise(s@),
{
    let v = chars_of(s);
    if folded_equals(&v, "european", false) || folded_equals(&v, "euro", false) || folded_equals(
        &v,
        "e",
        false,
    ) {
        Some(ExerciseStyle::European)
    } else if folded_equals(&v, "american", false) || folded_equals(&v, "amer", false)
        || folded_equals(&v, "a", false) {
        Some(ExerciseStyle::American)
    } else {
        None
    }
}

/// The barrier type named by `s`, ignoring ASCII case and treating `_` as `-`.
pub open spec fn spec_parse_barrier_type(s: Seq<char>) -> Option<BarrierType> {
    let f = fold(s, true);
    if f == "down-in"@ || f == "downin"@ || f == "di"@ {
        Some(BarrierType::DownIn)
    } else if f == "down-out"@ || f == "downout"@ || f == "do"@ {
        Some(BarrierType::DownOut)
    } else if f == "up-in"@ || f == "upin"@ || f == "ui"@ {
        Some(BarrierType::UpIn)
    } else if f == "up-out"@ || f == "upout"@ || f == "uo"@ {
        Some(BarrierType::UpOut)
    } else {
        None
    }
}

/// Parse a barrier type (`down-in`, `downin`, `di`, ...; case- and `_`/`-`-insensitive).
pub fn parse_barrier_type(s: &str) -> (r: Option<BarrierType>)
    ensures
        r == spec_parse_barrier_type(s@),
{
    let v = chars_of(s);
    if folded_equals(&v, "down-in", true) || folded_equals(&v, "downin", true) || folded_equals(
        &v,
        "di",
        true,
    ) {
        Some(BarrierType::DownIn)
    } else if folded_equals(&v, "down-out", true) || folded_equals(&v, "downout", true)
        || folded_equals(&v, "do", true) {
        Some(BarrierType::DownOut)
    } else if folded_equals(&v, "up-in", true) || folded_equals(&v, "upin", true)
        || folded_equals(&v, "ui", true) {
        Some(BarrierType::UpIn)
    } else if folded_equals(&v, "up-out", true) || folded_equals(&v, "upout", true)
        || folded_equals(&v, "uo", true) {
        Some(BarrierType::UpOut)
    } else {
        None
    }
}

/// Every barrier type's stable name parses back to that barrier type.
pub proof fn lemma_barrier_name_round_trip(b: BarrierType)
    ensures
        spec_parse_barrier_type(barrier_name(b)) == Some(b),
{
    reveal_strlit("down-in");
    reveal_strlit("downin");
    reveal_strlit("di");
    reveal_strlit("down-out");
    reveal_strlit("downout");
    reveal_strlit("do");
    reveal_strlit("up-in");
    reveal_strlit("upin");
    reveal_strlit("ui");
    reveal_strlit("up-out");
    reveal_strlit("upout");
    reveal_strlit("uo");
    let n = barrier_name(b);
    assert(fold(n, true) =~= n);
    assert(n.len() == barrier_name(b).len());
    match b {
        BarrierType::DownIn => {
            assert(n.len() == 7);
        },
        BarrierType::DownOut => {
            assert(n.len() == 8);
            assert(n != "down-in"@);
            assert(n[4] != "downin"@[4]);
            assert(n != "downin"@);
        },
        BarrierType::UpIn => {
            assert(n.len() == 5);
            assert(n[0] != "down-in"@[0]);
            assert(n[0] != "downin"@[0]);
            assert(n[0] != "down-out"@[0]);
            assert(n[0] != "downout"@[0]);
            assert(n != "down-in"@);
            assert(n != "downin"@);
            assert(n != "down-out"@);
            assert(n != "downout"@);
        },
        BarrierType::UpOut => {
            assert(n.len() == 6);
            assert(n[0] != "downin"@[0]);
            assert(n[0] != "down-out"@[0]);
            assert(n[0] != "downout"@[0]);
            assert(n[3] != "up-in"@[3]);
            assert(n != "down-in"@);
            assert(n != "downin"@);
            assert(n != "down-out"@);
            assert(n != "downout"@);
            assert(n != "up-in"@);
            assert(n[2] != "upin"@[2]);
            assert(n != "upin"@);
        },
    }
}

/// A barrier's names follow the barrier: its direction (`down`/`up`,
/// abbreviated `d`/`u`) then its knock kind (`in`/`out`, abbreviated `i`/`o`).
/// The two-letter abbreviation, the joined words and the words joined by `-` or
/// `_` all parse to that barrier, and its stable name is the `-` form.
pub proof fn lemma_barrier_names_follow_kind(b: BarrierType)
    ensures
        ({
            let dir = if barrier_is_down(b) {
                "down"@
            } else {
                "up"@
            };
            let knock = if barrier_is_in(b) {
                "in"@
            } else {
                "out"@
            };
            &&& spec_parse_barrier_type(seq![dir[0], knock[0]]) == Some(b)
            &&& spec_parse_barrier_type(dir + knock) == Some(b)
            &&& spec_parse_barrier_type(dir + "-"@ + knock) == Some(b)
            &&& spec_parse_barrier_type(dir + "_"@ + knock) == Some(b)
            &&& barrier_name(b) == dir + "-"@ + knock
        }),
{
    reveal_strlit("down");
    reveal_strlit("up");
    reveal_strlit("in");
    reveal_strlit("out");
    reveal_strlit("-");
    reveal_strlit("_");
    reveal_strlit("down-in");
    reveal_strlit("downin");
    reveal_strlit("di");
    reveal_strlit("down-out");
    reveal_strlit("downout");
    reveal_strlit("do");
    reveal_strlit("up-in");
    reveal_strlit("upin");
    reveal_strlit("ui");
    reveal_strlit("up-out");
    reveal_strlit("upout");
    reveal_strlit("uo");
    let dir = if barrier_is_down(b) {
        "down"@
    } else {
        "up"@
    };
    let knock = if barrier_is_in(b) {
        "in"@
    } else {
        "out"@
    };
    let abbr = seq![dir[0], knock[0]];
    let joined = dir + knock;
    let dashed = dir + "-"@ + knock;
    let under = dir + "_"@ + knock;
    assert(fold(abbr, true) =~= abbr);
    assert(fold(joined, true) =~= joined);
    assert(fold(dashed, true) =~= dashed);
    assert(fold(under, true) =~= dashed);
    match b {
        BarrierType::DownIn => {
            assert(abbr =~= "di"@);
            assert(joined =~= "downin"@);
            assert(dashed =~= "down-in"@);
        },
        BarrierType::DownOut => {
            assert(abbr =~= "do"@);
            assert(joined =~= "downout"@);
            assert(dashed =~= "down-out"@);
            assert(abbr[1] != "di"@[1]);
            assert(joined[4] != "downin"@[4]);
            assert(dashed[5] != "down-in"@[5]);
        },
        BarrierType::UpIn => {
            assert(abbr =~= "ui"@);
            assert(joined =~= "upin"@);
            assert(dashed =~= "up-in"@);
            assert(abbr[0] != "di"@[0]);
            assert(abbr[0] != "do"@[0]);
            assert(joined[0] != "downin"@[0]);
            assert(joined[0] != "downout"@[0]);
            assert(dashed[0] != "down-in"@[0]);
            assert(dashed[0] != "down-out"@[0]);
        },
        BarrierType::UpOut => {
            assert(abbr =~= "uo"@);
            assert(joined =~= "upout"@);
            assert(dashed =~= "up-out"@);
            assert(abbr[0] != "di"@[0]);
            assert(abbr[0] != "do"@[0]);
            assert(abbr[1] != "ui"@[1]);
            assert(joined[0] != "downin"@[0]);
            assert(joined[0] != "downout"@[0]);
            assert(joined[2] != "upin"@[2]);
            assert(dashed[0] != "down-in"@[0]);
            assert(dashed[0] != "down-out"@[0]);
            assert(dashed[3] != "up-in"@[3]);
        },
    }
}

/// The lookback strike convention named by `s`, ignoring ASCII case.
pub open spec fn spec_parse_lookback_strike(s: Seq<char>) -> Option<LookbackStrike> {
    let f = fold(s, false);
    if f == "floating"@ || f == "float"@ {
        Some(LookbackStrike::Floating)
    } else if f == "fixed"@ {
        Some(LookbackStrike::Fixed)
    } else {
        None
    }
}

/// Parse a lookback strike convention (`floating`/`float` or `fixed`, case-insensitive).
pub fn parse_lookback_strike(s: &str) -> (r: Option<LookbackStrike>)
    ensures
        r == spec_parse_lookback_strike(s@),
{
    let v = chars_of(s);
    if folded_equals(&v, "floating", false) || folded_equals(&v, "float", false) {
        Some(LookbackStrike::Floating)
    } else if folded_equals(&v, "fixed", false) {
        Some(LookbackStrike::Fixed)
    } else {
        None
    }
}

/// How an Asian option averages its fixings.
#[derive(Debug, Clone, Copy, PartialEq, Eq, Hash)]
pub enum AsianAverage {
    /// Geometric average (closed form).
    Geometric,
    /// Arithmetic average (Monte Carlo).
    Arithmetic,
}

/// The averaging convention named by `s`, ignoring ASCII case.
pub open spec fn spec_parse_average(s: Seq<char>) -> Option<AsianAverage> {
    let f = fold(s, false);
    if f == "geometric"@ || f == "geo"@ {
        Some(AsianAverage::Geometric)
    } else if f == "arithmetic"@ || f == "arith"@ {
        Some(AsianAverage::Arithmetic)
    } else {
        None
    }
}

/// Parse an Asian averaging convention (`geometric`/`geo`, `arithmetic`/`arith`).
pub fn parse_average(s: &str) -> (r: Option<AsianAverage>)
    ensures
        r == spec_parse_average(s@),
{
    let v = chars_of(s);
    if folded_equals(&v, "geometric", false) || folded_equals(&v, "geo", false) {
        Some(AsianAverage::Geometric)
    } else if folded_equals(&v, "arithmetic", false) || folded_equals(&v, "arith", false) {
        Some(AsianAverage::Arithmetic)
    } else {
        None
    }
}

/// Every lookback convention's stable name parses back to that convention.
pub proof fn lemma_lookback_name_round_trip(l: LookbackStrike)
    ensures
        spec_parse_lookback_strike(lookback_name(l)) == Some(l),
{
    reveal_strlit("floating");
    reveal_strlit("float");
    reveal_strlit("fixed");
    let n = lookback_name(l);
    assert(fold(n, false) =~= n);
    if l is Fixed {
        assert(n.len() != "floating"@.len());
        assert(n[1] != "float"@[1]);
    }
}

/// Option types are named `call` (or `c`) and `put` (or `p`), in any ASCII
/// case.
pub proof fn lemma_option_type_names(s: Seq<char>)
    ensures
        fold(s, false) == "call"@ || fold(s, false) == "c"@ ==> spec_parse_option_type(s) == Some(OptionType::Call),
        fold(s, false) == "put"@ || fold(s, false) == "p"@ ==> spec_parse_option_type(s) == Some(OptionType::Put),
        spec_parse_option_type(fold(s, false)) == spec_parse_option_type(s),
{
    reveal_strlit("call");
    reveal_strlit("c");
    reveal_strlit("put");
    reveal_strlit("p");
    assert("c"@[0] != "p"@[0]);
    lemma_fold_idempotent(s, false);
}

/// Exercise styles are named `european` (or `euro`, `e`) and `american` (or
/// `amer`, `a`), in any ASCII case.
pub proof fn lemma_exercise_names(s: Seq<char>)
    ensures
        fold(s, false) == "european"@ || fold(s, false) == "euro"@ || fold(s, false) == "e"@ ==> spec_parse_exercise(s) == Some(ExerciseStyle::European),
        fold(s, false) == "american"@ || fold(s, false) == "amer"@ || fold(s, false) == "a"@ ==> spec_parse_exercise(s) == Some(ExerciseStyle::American),
        spec_parse_exercise(fold(s, false)) == spec_parse_exercise(s),
{
    reveal_strlit("european");
    reveal_strlit("euro");
    reveal_strlit("e");
    reveal_strlit("american");
    reveal_strlit("amer");
    reveal_strlit("a");
    assert("european"@[0] != "american"@[0]);
    assert("euro"@[0] != "amer"@[0]);
    assert("e"@[0] != "a"@[0]);
    lemma_fold_idempotent(s, false);
}

/// Asian averages are named `geometric` (or `geo`) and `arithmetic` (or
/// `arith`), in any ASCII case.
pub proof fn lemma_average_names(s: Seq<char>)
    ensures
        fold(s, false) == "geometric"@ || fold(s, false) == "geo"@ ==> spec_parse_average(s) == Some(AsianAverage::Geometric),
        fold(s, false) == "arithmetic"@ || fold(s, false) == "arith"@ ==> spec_parse_average(s) == Some(AsianAverage::Arithmetic),
        spec_parse_average(fold(s, false)) == spec_parse_average(s),
{
    reveal_strlit("geometric");
    reveal_strlit("geo");
    reveal_strlit("arithmetic");
    reveal_strlit("arith");
    lemma_fold_idempotent(s, false);
}

/// Lookback strikes are named `floating` (or `float`) and `fixed`, in any ASCII
/// case.
pub proof fn lemma_lookback_names(s: Seq<char>)
    ensures
        fold(s, false) == "floating"@ || fold(s, false) == "float"@ ==> spec_parse_lookback_strike(s) == Some(LookbackStrike::Floating),
        fold(s, false) == "fixed"@ ==> spec_parse_lookback_strike(s) == Some(LookbackStrike::Fixed),
        spec_parse_lookback_strike(fold(s, false)) == spec_parse_lookback_strike(s),
{
    reveal_strlit("floating");
    reveal_strlit("float");
    reveal_strlit("fixed");
    assert("float"@[1] != "fixed"@[1]);
    lemma_fold_idempotent(s, false);
}

} // verus!
