use oxis::curve::{curve_label, parse_interpolation, Interpolation};
use oxis::pricing::{
    parse_average, parse_barrier_type, parse_exercise, parse_lookback_strike, parse_option_type,
    AsianAverage, BarrierType, ExerciseStyle, LookbackStrike, OptionType,
};
use oxis::stats::{
    parse_es_method, parse_flavor, parse_var_method, OptimizeFlavor, RiskMethod, SampleKind,
};
use oxis::stochastic::{parse_process, ProcessKind};

#[test]
fn option_types_parse_case_insensitively() {
    assert_eq!(parse_option_type("CALL"), Some(OptionType::Call));
    assert_eq!(parse_option_type("c"), Some(OptionType::Call));
    assert_eq!(parse_option_type("Put"), Some(OptionType::Put));
    assert_eq!(parse_option_type("P"), Some(OptionType::Put));
    assert_eq!(parse_option_type("straddle"), None);
    assert_eq!(parse_option_type(""), None);
}

#[test]
fn exercise_styles_parse() {
    assert_eq!(parse_exercise("European"), Some(ExerciseStyle::European));
    assert_eq!(parse_exercise("euro"), Some(ExerciseStyle::European));
    assert_eq!(parse_exercise("A"), Some(ExerciseStyle::American));
    assert_eq!(parse_exercise("amer"), Some(ExerciseStyle::American));
    assert_eq!(parse_exercise("bermudan"), None);
}

#[test]
fn barrier_types_parse_with_underscores_and_abbreviations() {
    assert_eq!(parse_barrier_type("Down_In"), Some(BarrierType::DownIn));
    assert_eq!(parse_barrier_type("downout"), Some(BarrierType::DownOut));
    assert_eq!(parse_barrier_type("UI"), Some(BarrierType::UpIn));
    assert_eq!(parse_barrier_type("up-out"), Some(BarrierType::UpOut));
    assert_eq!(parse_barrier_type("sideways"), None);
}

#[test]
fn barrier_names_and_flags() {
    for (b, name, down, knock_in) in [
        (BarrierType::DownIn, "down-in", true, true),
        (BarrierType::DownOut, "down-out", true, false),
        (BarrierType::UpIn, "up-in", false, true),
        (BarrierType::UpOut, "up-out", false, false),
    ] {
        assert_eq!(b.as_str(), name);
        assert_eq!(b.is_down(), down);
        assert_eq!(b.is_in(), knock_in);
        assert_eq!(parse_barrier_type(b.as_str()), Some(b));
    }
}

#[test]
fn lookback_names_round_trip() {
    assert_eq!(LookbackStrike::Floating.as_str(), "floating");
    assert_eq!(LookbackStrike::Fixed.as_str(), "fixed");
    assert_eq!(parse_lookback_strike("Float"), Some(LookbackStrike::Floating));
    assert_eq!(parse_lookback_strike("FIXED"), Some(LookbackStrike::Fixed));
    assert_eq!(parse_lookback_strike("fix"), None);
}

#[test]
fn asian_averages_parse() {
    assert_eq!(parse_average("GEO"), Some(AsianAverage::Geometric));
    assert_eq!(parse_average("arithmetic"), Some(AsianAverage::Arithmetic));
    assert_eq!(parse_average("harmonic"), None);
}

#[test]
fn interpolation_names_round_trip() {
    for i in [Interpolation::Linear, Interpolation::LogLinear, Interpolation::NaturalCubic] {
        assert_eq!(parse_interpolation(i.as_str()), Some(i));
        assert_eq!(curve_label(Some(i)), i.as_str());
    }
    assert_eq!(Interpolation::LogLinear.as_str(), "log-linear");
    assert_eq!(parse_interpolation("Log_Linear"), Some(Interpolation::LogLinear));
    assert_eq!(parse_interpolation("cubic"), Some(Interpolation::NaturalCubic));
    assert_eq!(parse_interpolation("spline"), None);
    assert_eq!(curve_label(None), "flat");
}

#[test]
fn process_kinds_name_and_parse() {
    let all = [
        (ProcessKind::Gbm, "gbm", true),
        (ProcessKind::OrnsteinUhlenbeck, "ornstein-uhlenbeck", false),
        (ProcessKind::Vasicek, "vasicek", false),
        (ProcessKind::Cir, "cir", false),
        (ProcessKind::MertonJump, "merton-jump", true),
        (ProcessKind::Heston, "heston", true),
    ];
    for (k, name, positive) in all {
        assert_eq!(k.name(), name);
        assert_eq!(k.requires_positive_state(), positive);
        assert_eq!(parse_process(name), Some(k));
    }
    assert_eq!(parse_process("OU"), Some(ProcessKind::OrnsteinUhlenbeck));
    assert_eq!(parse_process("Merton"), Some(ProcessKind::MertonJump));
    assert_eq!(parse_process("sabr"), None);
}

#[test]
fn risk_methods_parse() {
    assert_eq!(parse_var_method("Hist"), Some(RiskMethod::Historical));
    assert_eq!(parse_var_method("gaussian"), Some(RiskMethod::Parametric));
    assert_eq!(parse_var_method("CF"), Some(RiskMethod::CornishFisher));
    assert_eq!(parse_es_method("cornish-fisher"), None);
    assert_eq!(parse_es_method("historical"), Some(RiskMethod::Historical));
    assert_eq!(parse_var_method("monte-carlo"), None);
}

#[test]
fn optimize_flavors_parse_exactly() {
    assert_eq!(parse_flavor("min-var"), Some(OptimizeFlavor::MinVariance));
    assert_eq!(parse_flavor("min-variance"), Some(OptimizeFlavor::MinVariance));
    assert_eq!(parse_flavor("tangency"), Some(OptimizeFlavor::Tangency));
    assert_eq!(parse_flavor("frontier"), Some(OptimizeFlavor::Frontier));
    assert_eq!(parse_flavor("Tangency"), None);
    assert_eq!(OptimizeFlavor::MinVariance.label(), "min-variance");
}

#[test]
fn sample_kind_gates_financial_metrics() {
    assert!(SampleKind::Returns.is_financial());
    assert!(!SampleKind::Values.is_financial());
}
