use oxis::completion::{
    candidates_at, first_line, flag_candidates, resolve_command, subcommand_candidates, ArgSpec,
    CommandSpec,
};
use oxis::repl::{classify_line, command_overview, repl_argv, ReplAction};

fn arg(long: &str, help: &str) -> ArgSpec {
    ArgSpec { long: Some(long.to_string()), help: Some(help.to_string()) }
}

fn cmd(name: &str, about: &str, args: Vec<ArgSpec>, subcommands: Vec<CommandSpec>) -> CommandSpec {
    CommandSpec {
        name: name.to_string(),
        about: Some(about.to_string()),
        aliases: vec![],
        args,
        subcommands,
    }
}

fn option_flags() -> Vec<ArgSpec> {
    vec![
        arg("spot", "Spot price of the underlying."),
        arg("strike", "Strike price."),
        arg("rate", "Continuously compounded risk-free rate."),
        arg("vol", "Volatility (annualized)."),
        arg("t", "Time to expiry, in years."),
        arg("type", "Call or put."),
    ]
}

/// The `oxis` command tree, as the CLI declares it.
fn cli() -> CommandSpec {
    let ml_flags = |extra: Vec<ArgSpec>| {
        let mut v = vec![
            arg("spot", "Spot price of the underlying."),
            arg("strike", "Strike price."),
            arg("rate", "Continuously compounded risk-free rate."),
            arg("vol", "Volatility (annualized)."),
            arg("maturity", "Time to expiry, in years."),
            arg("type", "Call or put."),
        ];
        v.extend(extra);
        v
    };
    let ml = cmd(
        "ml",
        "Neural pricing: differential ML and neural American engines",
        vec![],
        vec![
            cmd("price", "Differential-ML European price + delta", ml_flags(vec![]), vec![]),
            cmd(
                "american",
                "American option via Deep LSM or Deep Optimal Stopping",
                ml_flags(vec![arg("method", "Which neural engine.\nDeep LSM or DOS.")]),
                vec![],
            ),
        ],
    );
    let root_globals = vec![
        arg("json", "Emit structured JSON"),
        arg("tsv", "Emit tab-separated values"),
        arg("quiet", "Suppress non-essential output"),
        arg("verbose", "Emit extra diagnostics to stderr"),
    ];
    cmd(
        "oxis",
        "Open eXtensible Instruments & Statistics",
        root_globals,
        vec![
            cmd("price", "Price an option", option_flags(), vec![]),
            cmd("greeks", "Option sensitivities", option_flags(), vec![]),
            cmd("implied-vol", "Implied volatility from a price", option_flags(), vec![]),
            cmd("exotic", "Barrier, lookback, or Asian option", option_flags(), vec![]),
            cmd("curve", "Yield curve queries", vec![arg("times", "Pillar times.")], vec![]),
            cmd("bond", "Fixed-rate bond analytics", vec![arg("coupon", "Coupon rate.")], vec![]),
            cmd("simulate", "Simulate a stochastic process", vec![arg("process", "Process.")], vec![]),
            cmd("stats", "Statistics and risk", vec![arg("returns", "Return series.")], vec![]),
            cmd("portfolio", "Portfolio analytics", vec![], vec![]),
            ml,
        ],
    )
}

/// Candidate strings for a line completed at its end.
fn complete(line: &str) -> Vec<String> {
    candidates_at(&cli(), line, line.len())
        .1
        .into_iter()
        .map(|c| c.value)
        .collect()
}

#[test]
fn first_word_offers_commands_and_builtins() {
    let cands = complete("");
    assert!(cands.contains(&"price".to_string()));
    assert!(cands.contains(&"ml".to_string()));
    assert!(cands.contains(&"quit".to_string()));
}

#[test]
fn first_word_is_prefix_filtered() {
    let cands = complete("pri");
    assert_eq!(cands, vec!["price".to_string()]);
}

#[test]
fn nested_subcommands_complete() {
    // `ml ` should offer its nested engines, not top-level commands.
    let cands = complete("ml ");
    assert!(cands.contains(&"american".to_string()));
    assert!(cands.contains(&"price".to_string()));
    assert!(!cands.contains(&"greeks".to_string()));
}

#[test]
fn nested_command_flags_complete() {
    let cands = complete("ml american --met");
    assert_eq!(cands, vec!["--method".to_string()]);
}

#[test]
fn flags_include_globals_at_any_depth() {
    let cands = complete("ml american --");
    assert!(cands.contains(&"--spot".to_string()));
    assert!(cands.contains(&"--json".to_string()));
}

#[test]
fn flag_values_do_not_derail_resolution() {
    // Tokens after a consumed flag value must not break tree descent.
    let cands = complete("ml american --spot 100 --meth");
    assert_eq!(cands, vec!["--method".to_string()]);
}

#[test]
fn first_word_candidates_are_sorted() {
    let cands = complete("");
    let mut sorted = cands.clone();
    sorted.sort();
    assert_eq!(cands, sorted);
    assert_eq!(cands.len(), 13);
    assert_eq!(cands[0], "bond");
}

#[test]
fn candidate_start_and_descriptions() {
    let (start, cands) = candidates_at(&cli(), "ml american --met", 17);
    assert_eq!(start, 12);
    assert_eq!(cands.len(), 1);
    assert_eq!(cands[0].description.as_deref(), Some("Which neural engine."));
    let (start, cands) = candidates_at(&cli(), "ml am", 2);
    assert_eq!(start, 0);
    assert_eq!(cands.iter().map(|c| c.value.as_str()).collect::<Vec<_>>(), vec!["ml"]);
}

#[test]
fn offsets_are_bytes_past_multibyte_text() {
    // "é" takes two bytes: the cursor after "--met" is at byte 20, character 19.
    let line = "ml american é --met";
    let (start, cands) = candidates_at(&cli(), line, line.len());
    assert_eq!(line.len(), 20);
    assert_eq!(start, 15);
    assert_eq!(cands.iter().map(|c| c.value.as_str()).collect::<Vec<_>>(), vec!["--method"]);
    // Mid-line cursor right after the multibyte word.
    let (start, cands) = candidates_at(&cli(), "ml é", 5);
    assert_eq!(start, 3);
    assert!(cands.is_empty());
}

#[test]
fn leaf_command_falls_back_to_flags() {
    let cands = complete("price ");
    assert!(cands.contains(&"--strike".to_string()));
    assert!(cands.contains(&"--verbose".to_string()));
}

#[test]
fn global_flags_are_not_duplicated() {
    let root = cli();
    let flags = flag_candidates(&root);
    let json = flags.iter().filter(|c| c.value == "--json").count();
    assert_eq!(json, 1);
    assert_eq!(flags.len(), 4);
}

#[test]
fn aliases_resolve_subcommands() {
    let mut root = cli();
    root.subcommands[9].aliases.push("neural".to_string());
    let path = vec!["neural".chars().collect::<Vec<char>>(), "american".chars().collect()];
    assert_eq!(resolve_command(&root, &path).name, "american");
    let flag_first = vec!["--json".chars().collect::<Vec<char>>(), "ml".chars().collect()];
    assert_eq!(resolve_command(&root, &flag_first).name, "ml");
    let unknown = vec!["nope".chars().collect::<Vec<char>>()];
    assert_eq!(resolve_command(&root, &unknown).name, "oxis");
}

#[test]
fn subcommand_descriptions_use_first_line() {
    let root = cmd("x", "", vec![], vec![cmd("a", "first\r\nsecond", vec![], vec![])]);
    let subs = subcommand_candidates(&root);
    assert_eq!(subs[0].description.as_deref(), Some("first"));
}

#[test]
fn first_line_matches_str_lines() {
    for s in ["", "one", "one\ntwo", "one\r\ntwo", "one\r", "\nx", "a\rb\nc"] {
        assert_eq!(first_line(s), s.lines().next().unwrap_or(""));
    }
}

#[test]
fn lines_are_classified() {
    assert!(matches!(classify_line("   "), ReplAction::Skip));
    assert!(matches!(classify_line(" quit "), ReplAction::Quit));
    assert!(matches!(classify_line("exit\n"), ReplAction::Quit));
    assert!(matches!(classify_line("\thelp"), ReplAction::Help));
    match classify_line("  price --spot 100  ") {
        ReplAction::Run(s) => assert_eq!(s, "price --spot 100"),
        _ => panic!("expected a command"),
    }
    match classify_line("quit now") {
        ReplAction::Run(s) => assert_eq!(s, "quit now"),
        _ => panic!("expected a command"),
    }
}

#[test]
fn repl_lines_become_argument_vectors() {
    assert_eq!(
        repl_argv("price --type 'call' --spot 100").unwrap(),
        vec!["oxis", "price", "--type", "call", "--spot", "100"]
    );
    assert_eq!(repl_argv("").unwrap(), vec!["oxis"]);
    assert!(repl_argv("price \"unbalanced").is_none());
}

#[test]
fn overview_lists_every_top_level_command() {
    let mut root = cli();
    root.subcommands[8].about = None;
    let rows = command_overview(&root);
    assert_eq!(rows.len(), 10);
    assert_eq!(rows[0], ("price".to_string(), "Price an option".to_string()));
    assert_eq!(rows[8], ("portfolio".to_string(), String::new()));
}
