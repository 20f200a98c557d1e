//! Tab completion for the interactive REPL.
//!
//! Completion walks the command tree at the cursor: top-level commands and REPL
//! builtins for the first word, a command's nested subcommands next, and its
//! long flags (plus the global flags) after that. The tree is handed in as plain
//! values ([`CommandSpec`]), so the candidates always track the real parser.
//! The cursor and the word start are byte offsets into the line, as the line
//! editor reports them; the spec functions below index characters, and
//! `utf8_prefix_len` links the two.

use vstd::prelude::*;
use vstd::string::*;
use crate::text::{
    chars_equal, chars_of, char_index_at, is_unicode_whitespace, is_whitespace,
    lemma_char_boundary_index, lemma_utf8_prefix_step, lemma_utf8_prefix_strict, utf8_prefix_len,
    utf8_width,
};
use vstd::utf8::*;

verus! {

/// One argument of a command: its long flag name (without `--`) and help text.
pub struct ArgSpec {
    /// The long flag name, if the argument has one.
    pub long: Option<String>,
    /// The help text, if any.
    pub help: Option<String>,
}

/// A command of the CLI tree: its name, one-line description, aliases,
/// arguments and nested subcommands.
pub struct CommandSpec {
    /// The name the command is invoked by.
    pub name: String,
    /// The description shown in listings, if any.
    pub about: Option<String>,
    /// Other names the command answers to.
    pub aliases: Vec<String>,
    /// The command's arguments.
    pub args: Vec<ArgSpec>,
    /// The nested subcommands.
    pub subcommands: Vec<CommandSpec>,
}

/// A completion candidate: the text inserted plus an optional one-line
/// description shown next to it in the dropdown.
pub struct Candidate {
    /// The text inserted.
    pub value: String,
    /// The description, if any.
    pub description: Option<String>,
}

/// An optional string as optional characters.
pub open spec fn opt_view(o: Option<String>) -> Option<Seq<char>> {
    match o {
        Some(s) => Some(s@),
        None => None,
    }
}

/// A candidate as (inserted text, description).
pub open spec fn cand_view(c: Candidate) -> (Seq<char>, Option<Seq<char>>) {
    (c.value@, opt_view(c.description))
}

/// Candidates as (inserted text, description) pairs.
pub open spec fn cands_view(cs: Seq<Candidate>) -> Seq<(Seq<char>, Option<Seq<char>>)> {
    cs.map_values(|c: Candidate| cand_view(c))
}

// ---------------------------------------------------------------------------
// First line of a help text.
// ---------------------------------------------------------------------------

/// Index of the first `'\n'` in `s` at or after `from` (or `s.len()`).
pub open spec fn newline_from(s: Seq<char>, from: int) -> int
    decreases s.len() - from,
{
    if from < 0 || from >= s.len() {
        s.len() as int
    } else if s[from] == '\n' {
        from
    } else {
        newline_from(s, from + 1)
    }
}

/// The first line of `s` (`s.lines().next().unwrap_or("")`): up to the first
/// `'\n'`, without a `'\r'` that directly precedes it.
pub open spec fn first_line_view(s: Seq<char>) -> Seq<char> {
    let i = newline_from(s, 0);
    if i < s.len() && i > 0 && s[i - 1] == '\r' {
        s.subrange(0, i - 1)
    } else {
        s.subrange(0, i)
    }
}

/// First line of a (possibly multi-line) help string.
pub fn first_line(s: &str) -> (r: String)
    ensures
        r@ == first_line_view(s@),
{
    let cs = chars_of(s);
    let n = cs.len();
    let mut i: usize = 0;
    while i < n && cs[i] != '\n'
        invariant
            cs@ == s@,
            n == s@.len(),
            i <= n,
            newline_from(s@, 0) == newline_from(s@, i as int),
        decreases n - i,
    {
        i = i + 1;
    }
    let end: usize = if i < n && i > 0 && cs[i - 1] == '\r' {
        i - 1
    } else {
        i
    };
    String::from_str(s.substring_char(0, end))
}

/// An optional help text reduced to its first line.
pub open spec fn opt_first_line(o: Option<String>) -> Option<Seq<char>> {
    match o {
        Some(s) => Some(first_line_view(s@)),
        None => None,
    }
}

fn opt_first_line_exec(o: &Option<String>) -> (r: Option<String>)
    ensures
        opt_view(r) == opt_first_line(*o),
{
    match o {
        Some(s) => Some(first_line(s.as_str())),
        None => None,
    }
}

// ---------------------------------------------------------------------------
// Walking the command tree.
// ---------------------------------------------------------------------------

/// Whether `c` answers to `tok`, by name or by one of its aliases.
pub open spec fn answers_to(c: CommandSpec, tok: Seq<char>) -> bool {
    c.name@ == tok || exists|k: int| 0 <= k < c.aliases@.len() && #[trigger] c.aliases@[k]@ == tok
}

/// Index of the first of `subs[from..]` answering to `tok`.
pub open spec fn first_match_from(subs: Seq<CommandSpec>, tok: Seq<char>, from: int) -> Option<
    int,
>
    decreases subs.len() - from,
{
    if from < 0 || from >= subs.len() {
        None
    } else if answers_to(subs[from], tok) {
        Some(from)
    } else {
        first_match_from(subs, tok, from + 1)
    }
}

/// The subcommand of `c` that `tok` selects, if any (`Command::find_subcommand`).
pub open spec fn find_subcommand_view(c: CommandSpec, tok: Seq<char>) -> Option<CommandSpec> {
    match first_match_from(c.subcommands@, tok, 0) {
        Some(k) => Some(c.subcommands@[k]),
        None => None,
    }
}

/// One step of the walk: flags are skipped, subcommand names descend, other
/// words leave the current command unchanged.
pub open spec fn step_view(c: CommandSpec, tok: Seq<char>) -> CommandSpec {
    if tok.len() > 0 && tok[0] == '-' {
        c
    } else {
        match find_subcommand_view(c, tok) {
            Some(sub) => sub,
            None => c,
        }
    }
}

/// The deepest command reached from `c` by following `toks` in order.
pub open spec fn resolve_view(c: CommandSpec, toks: Seq<Seq<char>>) -> CommandSpec
    decreases toks.len(),
{
    if toks.len() == 0 {
        c
    } else {
        resolve_view(step_view(c, toks[0]), toks.drop_first())
    }
}

fn answers_to_exec(c: &CommandSpec, tok: &Vec<char>) -> (b: bool)
    ensures
        b == answers_to(*c, tok@),
{
    if chars_equal(tok, c.name.as_str()) {
        return true;
    }
    let mut k: usize = 0;
    while k < c.aliases.len()
        invariant
            k <= c.aliases@.len(),
            c.name@ != tok@,
            forall|j: int| 0 <= j < k ==> #[trigger] c.aliases@[j]@ != tok@,
        decreases c.aliases@.len() - k,
    {
        if chars_equal(tok, c.aliases[k].as_str()) {
            return true;
        }
        k = k + 1;
    }
    false
}

/// The subcommand of `c` named (or aliased) `tok`, if any.
pub fn find_subcommand<'a>(c: &'a CommandSpec, tok: &Vec<char>) -> (r: Option<&'a CommandSpec>)
    ensures
        match r {
            Some(s) => find_subcommand_view(*c, tok@) == Some(*s),
            None => find_subcommand_view(*c, tok@) is None,
        },
{
    let mut k: usize = 0;
    while k < c.subcommands.len()
        invariant
            k <= c.subcommands@.len(),
            first_match_from(c.subcommands@, tok@, 0) == first_match_from(
                c.subcommands@,
                tok@,
                k as int,
            ),
        decreases c.subcommands@.len() - k,
    {
        if answers_to_exec(&c.subcommands[k], tok) {
            return Some(&c.subcommands[k]);
        }
        k = k + 1;
    }
    None
}

/// Walk the command tree following the subcommand names already typed,
/// returning the deepest command reached. Flags are skipped, and words that name
/// no subcommand (flag values) leave the walk where it is, so
/// `ml american --spot 100` resolves to the `american` command.
pub fn resolve_command<'a>(root: &'a CommandSpec, preceding: &Vec<Vec<char>>) -> (r:
    &'a CommandSpec)
    ensures
        *r == resolve_view(*root, preceding@.map_values(|t: Vec<char>| t@)),
{
    let ghost toks = preceding@.map_values(|t: Vec<char>| t@);
    let mut current: &CommandSpec = root;
    let mut i: usize = 0;
    proof {
        assert(toks.skip(0) == toks);
    }
    while i < preceding.len()
        invariant
            toks == preceding@.map_values(|t: Vec<char>| t@),
            i <= preceding@.len(),
            resolve_view(*root, toks) == resolve_view(*current, toks.skip(i as int)),
        decreases preceding@.len() - i,
    {
        let tok = &preceding[i];
        proof {
            assert(toks.skip(i as int)[0] == tok@);
            assert(toks.skip(i as int).drop_first() == toks.skip(i + 1));
        }
        if tok.len() > 0 && tok[0] == '-' {
        } else {
            match find_subcommand(current, tok) {
                Some(sub) => {
                    current = sub;
                },
                None => {},
            }
        }
        i = i + 1;
    }
    proof {
        assert(toks.skip(i as int).len() == 0);
    }
    current
}


// ---------------------------------------------------------------------------
// Candidate lists.
// ---------------------------------------------------------------------------

/// The nested subcommands of `c`, each with its one-line description.
pub open spec fn subcommand_view(c: CommandSpec) -> Seq<(Seq<char>, Option<Seq<char>>)> {
    c.subcommands@.map_values(|s: CommandSpec| (s.name@, opt_first_line(s.about)))
}

/// Nested subcommand names of `c`, each with its one-line about text.
pub fn subcommand_candidates(c: &CommandSpec) -> (r: Vec<Candidate>)
    ensures
        cands_view(r@) == subcommand_view(*c),
{
    let mut out: Vec<Candidate> = Vec::new();
    let mut k: usize = 0;
    while k < c.subcommands.len()
        invariant
            k <= c.subcommands@.len(),
            out@.len() == k,
            cands_view(out@) == subcommand_view(*c).subrange(0, k as int),
        decreases c.subcommands@.len() - k,
    {
        let sub = &c.subcommands[k];
        let value = sub.name.clone();
        let description = opt_first_line_exec(&sub.about);
        let cand = Candidate { value, description };
        assert(cand_view(cand) == subcommand_view(*c)[k as int]);
        let ghost before = out@;
        out.push(cand);
        proof {
            assert(out@ == before.push(cand));
            assert forall|i: int| 0 <= i < k implies #[trigger] cands_view(out@)[i]
                == subcommand_view(*c)[i] by {
                assert(out@[i] == before[i]);
                assert(cands_view(before)[i] == subcommand_view(*c).subrange(0, k as int)[i]);
            }
            assert(cands_view(out@) =~= subcommand_view(*c).subrange(0, k + 1));
        }
        k = k + 1;
    }
    out
}

/// The long flags of the arguments in `args`, in order, as `--name` with the
/// first line of their help.
pub open spec fn long_flags_view(args: Seq<ArgSpec>) -> Seq<(Seq<char>, Option<Seq<char>>)>
    decreases args.len(),
{
    if args.len() == 0 {
        Seq::empty()
    } else {
        let rest = long_flags_view(args.drop_last());
        match args.last().long {
            Some(l) => rest.push(("--"@ + l@, opt_first_line(args.last().help))),
            None => rest,
        }
    }
}

/// The global flags every command accepts, with their help text.
pub open spec fn global_flags_view() -> Seq<(Seq<char>, Seq<char>)> {
    seq![
        ("--json"@, "Emit structured JSON"@),
        ("--tsv"@, "Emit tab-separated values"@),
        ("--quiet"@, "Suppress non-essential output"@),
        ("--verbose"@, "Emit extra diagnostics to stderr"@),
    ]
}

/// `flags` extended by each of `globals` whose name is not already offered.
pub open spec fn add_globals(
    flags: Seq<(Seq<char>, Option<Seq<char>>)>,
    globals: Seq<(Seq<char>, Seq<char>)>,
) -> Seq<(Seq<char>, Option<Seq<char>>)>
    decreases globals.len(),
{
    if globals.len() == 0 {
        flags
    } else {
        let prev = add_globals(flags, globals.drop_last());
        let g = globals.last();
        if exists|k: int| 0 <= k < prev.len() && (#[trigger] prev[k]).0 == g.0 {
            prev
        } else {
            prev.push((g.0, Some(g.1)))
        }
    }
}

/// The flags offered for `c`: its own long flags, then the globals it lacks.
pub open spec fn flag_view(c: CommandSpec) -> Seq<(Seq<char>, Option<Seq<char>>)> {
    add_globals(long_flags_view(c.args@), global_flags_view())
}

fn global_flag(i: usize) -> (r: (&'static str, &'static str))
    requires
        i < 4,
    ensures
        (r.0@, r.1@) == global_flags_view()[i as int],
{
    if i == 0 {
        ("--json", "Emit structured JSON")
    } else if i == 1 {
        ("--tsv", "Emit tab-separated values")
    } else if i == 2 {
        ("--quiet", "Suppress non-essential output")
    } else {
        ("--verbose", "Emit extra diagnostics to stderr")
    }
}

/// Long flags (`--flag`) declared on `c` with their help text, plus the
/// always-available global flags.
pub fn flag_candidates(c: &CommandSpec) -> (r: Vec<Candidate>)
    ensures
        cands_view(r@) == flag_view(*c),
{
    let mut out: Vec<Candidate> = Vec::new();
    let mut k: usize = 0;
    while k < c.args.len()
        invariant
            k <= c.args@.len(),
            cands_view(out@) == long_flags_view(c.args@.subrange(0, k as int)),
        decreases c.args@.len() - k,
    {
        let a = &c.args[k];
        proof {
            assert(c.args@.subrange(0, k + 1).drop_last() == c.args@.subrange(0, k as int));
        }
        match &a.long {
            Some(l) => {
                let mut v = String::from_str("--");
                v.append(l.as_str());
                let cand = Candidate { value: v, description: opt_first_line_exec(&a.help) };
                out.push(cand);
                proof {
                    assert(cands_view(out@) =~= long_flags_view(c.args@.subrange(0, k + 1)));
                }
            },
            None => {},
        }
        k = k + 1;
    }
    proof {
        assert(c.args@.subrange(0, c.args@.len() as int) == c.args@);
    }
    let ghost own = cands_view(out@);
    let mut g: usize = 0;
    while g < 4
        invariant
            g <= 4,
            cands_view(out@) == add_globals(own, global_flags_view().subrange(0, g as int)),
        decreases 4 - g,
    {
        let (flag, desc) = global_flag(g);
        let ghost prev = cands_view(out@);
        proof {
            assert(global_flags_view().subrange(0, g + 1).drop_last() == global_flags_view().subrange(
                0,
                g as int,
            ));
        }
        let mut present = false;
        let mut j: usize = 0;
        let fv = chars_of(flag);
        while j < out.len()
            invariant
                j <= out@.len(),
                prev == cands_view(out@),
                fv@ == flag@,
                present == exists|k: int| 0 <= k < j && (#[trigger] prev[k]).0 == flag@,
            decreases out@.len() - j,
        {
            if chars_equal(&fv, out[j].value.as_str()) {
                present = true;
            }
            proof {
                if present {
                    if out@[j as int].value@ == flag@ {
                        assert(prev[j as int].0 == flag@);
                    }
                }
            }
            j = j + 1;
        }
        if !present {
            let cand = Candidate {
                value: String::from_str(flag),
                description: Some(String::from_str(desc)),
            };
            out.push(cand);
            proof {
                assert(cands_view(out@) =~= prev.push((flag@, Some(desc@))));
            }
        }
        g = g + 1;
    }
    proof {
        assert(global_flags_view().subrange(0, 4) == global_flags_view());
    }
    out
}

/// The REPL builtins offered for the first word, with their descriptions.
pub open spec fn builtins_view() -> Seq<(Seq<char>, Option<Seq<char>>)> {
    seq![
        ("help"@, Some("show the command listing"@)),
        ("quit"@, Some("leave the REPL"@)),
        ("exit"@, Some("leave the REPL"@)),
    ]
}

fn builtin_candidates() -> (r: Vec<Candidate>)
    ensures
        cands_view(r@) == builtins_view(),
{
    let mut out: Vec<Candidate> = Vec::new();
    out.push(
        Candidate {
            value: String::from_str("help"),
            description: Some(String::from_str("show the command listing")),
        },
    );
    out.push(
        Candidate {
            value: String::from_str("quit"),
            description: Some(String::from_str("leave the REPL")),
        },
    );
    out.push(
        Candidate {
            value: String::from_str("exit"),
            description: Some(String::from_str("leave the REPL")),
        },
    );
    assert(cands_view(out@) =~= builtins_view());
    out
}


// ---------------------------------------------------------------------------
// Words of the line.
// ---------------------------------------------------------------------------

/// Start of the word ending at `p`: just after the last whitespace before `p`.
pub open spec fn word_start_view(line: Seq<char>, p: int) -> int
    decreases p,
{
    if p <= 0 {
        0
    } else if is_unicode_whitespace(line[p - 1]) {
        p
    } else {
        word_start_view(line, p - 1)
    }
}

/// The completed words of `s` and the word still being read at its end.
pub open spec fn ws_scan(s: Seq<char>) -> (Seq<Seq<char>>, Seq<char>)
    decreases s.len(),
{
    if s.len() == 0 {
        (Seq::empty(), Seq::empty())
    } else {
        let (words, cur) = ws_scan(s.drop_last());
        if is_unicode_whitespace(s.last()) {
            if cur.len() > 0 {
                (words.push(cur), Seq::empty())
            } else {
                (words, Seq::empty())
            }
        } else {
            (words, cur.push(s.last()))
        }
    }
}

/// The whitespace-separated words of `s` (`str::split_whitespace`).
pub open spec fn words_view(s: Seq<char>) -> Seq<Seq<char>> {
    let (words, cur) = ws_scan(s);
    if cur.len() > 0 {
        words.push(cur)
    } else {
        words
    }
}

/// The whitespace-separated words of `s[..end]`.
fn split_words(s: &Vec<char>, end: usize) -> (r: Vec<Vec<char>>)
    requires
        end <= s@.len(),
    ensures
        r@.map_values(|t: Vec<char>| t@) == words_view(s@.subrange(0, end as int)),
{
    let mut words: Vec<Vec<char>> = Vec::new();
    let mut cur: Vec<char> = Vec::new();
    let mut i: usize = 0;
    while i < end
        invariant
            end <= s@.len(),
            i <= end,
            words@.map_values(|t: Vec<char>| t@) == ws_scan(s@.subrange(0, i as int)).0,
            cur@ == ws_scan(s@.subrange(0, i as int)).1,
        decreases end - i,
    {
        let c = s[i];
        let ghost prev_words = words@;
        proof {
            assert(s@.subrange(0, i + 1).drop_last() == s@.subrange(0, i as int));
            assert(s@.subrange(0, i + 1).last() == c);
        }
        if is_whitespace(c) {
            if cur.len() > 0 {
                let done = cur;
                words.push(done);
                proof {
                    assert(words@.map_values(|t: Vec<char>| t@) =~= prev_words.map_values(
                        |t: Vec<char>| t@,
                    ).push(done@));
                }
            }
            cur = Vec::new();
        } else {
            cur.push(c);
        }
        i = i + 1;
    }
    if cur.len() > 0 {
        let ghost prev_words = words@;
        let done = cur;
        words.push(done);
        proof {
            assert(words@.map_values(|t: Vec<char>| t@) =~= prev_words.map_values(
                |t: Vec<char>| t@,
            ).push(done@));
        }
    }
    words
}

// ---------------------------------------------------------------------------
// Ordering and filtering candidates.
// ---------------------------------------------------------------------------

/// Strict lexicographic order on character sequences (code-point order, which
/// is the byte order `String`'s `Ord` uses on UTF-8).
pub open spec fn lex_lt(a: Seq<char>, b: Seq<char>) -> bool
    decreases a.len(),
{
    if a.len() == 0 {
        b.len() > 0
    } else if b.len() == 0 {
        false
    } else if a[0] != b[0] {
        a[0] < b[0]
    } else {
        lex_lt(a.drop_first(), b.drop_first())
    }
}

fn str_lt(a: &str, b: &str) -> (r: bool)
    ensures
        r == lex_lt(a@, b@),
{
    let x = chars_of(a);
    let y = chars_of(b);
    let mut i: usize = 0;
    proof {
        assert(x@.skip(0) == x@);
        assert(y@.skip(0) == y@);
    }
    while i < x.len() && i < y.len() && x[i] == y[i]
        invariant
            x@ == a@,
            y@ == b@,
            i <= x@.len(),
            i <= y@.len(),
            lex_lt(a@, b@) == lex_lt(x@.skip(i as int), y@.skip(i as int)),
        decreases x@.len() - i,
    {
        proof {
            assert(x@.skip(i as int).drop_first() == x@.skip(i + 1));
            assert(y@.skip(i as int).drop_first() == y@.skip(i + 1));
        }
        i = i + 1;
    }
    if i == x.len() {
        i < y.len()
    } else if i == y.len() {
        false
    } else {
        x[i] < y[i]
    }
}

/// Where a stable insertion puts an item with key `x` into `keys`: after
/// every key that `x` does not strictly precede.
pub open spec fn insert_pos(keys: Seq<Seq<char>>, x: Seq<char>) -> int
    decreases keys.len(),
{
    if keys.len() == 0 {
        0
    } else if lex_lt(x, keys.last()) {
        insert_pos(keys.drop_last(), x)
    } else {
        keys.len() as int
    }
}

/// The keys (inserted texts) of a candidate list.
pub open spec fn keys_of(cs: Seq<(Seq<char>, Option<Seq<char>>)>) -> Seq<Seq<char>> {
    cs.map_values(|c: (Seq<char>, Option<Seq<char>>)| c.0)
}

/// `cs` stably sorted by inserted text (what `sort_by` on the value yields).
pub open spec fn sort_by_value(cs: Seq<(Seq<char>, Option<Seq<char>>)>) -> Seq<
    (Seq<char>, Option<Seq<char>>),
>
    decreases cs.len(),
{
    if cs.len() == 0 {
        cs
    } else {
        let sorted = sort_by_value(cs.drop_last());
        sorted.insert(insert_pos(keys_of(sorted), cs.last().0), cs.last())
    }
}

/// The candidates of `cs` whose inserted text starts with `word`, in order.
pub open spec fn with_prefix(cs: Seq<(Seq<char>, Option<Seq<char>>)>, word: Seq<char>) -> Seq<
    (Seq<char>, Option<Seq<char>>),
>
    decreases cs.len(),
{
    if cs.len() == 0 {
        cs
    } else {
        let rest = with_prefix(cs.drop_last(), word);
        if word.is_prefix_of(cs.last().0) {
            rest.push(cs.last())
        } else {
            rest
        }
    }
}

proof fn lemma_sort_len(cs: Seq<(Seq<char>, Option<Seq<char>>)>)
    ensures
        sort_by_value(cs).len() == cs.len(),
    decreases cs.len(),
{
    if cs.len() > 0 {
        lemma_sort_len(cs.drop_last());
        lemma_insert_pos_bounds(keys_of(sort_by_value(cs.drop_last())), cs.last().0);
    }
}

proof fn lemma_insert_pos_bounds(keys: Seq<Seq<char>>, x: Seq<char>)
    ensures
        0 <= insert_pos(keys, x) <= keys.len(),
    decreases keys.len(),
{
    if keys.len() > 0 {
        lemma_insert_pos_bounds(keys.drop_last(), x);
    }
}

fn starts_with(word: &Vec<char>, s: &str) -> (b: bool)
    ensures
        b == word@.is_prefix_of(s@),
{
    let n = s.unicode_len();
    if word.len() > n {
        return false;
    }
    let mut i: usize = 0;
    while i < word.len()
        invariant
            n == s@.len(),
            word@.len() <= n,
            i <= word@.len(),
            forall|j: int| 0 <= j < i ==> word@[j] == s@[j],
        decreases word@.len() - i,
    {
        if word[i] != s.get_char(i) {
            return false;
        }
        i = i + 1;
    }
    true
}

/// Keep the candidates whose value starts with `word`, then sort them stably
/// by value.
fn filter_and_sort(cands: Vec<Candidate>, word: &Vec<char>) -> (r: Vec<Candidate>)
    ensures
        cands_view(r@) == sort_by_value(with_prefix(cands_view(cands@), word@)),
{
    let ghost all = cands_view(cands@);
    let mut kept: Vec<Candidate> = Vec::new();
    let mut rest = cands;
    let ghost orig = rest@;
    let total: usize = rest.len();
    let mut taken: Vec<Candidate> = Vec::new();
    let mut i: usize = 0;
    while rest.len() > 0
        invariant
            i <= orig.len(),
            orig.len() == total,
            rest@ == orig.subrange(i as int, orig.len() as int),
            all == cands_view(orig),
            cands_view(kept@) == with_prefix(all.subrange(0, i as int), word@),
        decreases rest@.len(),
    {
        let c = rest.remove(0);
        proof {
            assert(c == orig[i as int]);
            assert(all.subrange(0, i + 1).drop_last() == all.subrange(0, i as int));
            assert(all.subrange(0, i + 1).last() == cand_view(c));
            assert(rest@ =~= orig.subrange(i + 1, orig.len() as int));
        }
        if starts_with(word, c.value.as_str()) {
            let ghost before = kept@;
            kept.push(c);
            proof {
                assert(cands_view(kept@) =~= cands_view(before).push(cand_view(c)));
            }
        }
        i = i + 1;
    }
    proof {
        assert(all.subrange(0, orig.len() as int) == all);
    }
    let ghost filtered = cands_view(kept@);
    // Stable insertion sort into `taken`.
    let mut src = kept;
    let ghost osrc = src@;
    let total2: usize = src.len();
    let ghost n = filtered.len();
    let mut m: usize = 0;
    while src.len() > 0
        invariant
            osrc.len() == n,
            n == total2,
            filtered == cands_view(osrc),
            m <= n,
            src@ == osrc.subrange(m as int, n as int),
            cands_view(taken@) == sort_by_value(filtered.subrange(0, m as int)),
        decreases src@.len(),
    {
        let c = src.remove(0);
        let ghost sorted = cands_view(taken@);
        proof {
            assert(c == osrc[m as int]);
            assert(src@ =~= osrc.subrange(m + 1, n as int));
            assert(cand_view(c) == filtered[m as int]);
            assert(filtered.subrange(0, m + 1).drop_last() == filtered.subrange(0, m as int));
            assert(filtered.subrange(0, m + 1).last() == cand_view(c));
            lemma_sort_len(filtered.subrange(0, m as int));
        }
        let mut j: usize = taken.len();
        proof {
            assert(keys_of(sorted).subrange(0, j as int) == keys_of(sorted));
        }
        while j > 0 && str_lt(c.value.as_str(), taken[j - 1].value.as_str())
            invariant
                j <= taken@.len(),
                sorted == cands_view(taken@),
                insert_pos(keys_of(sorted), c.value@) == insert_pos(
                    keys_of(sorted).subrange(0, j as int),
                    c.value@,
                ),
            decreases j,
        {
            proof {
                assert(keys_of(sorted).subrange(0, j as int).drop_last() == keys_of(
                    sorted,
                ).subrange(0, j - 1));
                assert(keys_of(sorted).subrange(0, j as int).last() == taken@[j - 1].value@);
            }
            j = j - 1;
        }
        proof {
            lemma_insert_pos_bounds(keys_of(sorted).subrange(0, j as int), c.value@);
            if j > 0 {
                assert(keys_of(sorted).subrange(0, j as int).last() == taken@[j - 1].value@);
            }
            assert(insert_pos(keys_of(sorted), c.value@) == j);
        }
        let ghost before = taken@;
        taken.insert(j, c);
        proof {
            assert(cands_view(taken@) =~= sorted.insert(j as int, cand_view(c)));
        }
        m = m + 1;
    }
    proof {
        assert(filtered.subrange(0, n as int) == filtered);
    }
    taken
}


// ---------------------------------------------------------------------------
// Completion at the cursor.
// ---------------------------------------------------------------------------

/// The candidates offered at character offset `pos` of `line`, before prefix
/// filtering: flags when the word under the cursor starts with `-`; the
/// top-level commands plus the REPL builtins for the first word; otherwise the
/// resolved command's nested subcommands, or its flags when it has none.
pub open spec fn offered_view(root: CommandSpec, line: Seq<char>, pos: int) -> Seq<
    (Seq<char>, Option<Seq<char>>),
> {
    let start = word_start_view(line, pos);
    let word = line.subrange(start, pos);
    let preceding = words_view(line.subrange(0, start));
    let current = resolve_view(root, preceding);
    if word.len() > 0 && word[0] == '-' {
        flag_view(current)
    } else if preceding.len() == 0 {
        subcommand_view(current) + builtins_view()
    } else if subcommand_view(current).len() == 0 {
        flag_view(current)
    } else {
        subcommand_view(current)
    }
}

/// The completions at `pos`: the offered candidates that start with the word
/// under the cursor, stably sorted by inserted text.
pub open spec fn completions_view(root: CommandSpec, line: Seq<char>, pos: int) -> Seq<
    (Seq<char>, Option<Seq<char>>),
> {
    let start = word_start_view(line, pos);
    sort_by_value(with_prefix(offered_view(root, line, pos), line.subrange(start, pos)))
}

proof fn lemma_word_start_bounds(line: Seq<char>, p: int)
    requires
        0 <= p <= line.len(),
    ensures
        0 <= word_start_view(line, p) <= p,
    decreases p,
{
    if p > 0 && !is_unicode_whitespace(line[p - 1]) {
        lemma_word_start_bounds(line, p - 1);
    }
}

/// Compute the completion candidates for the word under the cursor, at byte
/// offset `pos` of `line`: the word's start, as a byte offset, and the sorted,
/// prefix-filtered candidate list.
pub fn candidates_at(root: &CommandSpec, line: &str, pos: usize) -> (r: (usize, Vec<Candidate>))
    requires
        is_char_boundary(line.spec_bytes(), pos as int),
    ensures
        r.0 == utf8_prefix_len(line@, word_start_view(line@, char_index_at(line@, pos as int))),
        cands_view(r.1@) == completions_view(*root, line@, char_index_at(line@, pos as int)),
{
    let cs = chars_of(line);
    proof {
        lemma_char_boundary_index(line@, pos as int);
    }
    let ghost c0 = char_index_at(line@, pos as int);
    let n = cs.len();
    // The character index of byte offset `pos`.
    let mut i: usize = 0;
    let mut b: usize = 0;
    while b < pos
        invariant
            cs@ == line@,
            n == cs@.len(),
            0 <= i <= c0 <= line@.len(),
            utf8_prefix_len(line@, c0) == pos,
            b == utf8_prefix_len(line@, i as int),
            b <= pos,
        decreases pos - b,
    {
        assert(i < c0);
        proof {
            lemma_utf8_prefix_step(line@, i as int);
            if i + 1 < c0 {
                lemma_utf8_prefix_strict(line@, i + 1, c0);
            }
        }
        b = b + utf8_width(cs[i]);
        i = i + 1;
    }
    proof {
        if i < c0 {
            lemma_utf8_prefix_strict(line@, i as int, c0);
        }
    }
    assert(i == c0);
    let (start, cands) = completions_at(root, &cs, i);
    proof {
        lemma_word_start_bounds(line@, i as int);
    }
    // The byte offset of character `start`.
    let mut k: usize = 0;
    let mut sb: usize = 0;
    while k < start
        invariant
            cs@ == line@,
            0 <= k <= start <= i <= line@.len(),
            utf8_prefix_len(line@, i as int) == pos,
            sb == utf8_prefix_len(line@, k as int),
        decreases start - k,
    {
        proof {
            lemma_utf8_prefix_step(line@, k as int);
            if k + 1 < i {
                lemma_utf8_prefix_strict(line@, k + 1, i as int);
            }
        }
        sb = sb + utf8_width(cs[k]);
        k = k + 1;
    }
    (sb, cands)
}

/// [`candidates_at`] over the line's characters, at character offset `pos`.
fn completions_at(root: &CommandSpec, cs: &Vec<char>, pos: usize) -> (r: (usize, Vec<Candidate>))
    requires
        pos <= cs@.len(),
    ensures
        r.0 == word_start_view(cs@, pos as int),
        cands_view(r.1@) == completions_view(*root, cs@, pos as int),
{
    let ghost line = cs@;
    let mut start: usize = pos;
    while start > 0 && !is_whitespace(cs[start - 1])
        invariant
            cs@ == line,
            start <= pos <= line.len(),
            word_start_view(line, pos as int) == word_start_view(line, start as int),
        decreases start,
    {
        start = start - 1;
    }
    proof {
        lemma_word_start_bounds(line, pos as int);
    }
    let mut word: Vec<char> = Vec::new();
    let mut k: usize = start;
    while k < pos
        invariant
            cs@ == line,
            start <= k <= pos <= line.len(),
            word@ == line.subrange(start as int, k as int),
        decreases pos - k,
    {
        word.push(cs[k]);
        k = k + 1;
    }
    let preceding = split_words(&cs, start);
    let current = resolve_command(root, &preceding);
    let ghost pre = preceding@.map_values(|t: Vec<char>| t@);
    let candidates: Vec<Candidate> = if word.len() > 0 && word[0] == '-' {
        flag_candidates(current)
    } else if preceding.len() == 0 {
        let mut c = subcommand_candidates(current);
        let ghost subs = cands_view(c@);
        let mut b = builtin_candidates();
        let ghost bs = cands_view(b@);
        c.append(&mut b);
        proof {
            assert(cands_view(c@) =~= subs + bs);
        }
        c
    } else {
        let subs = subcommand_candidates(current);
        if subs.len() == 0 {
            flag_candidates(current)
        } else {
            subs
        }
    };
    assert(cands_view(candidates@) == offered_view(*root, line, pos as int));
    let sorted = filter_and_sort(candidates, &word);
    (start, sorted)
}


// ---------------------------------------------------------------------------
// Properties of the completion list.
// ---------------------------------------------------------------------------

proof fn lemma_lex_asymmetric(a: Seq<char>, b: Seq<char>)
    requires
        lex_lt(a, b),
    ensures
        !lex_lt(b, a),
    decreases a.len(),
{
    if a.len() > 0 && b.len() > 0 && a[0] == b[0] {
        lemma_lex_asymmetric(a.drop_first(), b.drop_first());
    }
}

proof fn lemma_lex_total(a: Seq<char>, b: Seq<char>)
    requires
        a != b,
    ensures
        lex_lt(a, b) || lex_lt(b, a),
    decreases a.len(),
{
    if a.len() > 0 && b.len() > 0 && a[0] == b[0] {
        if a.drop_first() == b.drop_first() {
            assert(a =~= seq![a[0]] + a.drop_first());
            assert(b =~= seq![b[0]] + b.drop_first());
        }
        lemma_lex_total(a.drop_first(), b.drop_first());
    } else if a.len() == 0 && b.len() == 0 {
        assert(a =~= b);
    }
}

proof fn lemma_lex_transitive(a: Seq<char>, b: Seq<char>, c: Seq<char>)
    requires
        lex_lt(a, b),
        lex_lt(b, c),
    ensures
        lex_lt(a, c),
    decreases a.len(),
{
    if a.len() > 0 && b.len() > 0 && c.len() > 0 && a[0] == b[0] && b[0] == c[0] {
        lemma_lex_transitive(a.drop_first(), b.drop_first(), c.drop_first());
    }
}

/// `a` does not come after `b` in lexicographic order.
pub open spec fn lex_le(a: Seq<char>, b: Seq<char>) -> bool {
    !lex_lt(b, a)
}

proof fn lemma_lex_le_transitive(a: Seq<char>, b: Seq<char>, c: Seq<char>)
    requires
        lex_le(a, b),
        lex_le(b, c),
    ensures
        lex_le(a, c),
{
    if lex_lt(c, a) {
        if a == b {
        } else if b == c {
        } else {
            lemma_lex_total(a, b);
            lemma_lex_total(b, c);
            lemma_lex_transitive(a, b, c);
            lemma_lex_asymmetric(a, c);
        }
    }
}

/// Whether `keys` is in non-decreasing lexicographic order.
pub open spec fn keys_sorted(keys: Seq<Seq<char>>) -> bool {
    forall|i: int, j: int| 0 <= i < j < keys.len() ==> lex_le(#[trigger] keys[i], #[trigger] keys[j])
}

proof fn lemma_insert_pos_splits(keys: Seq<Seq<char>>, x: Seq<char>)
    requires
        keys_sorted(keys),
    ensures
        forall|k: int| 0 <= k < insert_pos(keys, x) ==> lex_le(#[trigger] keys[k], x),
        forall|k: int| insert_pos(keys, x) <= k < keys.len() ==> lex_lt(x, #[trigger] keys[k]),
    decreases keys.len(),
{
    lemma_insert_pos_bounds(keys, x);
    if keys.len() > 0 {
        let rest = keys.drop_last();
        assert(keys_sorted(rest)) by {
            assert forall|i: int, j: int| 0 <= i < j < rest.len() implies lex_le(
                #[trigger] rest[i],
                #[trigger] rest[j],
            ) by {
                assert(rest[i] == keys[i] && rest[j] == keys[j]);
            }
        }
        if lex_lt(x, keys.last()) {
            lemma_insert_pos_splits(rest, x);
            assert forall|k: int| insert_pos(keys, x) <= k < keys.len() implies lex_lt(
                x,
                #[trigger] keys[k],
            ) by {
                if k < keys.len() - 1 {
                    assert(rest[k] == keys[k]);
                }
            }
            assert forall|k: int| 0 <= k < insert_pos(keys, x) implies lex_le(
                #[trigger] keys[k],
                x,
            ) by {
                assert(rest[k] == keys[k]);
            }
        } else {
            assert forall|k: int| 0 <= k < insert_pos(keys, x) implies lex_le(
                #[trigger] keys[k],
                x,
            ) by {
                if k < keys.len() - 1 {
                    assert(lex_le(keys[k], keys[keys.len() - 1]));
                    lemma_lex_le_transitive(keys[k], keys.last(), x);
                }
            }
        }
    }
}

proof fn lemma_sort_sorted_perm(cs: Seq<(Seq<char>, Option<Seq<char>>)>)
    ensures
        keys_sorted(keys_of(sort_by_value(cs))),
        sort_by_value(cs).to_multiset() == cs.to_multiset(),
        sort_by_value(cs).len() == cs.len(),
    decreases cs.len(),
{
    broadcast use vstd::seq_lib::group_to_multiset_ensures;

    if cs.len() > 0 {
        let prev = sort_by_value(cs.drop_last());
        lemma_sort_sorted_perm(cs.drop_last());
        let keys = keys_of(prev);
        let x = cs.last();
        let p = insert_pos(keys, x.0);
        lemma_insert_pos_splits(keys, x.0);
        lemma_insert_pos_bounds(keys, x.0);
        let out = prev.insert(p, x);
        assert(keys_of(out) =~= keys.insert(p, x.0));
        let nk = keys.insert(p, x.0);
        assert forall|i: int, j: int| 0 <= i < j < nk.len() implies lex_le(
            #[trigger] nk[i],
            #[trigger] nk[j],
        ) by {
            if j < p {
            } else if j == p {
                assert(lex_le(keys[i], x.0));
            } else if i < p {
                assert(lex_le(keys[i], x.0));
                assert(lex_lt(x.0, keys[j - 1]));
                lemma_lex_asymmetric(x.0, keys[j - 1]);
                lemma_lex_le_transitive(keys[i], x.0, keys[j - 1]);
            } else if i == p {
                assert(lex_lt(x.0, keys[j - 1]));
                lemma_lex_asymmetric(x.0, keys[j - 1]);
            } else {
                assert(lex_le(keys[i - 1], keys[j - 1]));
            }
        }
        assert(cs =~= cs.drop_last().push(x));
    }
}

/// The completion list is sorted by inserted text, offers only (and every one
/// of) the offered candidates that start with the word under the cursor, each
/// as often as it is offered.
pub proof fn lemma_completions_sorted_and_prefixed(root: CommandSpec, line: Seq<char>, pos: int)
    requires
        0 <= pos <= line.len(),
    ensures
        ({
            let start = word_start_view(line, pos);
            let word = line.subrange(start, pos);
            let out = completions_view(root, line, pos);
            &&& keys_sorted(keys_of(out))
            &&& out.to_multiset() == with_prefix(offered_view(root, line, pos), word).to_multiset()
            &&& forall|i: int| 0 <= i < out.len() ==> word.is_prefix_of(#[trigger] out[i].0)
        }),
{
    broadcast use vstd::seq_lib::group_to_multiset_ensures;

    let start = word_start_view(line, pos);
    let word = line.subrange(start, pos);
    let kept = with_prefix(offered_view(root, line, pos), word);
    lemma_sort_sorted_perm(kept);
    lemma_with_prefix_prefixed(offered_view(root, line, pos), word);
    let out = completions_view(root, line, pos);
    assert forall|i: int| 0 <= i < out.len() implies word.is_prefix_of(#[trigger] out[i].0) by {
        assert(out.to_multiset().count(out[i]) > 0);
        assert(kept.to_multiset().count(out[i]) > 0);
        assert(kept.contains(out[i]));
    }
}

proof fn lemma_with_prefix_prefixed(cs: Seq<(Seq<char>, Option<Seq<char>>)>, word: Seq<char>)
    ensures
        forall|i: int|
            0 <= i < with_prefix(cs, word).len() ==> word.is_prefix_of(
                #[trigger] with_prefix(cs, word)[i].0,
            ),
    decreases cs.len(),
{
    if cs.len() > 0 {
        let rest = with_prefix(cs.drop_last(), word);
        lemma_with_prefix_prefixed(cs.drop_last(), word);
        assert forall|i: int| 0 <= i < with_prefix(cs, word).len() implies word.is_prefix_of(
            #[trigger] with_prefix(cs, word)[i].0,
        ) by {
            if i < rest.len() {
                assert(with_prefix(cs, word)[i] == rest[i]);
            }
        }
    }
}

proof fn lemma_word_start_after_blank(line: Seq<char>, k: int, p: int)
    requires
        0 <= k <= p <= line.len(),
        k > 0 ==> is_unicode_whitespace(line[k - 1]),
        forall|i: int| k <= i < p ==> !is_unicode_whitespace(#[trigger] line[i]),
    ensures
        word_start_view(line, p) == k,
    decreases p,
{
    if p > k {
        lemma_word_start_after_blank(line, k, p - 1);
    }
}

proof fn lemma_blank_has_no_words(s: Seq<char>)
    requires
        forall|i: int| 0 <= i < s.len() ==> is_unicode_whitespace(#[trigger] s[i]),
    ensures
        ws_scan(s).0.len() == 0,
        ws_scan(s).1.len() == 0,
        words_view(s).len() == 0,
    decreases s.len(),
{
    if s.len() > 0 {
        assert forall|i: int| 0 <= i < s.drop_last().len() implies is_unicode_whitespace(
            #[trigger] s.drop_last()[i],
        ) by {
            assert(s.drop_last()[i] == s[i]);
        }
        lemma_blank_has_no_words(s.drop_last());
        assert(is_unicode_whitespace(s[s.len() - 1]));
    }
}

proof fn lemma_with_prefix_keeps(
    cs: Seq<(Seq<char>, Option<Seq<char>>)>,
    word: Seq<char>,
    x: (Seq<char>, Option<Seq<char>>),
)
    requires
        cs.contains(x),
        word.is_prefix_of(x.0),
    ensures
        with_prefix(cs, word).contains(x),
    decreases cs.len(),
{
    if cs.last() == x {
        assert(with_prefix(cs, word).last() == x);
    } else {
        let j = choose|j: int| 0 <= j < cs.len() && cs[j] == x;
        assert(cs.drop_last()[j] == x);
        lemma_with_prefix_keeps(cs.drop_last(), word, x);
        let rest = with_prefix(cs.drop_last(), word);
        let j2 = choose|j2: int| 0 <= j2 < rest.len() && rest[j2] == x;
        if word.is_prefix_of(cs.last().0) {
            assert(rest.push(cs.last())[j2] == x);
        }
    }
}

proof fn lemma_with_prefix_within(
    cs: Seq<(Seq<char>, Option<Seq<char>>)>,
    word: Seq<char>,
    x: (Seq<char>, Option<Seq<char>>),
)
    requires
        with_prefix(cs, word).contains(x),
    ensures
        cs.contains(x),
    decreases cs.len(),
{
    let rest = with_prefix(cs.drop_last(), word);
    let j = choose|j: int| 0 <= j < with_prefix(cs, word).len() && with_prefix(cs, word)[j] == x;
    if j < rest.len() {
        assert(rest[j] == x);
        lemma_with_prefix_within(cs.drop_last(), word, x);
        let k = choose|k: int| 0 <= k < cs.drop_last().len() && cs.drop_last()[k] == x;
        assert(cs[k] == x);
    } else {
        assert(cs[cs.len() - 1] == x);
    }
}

/// On the first word of a line (nothing but blanks before it), the completions
/// are the top-level commands and the REPL builtins whose names start with the
/// typed word, and nothing else: every such command, with the first line of its
/// description, and every such builtin, `help` ("show the command listing"),
/// `quit` and `exit` ("leave the REPL"). An empty word completes to all of them.
pub proof fn lemma_first_word_offers_builtins(root: CommandSpec, line: Seq<char>, k: int, pos: int)
    requires
        0 <= k <= pos <= line.len(),
        forall|i: int| 0 <= i < k ==> is_unicode_whitespace(#[trigger] line[i]),
        forall|i: int| k <= i < pos ==> !is_unicode_whitespace(#[trigger] line[i]),
        pos > k ==> line[k] != '-',
    ensures
        ({
            let word = line.subrange(k, pos);
            let out = completions_view(root, line, pos);
            &&& word.is_prefix_of("help"@) ==> out.contains(
                ("help"@, Some("show the command listing"@)),
            )
            &&& word.is_prefix_of("quit"@) ==> out.contains(("quit"@, Some("leave the REPL"@)))
            &&& word.is_prefix_of("exit"@) ==> out.contains(("exit"@, Some("leave the REPL"@)))
            &&& forall|j: int|
                0 <= j < root.subcommands@.len() && word.is_prefix_of(
                    (#[trigger] root.subcommands@[j]).name@,
                ) ==> out.contains(
                    (root.subcommands@[j].name@, opt_first_line(root.subcommands@[j].about)),
                )
            &&& forall|x: (Seq<char>, Option<Seq<char>>)|
                #[trigger] out.contains(x) ==> word.is_prefix_of(x.0) && (x == ("help"@, Some(
                    "show the command listing"@,
                )) || x == ("quit"@, Some("leave the REPL"@)) || x == ("exit"@, Some(
                    "leave the REPL"@,
                )) || exists|j: int|
                    0 <= j < root.subcommands@.len() && x == (
                        (#[trigger] root.subcommands@[j]).name@,
                        opt_first_line(root.subcommands@[j].about),
                    ))
        }),
{
    broadcast use vstd::seq_lib::group_to_multiset_ensures;

    reveal_strlit("help");
    reveal_strlit("quit");
    reveal_strlit("exit");
    lemma_word_start_after_blank(line, k, pos);
    let pre = line.subrange(0, k);
    assert forall|i: int| 0 <= i < pre.len() implies is_unicode_whitespace(#[trigger] pre[i]) by {
        assert(pre[i] == line[i]);
    }
    lemma_blank_has_no_words(pre);
    let word = line.subrange(k, pos);
    assert(resolve_view(root, words_view(pre)) == root);
    if word.len() > 0 {
        assert(word[0] == line[k]);
    }
    let subs = subcommand_view(root);
    let offered = offered_view(root, line, pos);
    assert(offered == subs + builtins_view());
    let kept = with_prefix(offered, word);
    lemma_sort_sorted_perm(kept);
    lemma_completions_sorted_and_prefixed(root, line, pos);
    let out = completions_view(root, line, pos);
    assert forall|x: (Seq<char>, Option<Seq<char>>)|
        offered.contains(x) && word.is_prefix_of(x.0) implies out.contains(x) by {
        lemma_with_prefix_keeps(offered, word, x);
        assert(kept.to_multiset().count(x) > 0);
        assert(out.to_multiset().count(x) > 0);
    }
    let names = seq!["help"@, "quit"@, "exit"@];
    assert forall|b: int| 0 <= b < 3 implies offered.contains(builtins_view()[b]) by {
        assert(offered[subs.len() + b] == builtins_view()[b]);
    }
    assert(builtins_view()[0] == ("help"@, Some("show the command listing"@)));
    assert(builtins_view()[1] == ("quit"@, Some("leave the REPL"@)));
    assert(builtins_view()[2] == ("exit"@, Some("leave the REPL"@)));
    assert forall|j: int| 0 <= j < root.subcommands@.len() implies offered.contains(
        (
            (#[trigger] root.subcommands@[j]).name@,
            opt_first_line(root.subcommands@[j].about),
        ),
    ) by {
        assert(offered[j] == subs[j]);
    }
    assert forall|x: (Seq<char>, Option<Seq<char>>)| #[trigger] out.contains(x) implies word.is_prefix_of(
        x.0,
    ) && (x == ("help"@, Some("show the command listing"@)) || x == ("quit"@, Some(
        "leave the REPL"@,
    )) || x == ("exit"@, Some("leave the REPL"@)) || exists|j: int|
        0 <= j < root.subcommands@.len() && x == (
            (#[trigger] root.subcommands@[j]).name@,
            opt_first_line(root.subcommands@[j].about),
        )) by {
        let i = choose|i: int| 0 <= i < out.len() && out[i] == x;
        assert(word.is_prefix_of(out[i].0));
        assert(out.to_multiset().count(x) > 0);
        assert(kept.to_multiset().count(x) > 0);
        assert(kept.contains(x));
        lemma_with_prefix_within(offered, word, x);
        let t = choose|t: int| 0 <= t < offered.len() && offered[t] == x;
        if t < subs.len() {
            assert(x == (root.subcommands@[t].name@, opt_first_line(root.subcommands@[t].about)));
        } else {
            assert(x == builtins_view()[t - subs.len()]);
        }
    }
}

proof fn lemma_add_globals_names(
    flags: Seq<(Seq<char>, Option<Seq<char>>)>,
    globals: Seq<(Seq<char>, Seq<char>)>,
)
    ensures
        forall|g: int|
            0 <= g < globals.len() ==> exists|t: int|
                0 <= t < add_globals(flags, globals).len() && (#[trigger] add_globals(
                    flags,
                    globals,
                )[t]).0 == (#[trigger] globals[g]).0,
    decreases globals.len(),
{
    if globals.len() > 0 {
        let prev = add_globals(flags, globals.drop_last());
        lemma_add_globals_names(flags, globals.drop_last());
        let out = add_globals(flags, globals);
        assert forall|g: int| 0 <= g < globals.len() implies exists|t: int|
            0 <= t < out.len() && (#[trigger] out[t]).0 == (#[trigger] globals[g]).0 by {
            if g < globals.len() - 1 {
                assert(globals.drop_last()[g] == globals[g]);
                let t = choose|t: int|
                    0 <= t < prev.len() && (#[trigger] prev[t]).0 == globals.drop_last()[g].0;
                assert(out[t] == prev[t]);
            } else if exists|k: int| 0 <= k < prev.len() && (#[trigger] prev[k]).0 == globals.last().0 {
                let t = choose|t: int| 0 <= t < prev.len() && (#[trigger] prev[t]).0 == globals.last().0;
                assert(out[t] == prev[t]);
            } else {
                assert(out[prev.len() as int].0 == globals[g].0);
            }
        }
    }
}

/// A word that starts with `-` completes to flags, at any depth of the command
/// tree: every global flag (`--json`, `--tsv`, `--quiet`, `--verbose`) that the
/// word is a prefix of is offered, and every completion starts with the word.
pub proof fn lemma_flag_word_offers_globals(root: CommandSpec, line: Seq<char>, k: int, pos: int)
    requires
        0 <= k < pos <= line.len(),
        k > 0 ==> is_unicode_whitespace(line[k - 1]),
        forall|i: int| k <= i < pos ==> !is_unicode_whitespace(#[trigger] line[i]),
        line[k] == '-',
    ensures
        ({
            let word = line.subrange(k, pos);
            let out = completions_view(root, line, pos);
            let globals = seq!["--json"@, "--tsv"@, "--quiet"@, "--verbose"@];
            &&& forall|g: int|
                0 <= g < 4 && word.is_prefix_of(#[trigger] globals[g]) ==> exists|t: int|
                    0 <= t < out.len() && (#[trigger] out[t]).0 == globals[g]
            &&& forall|t: int| 0 <= t < out.len() ==> word.is_prefix_of(#[trigger] out[t].0)
        }),
{
    broadcast use vstd::seq_lib::group_to_multiset_ensures;

    reveal_strlit("--json");
    reveal_strlit("--tsv");
    reveal_strlit("--quiet");
    reveal_strlit("--verbose");
    lemma_word_start_after_blank(line, k, pos);
    let word = line.subrange(k, pos);
    assert(word[0] == '-');
    let current = resolve_view(root, words_view(line.subrange(0, k)));
    let offered = offered_view(root, line, pos);
    assert(offered == flag_view(current));
    lemma_add_globals_names(long_flags_view(current.args@), global_flags_view());
    let kept = with_prefix(offered, word);
    lemma_sort_sorted_perm(kept);
    lemma_completions_sorted_and_prefixed(root, line, pos);
    let out = completions_view(root, line, pos);
    let globals = seq!["--json"@, "--tsv"@, "--quiet"@, "--verbose"@];
    assert forall|g: int| 0 <= g < 4 && word.is_prefix_of(#[trigger] globals[g]) implies exists|t: int|
        0 <= t < out.len() && (#[trigger] out[t]).0 == globals[g] by {
        assert(global_flags_view()[g].0 == globals[g]);
        let t = choose|t: int|
            0 <= t < offered.len() && (#[trigger] offered[t]).0 == global_flags_view()[g].0;
        let x = offered[t];
        assert(offered.contains(x));
        lemma_with_prefix_keeps(offered, word, x);
        assert(kept.to_multiset().count(x) > 0);
        assert(out.to_multiset().count(x) > 0);
        let u = choose|u: int| 0 <= u < out.len() && out[u] == x;
        assert(out[u].0 == globals[g]);
    }
}

} // verus!
