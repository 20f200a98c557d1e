//! The interactive REPL's decisions: what an entered line asks for, how it
//! becomes an `oxis` argument vector, and the command overview listing.

use vstd::prelude::*;
use vstd::string::*;
use crate::completion::CommandSpec;
use crate::text::{chars_equal, chars_of, spec_trim, trim_bounds};

verus! {

/// What the REPL does with one entered line.
pub enum ReplAction {
    /// Blank line: prompt again.
    Skip,
    /// `quit` or `exit`: leave the REPL.
    Quit,
    /// `help`: print the command listing.
    Help,
    /// Anything else: run it (trimmed) as an `oxis` command line.
    Run(String),
}

/// The action a line asks for, decided on the line with surrounding
/// whitespace removed.
pub open spec fn action_kind(line: Seq<char>) -> int {
    let t = spec_trim(line);
    if t.len() == 0 {
        0
    } else if t == "quit"@ || t == "exit"@ {
        1
    } else if t == "help"@ {
        2
    } else {
        3
    }
}

/// Decide what an entered line asks for.
pub fn classify_line(line: &str) -> (r: ReplAction)
    ensures
        action_kind(line@) == 0 <==> r is Skip,
        action_kind(line@) == 1 <==> r is Quit,
        action_kind(line@) == 2 <==> r is Help,
        action_kind(line@) == 3 <==> r is Run,
        r matches ReplAction::Run(cmd) ==> cmd@ == spec_trim(line@),
{
    let cs = chars_of(line);
    let (lo, hi) = trim_bounds(&cs);
    if lo == hi {
        return ReplAction::Skip;
    }
    let mut t: Vec<char> = Vec::new();
    let mut k: usize = lo;
    while k < hi
        invariant
            cs@ == line@,
            lo <= k <= hi <= cs@.len(),
            t@ == cs@.subrange(lo as int, k as int),
        decreases hi - k,
    {
        t.push(cs[k]);
        k = k + 1;
    }
    if chars_equal(&t, "quit") || chars_equal(&t, "exit") {
        ReplAction::Quit
    } else if chars_equal(&t, "help") {
        ReplAction::Help
    } else {
        ReplAction::Run(String::from_str(line.substring_char(lo, hi)))
    }
}

/// The words of a line as a POSIX shell would split them (quotes and
/// backslash escapes honoured), or nothing when the quoting is unbalanced.
pub uninterp spec fn shlex_words(line: Seq<char>) -> Option<Seq<Seq<char>>>;

/// Strings as character sequences.
pub open spec fn strings_view(v: Seq<String>) -> Seq<Seq<char>> {
    v.map_values(|s: String| s@)
}

/// Optional strings as optional character sequences.
pub open spec fn opt_strings_view(o: Option<Vec<String>>) -> Option<Seq<Seq<char>>> {
    match o {
        Some(v) => Some(strings_view(v@)),
        None => None,
    }
}

/// `shlex::split`: split a line into shell words.
#[verifier::external_body]
fn shell_split(line: &str) -> (r: Option<Vec<String>>)
    ensures
        opt_strings_view(r) == shlex_words(line@),
{
    shlex::split(line)
}

/// The argument vector for a line's words: the program name `oxis` first.
pub open spec fn argv_view(words: Option<Seq<Seq<char>>>) -> Option<Seq<Seq<char>>> {
    match words {
        Some(w) => Some(seq!["oxis"@] + w),
        None => None,
    }
}

/// Prefix the program name to a line's words (nothing when the line could not
/// be split).
pub fn argv_from_words(words: Option<Vec<String>>) -> (r: Option<Vec<String>>)
    ensures
        opt_strings_view(r) == argv_view(opt_strings_view(words)),
{
    match words {
        Some(w) => {
            let mut argv: Vec<String> = Vec::new();
            argv.push(String::from_str("oxis"));
            let mut rest = w;
            let ghost orig = rest@;
            let total: usize = rest.len();
            let mut i: usize = 0;
            while rest.len() > 0
                invariant
                    orig.len() == total,
                    i <= total,
                    rest@ == orig.subrange(i as int, total as int),
                    strings_view(argv@) == seq!["oxis"@] + strings_view(orig.subrange(0, i as int)),
                decreases rest@.len(),
            {
                let s = rest.remove(0);
                let ghost before = argv@;
                proof {
                    assert(s == orig[i as int]);
                    assert(rest@ =~= orig.subrange(i + 1, total as int));
                }
                argv.push(s);
                proof {
                    assert(strings_view(argv@) =~= strings_view(before).push(s@));
                    assert(strings_view(orig.subrange(0, i + 1)) =~= strings_view(
                        orig.subrange(0, i as int),
                    ).push(s@));
                }
                i = i + 1;
            }
            proof {
                assert(orig.subrange(0, total as int) == orig);
            }
            Some(argv)
        },
        None => None,
    }
}

/// The `oxis` argument vector for one REPL line: its shell words after the
/// program name, or nothing when the quotes are unbalanced.
pub fn repl_argv(line: &str) -> (r: Option<Vec<String>>)
    ensures
        opt_strings_view(r) == argv_view(shlex_words(line@)),
{
    let words = shell_split(line);
    argv_from_words(words)
}

/// Name and description (empty when absent) of every top-level command.
pub open spec fn overview_view(root: CommandSpec) -> Seq<(Seq<char>, Seq<char>)> {
    root.subcommands@.map_values(
        |c: CommandSpec|
            (
                c.name@,
                match c.about {
                    Some(a) => a@,
                    None => Seq::empty(),
                },
            ),
    )
}

/// String pairs as character-sequence pairs.
pub open spec fn pairs_view(v: Seq<(String, String)>) -> Seq<(Seq<char>, Seq<char>)> {
    v.map_values(|p: (String, String)| (p.0@, p.1@))
}

/// Name + description of every top-level command, in declaration order.
pub fn command_overview(root: &CommandSpec) -> (r: Vec<(String, String)>)
    ensures
        pairs_view(r@) == overview_view(*root),
{
    let mut out: Vec<(String, String)> = Vec::new();
    let mut k: usize = 0;
    while k < root.subcommands.len()
        invariant
            k <= root.subcommands@.len(),
            out@.len() == k,
            pairs_view(out@) == overview_view(*root).subrange(
                0,
                k as int,
            ),
        decreases root.subcommands@.len() - k,
    {
        let c = &root.subcommands[k];
        let about = match &c.about {
            Some(a) => a.clone(),
            None => String::new(),
        };
        let ghost before = out@;
        let entry = (c.name.clone(), about);
        out.push(entry);
        proof {
            assert forall|i: int| 0 <= i < k implies #[trigger] pairs_view(out@)[i]
                == overview_view(*root)[i] by {
                assert(out@[i] == before[i]);
                assert(pairs_view(before)[i] == overview_view(*root).subrange(0, k as int)[i]);
            }
            assert(pairs_view(out@) =~= overview_view(
                *root,
            ).subrange(0, k + 1));
        }
        k = k + 1;
    }
    proof {
        assert(overview_view(*root).subrange(0, k as int) == overview_view(*root));
    }
    out
}

} // verus!
