//! Command-line arguments of the server program.

use vstd::prelude::*;
use crate::text::{chars_eq, chars_of};

verus! {

/// What the command line asks for.
#[derive(Debug)]
pub enum CliAction {
    /// Serve incidents stored under this vault directory.
    Run(String),
    /// Print the usage text.
    Help,
}

/// The outcome of reading a command line, as character sequences.
pub enum CliOutcome {
    Run(Seq<char>),
    Help,
    Failure(Seq<char>),
}

/// Reading the arguments `args` with `vault` the vault path seen so far:
/// `--help` or `-h` asks for help, `--vault` takes the next argument as the
/// vault path (a later one replaces an earlier one), anything else is an
/// unknown argument; at the end a vault path is required.
pub open spec fn cli_outcome(args: Seq<Seq<char>>, vault: Option<Seq<char>>) -> CliOutcome
    decreases args.len(),
{
    if args.len() == 0 {
        match vault {
            Some(v) => CliOutcome::Run(v),
            None => CliOutcome::Failure("missing required --vault argument"@),
        }
    } else if args[0] == "--help"@ || args[0] == "-h"@ {
        CliOutcome::Help
    } else if args[0] == "--vault"@ {
        if args.len() < 2 {
            CliOutcome::Failure("--vault requires a path value"@)
        } else {
            cli_outcome(args.skip(2), Some(args[1]))
        }
    } else {
        CliOutcome::Failure("unknown argument: "@ + args[0])
    }
}

/// The outcome a parse result stands for.
pub open spec fn outcome_of(res: Result<CliAction, String>) -> CliOutcome {
    match res {
        Ok(CliAction::Run(v)) => CliOutcome::Run(v@),
        Ok(CliAction::Help) => CliOutcome::Help,
        Err(e) => CliOutcome::Failure(e@),
    }
}

/// Whether `arg` is the literal `lit`.
fn is_arg(arg: &String, lit: &str) -> (res: bool)
    ensures
        res == (arg@ == lit@),
{
    let a = chars_of(arg.as_str());
    let b = chars_of(lit);
    chars_eq(&a, &b)
}

/// Reads the program arguments (without the program name).
pub fn parse_cli_args(args: Vec<String>) -> (res: Result<CliAction, String>)
    ensures
        outcome_of(res) == cli_outcome(crate::text::string_views(args@), None),
{
    let ghost all = crate::text::string_views(args@);
    let mut vault: Option<String> = None;
    let n = args.len();
    let mut i: usize = 0;
    assert(all.skip(0) == all);
    while i < n
        invariant
            n == args@.len(),
            all == crate::text::string_views(args@),
            i <= n,
            cli_outcome(all, None) == cli_outcome(
                all.skip(i as int),
                match vault {
                    Some(v) => Some(v@),
                    None => None,
                },
            ),
        decreases n - i,
    {
        let ghost rest = all.skip(i as int);
        assert(rest[0] == args@[i as int]@);
        if is_arg(&args[i], "--help") || is_arg(&args[i], "-h") {
            return Ok(CliAction::Help);
        } else if is_arg(&args[i], "--vault") {
            if i + 1 >= n {
                return Err(String::from_str("--vault requires a path value"));
            }
            assert(rest[1] == args@[i + 1]@);
            assert(rest.skip(2) == all.skip(i + 2));
            vault = Some(args[i + 1].clone());
            i = i + 2;
        } else {
            let mut message = String::from_str("unknown argument: ");
            message.append(args[i].as_str());
            return Err(message);
        }
    }
    assert(all.skip(i as int).len() == 0);
    match vault {
        Some(v) => Ok(CliAction::Run(v)),
        None => Err(String::from_str("missing required --vault argument")),
    }
}

/// The one-line usage text.
pub fn usage() -> (res: &'static str)
    ensures
        res@ == "Usage: living-postmortem-mcp --vault <path>"@,
{
    "Usage: living-postmortem-mcp --vault <path>"
}

/// `args[k]` is `--vault` and `args[k + 1]` is `path`.
pub open spec fn vault_given_at(args: Seq<Seq<char>>, k: int, path: Seq<char>) -> bool {
    0 <= k && k + 1 < args.len() && args[k] == "--vault"@ && args[k + 1] == path
}

/// A command line that runs the server names the vault with `--vault`: the
/// vault path is the argument right after some `--vault`.
pub proof fn lemma_run_needs_vault(args: Seq<Seq<char>>, path: Seq<char>)
    requires
        cli_outcome(args, None) == CliOutcome::Run(path),
    ensures
        exists|k: int| vault_given_at(args, k, path),
{
    lemma_run_from(args, None, path);
}

/// Reading from a state with vault `vault`, a run ends with the vault given
/// last, or with `vault` itself when no `--vault` follows.
proof fn lemma_run_from(args: Seq<Seq<char>>, vault: Option<Seq<char>>, path: Seq<char>)
    requires
        cli_outcome(args, vault) == CliOutcome::Run(path),
    ensures
        vault == Some(path) || exists|k: int| vault_given_at(args, k, path),
    decreases args.len(),
{
    if args.len() > 0 && args[0] == "--vault"@ && args.len() >= 2 && !(args[0] == "--help"@
        || args[0] == "-h"@) {
        let rest = args.skip(2);
        lemma_run_from(rest, Some(args[1]), path);
        if Some(args[1]) == Some(path) {
            assert(vault_given_at(args, 0, path));
        } else {
            let k = choose|k: int| vault_given_at(rest, k, path);
            assert(args[k + 2] == rest[k] && args[k + 3] == rest[k + 1]);
            assert(vault_given_at(args, k + 2, path));
        }
    }
}

/// Asking for help: a command line that reaches `--help` or `-h` asks for
/// help, whatever follows and whether or not a vault was given before it.
pub proof fn lemma_help_wins(rest: Seq<Seq<char>>, vault: Option<Seq<char>>)
    ensures
        cli_outcome(seq!["--help"@] + rest, vault) == CliOutcome::Help,
        cli_outcome(seq!["-h"@] + rest, vault) == CliOutcome::Help,
{
    assert((seq!["--help"@] + rest)[0] == "--help"@);
    assert((seq!["-h"@] + rest)[0] == "-h"@);
}

/// A `--vault <path>` pair sets the vault, replacing one given before, and
/// reading goes on after it.
pub proof fn lemma_vault_pair(path: Seq<char>, rest: Seq<Seq<char>>, vault: Option<Seq<char>>)
    ensures
        cli_outcome(seq!["--vault"@, path] + rest, vault) == cli_outcome(rest, Some(path)),
{
    reveal_strlit("--vault");
    reveal_strlit("--help");
    reveal_strlit("-h");
    let args = seq!["--vault"@, path] + rest;
    assert(args[0] == "--vault"@);
    assert(args[1] == path);
    assert(args.skip(2) =~= rest);
    assert("--vault"@ != "--help"@) by {
        assert("--vault"@[2] != "--help"@[2]);
    }
    assert("--vault"@ != "-h"@) by {
        assert("--vault"@.len() != "-h"@.len());
    }
}

/// Help is asked for after any number of `--vault <path>` pairs too: the
/// outcome on reaching `--help` does not depend on the vaults given.
pub proof fn lemma_help_after_vaults(
    pairs: Seq<Seq<char>>,
    rest: Seq<Seq<char>>,
    vault: Option<Seq<char>>,
)
    requires
        pairs.len() % 2 == 0,
        forall|k: int| 0 <= k < pairs.len() && k % 2 == 0 ==> #[trigger] pairs[k] == "--vault"@,
    ensures
        cli_outcome(pairs + seq!["--help"@] + rest, vault) == CliOutcome::Help,
    decreases pairs.len(),
{
    if pairs.len() == 0 {
        assert(pairs + seq!["--help"@] + rest =~= seq!["--help"@] + rest);
        lemma_help_wins(rest, vault);
    } else {
        let tail = pairs.skip(2);
        assert forall|k: int| 0 <= k < tail.len() && k % 2 == 0 implies #[trigger] tail[k]
            == "--vault"@ by {
            assert(tail[k] == pairs[k + 2]);
        }
        assert(pairs[0] == "--vault"@);
        lemma_help_after_vaults(tail, rest, Some(pairs[1]));
        assert(pairs + seq!["--help"@] + rest =~= seq!["--vault"@, pairs[1]] + (tail + seq![
            "--help"@,
        ] + rest));
        lemma_vault_pair(pairs[1], tail + seq!["--help"@] + rest, vault);
    }
}

} // verus!
