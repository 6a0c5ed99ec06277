use vstd::prelude::*;

use crate::inserter::names_view;

verus! {

/// The run configuration: the target directory to walk, whether to only
/// report changes (dry run), and whether to confirm each write (verbose).
pub struct Cli {
    pub target: String,
    pub dry_run: bool,
    pub verbose: bool,
}

/// The meaning of an argument list, scanned left to right from position `i`
/// with the given state. `--target`/`-t` takes the next argument as the new
/// target and at the end of the list is dropped; `--dry-run`/`-d` and
/// `--verbose`/`-v` set their flags; anything else is ignored.
pub open spec fn parse_args_from(
    args: Seq<Seq<char>>,
    i: int,
    target: Seq<char>,
    dry_run: bool,
    verbose: bool,
) -> (Seq<char>, bool, bool)
    decreases args.len() - i,
{
    if i < 0 || i >= args.len() {
        (target, dry_run, verbose)
    } else if args[i] == "--target"@ || args[i] == "-t"@ {
        if i + 1 < args.len() {
            parse_args_from(args, i + 2, args[i + 1], dry_run, verbose)
        } else {
            (target, dry_run, verbose)
        }
    } else if args[i] == "--dry-run"@ || args[i] == "-d"@ {
        parse_args_from(args, i + 1, target, true, verbose)
    } else if args[i] == "--verbose"@ || args[i] == "-v"@ {
        parse_args_from(args, i + 1, target, dry_run, true)
    } else {
        parse_args_from(args, i + 1, target, dry_run, verbose)
    }
}

fn arg_is(a: &String, lit: &str) -> (r: bool)
    ensures
        r == (a@ == lit@),
{
    let l = String::from_str(lit);
    *a == l
}

impl Cli {
    /// Parse an argument list. The first element is the program name and is
    /// skipped; the target defaults to `src`, both flags to off. Unknown
    /// arguments are skipped rather than rejected, so a stricter front end
    /// may refuse an argument list that this function accepts.
    pub fn parse_from(args: Vec<String>) -> (r: Cli)
        ensures
            ({
                let m = parse_args_from(names_view(args@), 1, "src"@, false, false);
                r.target@ == m.0 && r.dry_run == m.1 && r.verbose == m.2
            }),
    {
        let ghost av = names_view(args@);
        let mut target = String::from_str("src");
        let mut dry_run = false;
        let mut verbose = false;
        let mut i: usize = 1;
        while i < args.len()
            invariant
                i >= 1,
                av == names_view(args@),
                parse_args_from(av, 1, "src"@, false, false) == parse_args_from(
                    av,
                    i as int,
                    target@,
                    dry_run,
                    verbose,
                ),
            decreases args@.len() - i,
        {
            proof {
                assert(av[i as int] == args@[i as int]@);
            }
            let a = &args[i];
            if arg_is(a, "--target") || arg_is(a, "-t") {
                if i + 1 < args.len() {
                    proof {
                        assert(av[i as int + 1] == args@[i as int + 1]@);
                    }
                    target = args[i + 1].clone();
                    i += 2;
                } else {
                    i += 1;
                }
            } else if arg_is(a, "--dry-run") || arg_is(a, "-d") {
                dry_run = true;
                i += 1;
            } else if arg_is(a, "--verbose") || arg_is(a, "-v") {
                verbose = true;
                i += 1;
            } else {
                i += 1;
            }
        }
        Cli { target, dry_run, verbose }
    }
}

} // verus!
