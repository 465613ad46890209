//! The command line: the repository's path, how many commits to load,
//! and whether to print the graph and exit.

use vstd::prelude::*;
use crate::repo::DEFAULT_COMMIT_LIMIT;
use crate::text::{begins_with, chars_of, parse_usize, parsed_usize, same_chars, slice_chars, starts_with, string_of};

verus! {

broadcast use vstd::string::group_string_axioms;

/// What the arguments from the `i`-th on make of the path, the limit and
/// the debug flag read so far: `--debug-graph` sets the flag, `--all` or
/// `-a` lifts the limit, `-n N` or `-nN` sets it (a number that does not
/// parse is ignored), any other argument not starting with `-` is the
/// path, and the rest are ignored.
pub open spec fn parse_from(
    args: Seq<Seq<char>>,
    i: int,
    path: Seq<char>,
    limit: Option<usize>,
    debug: bool,
) -> (Seq<char>, Option<usize>, bool)
    decreases args.len() - i,
{
    if i < 0 || i >= args.len() {
        (path, limit, debug)
    } else {
        let a = args[i];
        if a == "--debug-graph"@ {
            parse_from(args, i + 1, path, limit, true)
        } else if a == "--all"@ || a == "-a"@ {
            parse_from(args, i + 1, path, None, debug)
        } else if a == "-n"@ {
            if i + 1 < args.len() {
                let l = match parsed_usize(args[i + 1]) {
                    Some(n) => Some(n),
                    None => limit,
                };
                parse_from(args, i + 2, path, l, debug)
            } else {
                parse_from(args, i + 1, path, limit, debug)
            }
        } else if begins_with(a, "-n"@) {
            let l = match parsed_usize(a.skip(2)) {
                Some(n) => Some(n),
                None => limit,
            };
            parse_from(args, i + 1, path, l, debug)
        } else if !begins_with(a, "-"@) {
            parse_from(args, i + 1, a, limit, debug)
        } else {
            parse_from(args, i + 1, path, limit, debug)
        }
    }
}

/// What the command line (the program's name first) asks for: the path
/// (`.` by default), the commit limit (the default one unless changed),
/// and whether to print the graph.
pub open spec fn parsed_args(args: Seq<Seq<char>>) -> (Seq<char>, Option<usize>, bool) {
    parse_from(args, 1, "."@, Some(DEFAULT_COMMIT_LIMIT), false)
}

/// Whether a string is the literal `lit`.
fn is(a: &Vec<char>, lit: &str) -> (r: bool)
    ensures
        r == (a@ == lit@),
{
    same_chars(a, &chars_of(lit))
}

/// Parse command line arguments
/// Returns (repo_path, commit_limit, debug_graph)
pub fn parse_args(args: &Vec<String>) -> (r: (String, Option<usize>, bool))
    ensures
        (r.0@, r.1, r.2) == parsed_args(args@.map_values(|s: String| s@)),
{
    let ghost av = args@.map_values(|s: String| s@);
    let mut path: Vec<char> = chars_of(".");
    let mut limit: Option<usize> = Some(DEFAULT_COMMIT_LIMIT);
    let mut debug_graph = false;
    let mut i: usize = 1;
    while i < args.len()
        invariant
            av == args@.map_values(|s: String| s@),
            parse_from(av, i as int, path@, limit, debug_graph) == parsed_args(av),
        decreases args.len() - i,
    {
        let a = chars_of(args[i].as_str());
        proof {
            assert(av[i as int] == a@);
        }
        if is(&a, "--debug-graph") {
            debug_graph = true;
            i += 1;
        } else if is(&a, "--all") || is(&a, "-a") {
            limit = None;
            i += 1;
        } else if is(&a, "-n") {
            if i + 1 < args.len() {
                proof {
                    assert(av[i + 1] == args@[i + 1]@);
                }
                match parse_usize(&chars_of(args[i + 1].as_str())) {
                    Some(n) => {
                        limit = Some(n);
                    },
                    None => {},
                }
                i += 2;
            } else {
                i += 1;
            }
        } else if starts_with(&a, &chars_of("-n")) {
            proof {
                reveal_strlit("-n");
            }
            let rest = slice_chars(&a, 2, a.len());
            proof {
                assert(rest@ =~= a@.skip(2));
            }
            match parse_usize(&rest) {
                Some(n) => {
                    limit = Some(n);
                },
                None => {},
            }
            i += 1;
        } else if !starts_with(&a, &chars_of("-")) {
            path = a;
            i += 1;
        } else {
            i += 1;
        }
    }
    (string_of(&path), limit, debug_graph)
}

} // verus!
