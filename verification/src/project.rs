//! Which project a process works for.

use vstd::prelude::*;

use crate::config::{first_set, first_value};
use crate::text;
use crate::text::{opt_text, texts, trimmed};

verus! {

/// The project's directory: the first candidate that is there and not blank, else the
/// working directory, else the current one.
pub open spec fn project_dir(candidates: Seq<Option<String>>, cwd: Option<String>) -> Seq<char> {
    match first_value(candidates, 0) {
        Some(d) => d,
        None => match cwd {
            Some(d) => d@,
            None => "."@,
        },
    }
}

/// Picks the project's directory.
pub fn pick_project_dir(candidates: &Vec<Option<String>>, cwd: Option<String>) -> (r: String)
    ensures
        r@ == project_dir(candidates@, cwd),
{
    match first_set(candidates) {
        Some(d) => d,
        None => match cwd {
            Some(d) => d,
            None => ".".to_owned(),
        },
    }
}

/// The argument names a directory: it is not blank, no flag and no subcommand.
pub open spec fn names_dir(arg: Seq<char>) -> bool {
    let a = trimmed(arg);
    a.len() > 0 && a != "observer"@ && a != "daemon"@ && a != "observer-daemon"@
        && !"-"@.is_prefix_of(a)
}

/// The first argument from `from` on that names a directory.
pub open spec fn dir_argument(args: Seq<Seq<char>>, from: int) -> Option<Seq<char>>
    decreases args.len() - from,
{
    if from < 0 || from >= args.len() {
        None
    } else if names_dir(args[from]) {
        Some(args[from])
    } else {
        dir_argument(args, from + 1)
    }
}

/// The first argument, behind the program's name, that names a directory.
pub fn positional_project_override(args: &Vec<String>) -> (r: Option<String>)
    ensures
        opt_text(r) == dir_argument(texts(args@), 1),
{
    let ghost all = texts(args@);
    let mut i: usize = 1;
    while i < args.len()
        invariant
            all == texts(args@),
            1 <= i,
            dir_argument(all, 1) == dir_argument(all, i as int),
        decreases args.len() - i,
    {
        assert(all[i as int] == args@[i as int]@);
        let a: String = text::trim(&args[i]);
        if !a.as_str().is_empty() && !text::same(&a, "observer") && !text::same(&a, "daemon")
            && !text::same(&a, "observer-daemon") && !text::starts_with(&a, "-") {
            return Some(args[i].clone());
        }
        i += 1;
    }
    None
}

} // verus!
