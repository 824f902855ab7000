//! Deciding which query a raw argument list asks for.

use vstd::prelude::*;

use crate::numbers::{parse_usize, parse_usize_spec};

verus! {

/// One user request, decided from the raw argument list (the program name
/// included as the first argument).
#[derive(Debug, PartialEq)]
pub enum Command {
    /// No arguments: list every sheet with its outline.
    List,
    /// One numeric argument: show that sheet's outline.
    Outline(usize),
    /// Two arguments, a sheet index and a section number: show that section,
    /// or the whole sheet for the literal `"0"`.
    Fetch(usize, String),
    /// A sheet index argument that is not a non-negative integer.
    BadIndex,
    /// Any other argument shape.
    Usage,
}

/// Routes an argument list to the query it asks for. The variant returned
/// characterizes the arguments exactly: the match below is two-way.
pub fn route(args: &Vec<String>) -> (c: Command)
    ensures
        ({
            let a = args.deep_view();
            match c {
                Command::List => a.len() == 1,
                Command::Outline(i) => a.len() == 2 && parse_usize_spec(a[1]) == Some(i),
                Command::Fetch(i, s) => a.len() == 3 && parse_usize_spec(a[1]) == Some(i) && s@
                    == a[2],
                Command::BadIndex => (a.len() == 2 || a.len() == 3) && parse_usize_spec(a[1])
                    is None,
                Command::Usage => a.len() == 0 || a.len() > 3,
            }
        }),
{
    let ghost a = args.deep_view();
    if args.len() == 1 {
        Command::List
    } else if args.len() == 2 {
        proof {
            assert(a[1] == args@[1]@);
        }
        match parse_usize(args[1].as_str()) {
            Some(i) => Command::Outline(i),
            None => Command::BadIndex,
        }
    } else if args.len() == 3 {
        proof {
            assert(a[1] == args@[1]@);
            assert(a[2] == args@[2]@);
        }
        match parse_usize(args[1].as_str()) {
            Some(i) => Command::Fetch(i, args[2].clone()),
            None => Command::BadIndex,
        }
    } else {
        Command::Usage
    }
}

} // verus!
