//! The one piece of startup logic with a decision in it: finding the
//! `--directory` value in an argument list.  Reading the process arguments
//! themselves stays with the caller.

use vstd::prelude::*;

use crate::strutil::str_eq;

verus! {

/// The least index at or after `i` of an argument equal to `--directory`.
pub open spec fn find_directory_flag(args: Seq<Seq<char>>, i: int) -> Option<int>
    decreases args.len() - i,
{
    if i < 0 || i >= args.len() {
        None
    } else if args[i] == "--directory"@ {
        Some(i)
    } else {
        find_directory_flag(args, i + 1)
    }
}

/// The value following the first `--directory` flag in `args`, or an error
/// when the flag is missing or is the last argument.
pub fn get_directory_arg(args: &Vec<String>) -> (r: Result<String, &'static str>)
    ensures
        match find_directory_flag(args.deep_view(), 0) {
            Some(i) => if i + 1 < args.deep_view().len() {
                r matches Ok(d) && d@ == args.deep_view()[i + 1]
            } else {
                r is Err
            },
            None => r is Err,
        },
{
    let mut i: usize = 0;
    while i < args.len()
        invariant
            i <= args.len(),
            find_directory_flag(args.deep_view(), 0) == find_directory_flag(
                args.deep_view(),
                i as int,
            ),
        decreases args.len() - i,
    {
        let a: &String = &args[i];
        proof {
            assert(a@ == args.deep_view()[i as int]);
        }
        if str_eq(a.as_str(), "--directory") {
            if i + 1 < args.len() {
                let d = args[i + 1].clone();
                proof {
                    assert(d@ == args.deep_view()[i + 1]);
                }
                return Ok(d);
            }
            return Err("No directory argument found");
        }
        i += 1;
    }
    Err("No directory argument found")
}

} // verus!
