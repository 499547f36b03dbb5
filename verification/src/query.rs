//! What the command line asks for.

use vstd::prelude::*;

verus! {

/// A request to run a file.
pub struct Query {
    pub filename: String,
}

/// The request that the arguments of the program make: the first argument
/// after the program's own name is the file to run.
pub fn parse_query(args: &[String]) -> (out: Option<Query>)
    ensures
        match out {
            Some(query) => args@.len() >= 2 && query.filename@ == args@[1]@,
            None => args@.len() < 2,
        },
{
    if args.len() < 2 {
        return None;
    }
    let filename = args[1].clone();
    Some(Query { filename })
}

} // verus!
