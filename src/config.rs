//! The search settings taken from the command line.
use vstd::prelude::*;

verus! {

/// What to look for and where: the query and the path of the file to search.
pub struct Config {
    pub query: String,
    pub filename: String,
}

impl Config {
    /// Reads the query and the file path from the raw arguments, whose first
    /// element is the program name. Arguments beyond the path are ignored.
    pub fn new(args: &[String]) -> (r: Result<Config, &'static str>)
        ensures
            args@.len() < 3 <==> r is Err,
            r matches Ok(c) ==> c.query@ == args@[1]@ && c.filename@ == args@[2]@,
            r matches Err(e) ==> e@ == "not enough arguments"@,
    {
        if args.len() < 3 {
            return Err("not enough arguments");
        }
        let query = args[1].clone();
        let filename = args[2].clone();
        Ok(Config { query, filename })
    }
}

} // verus!
