//! What one invocation asks for, and the answer to it.

use vstd::prelude::*;
use crate::search::{
    matching_lines, matching_lines_ignoring_case, search, search_case_insensitive,
};
use crate::text::lines_of;

verus! {

/// What one invocation asks for: the text to look for, the file to look in,
/// and whether case counts.
#[derive(Debug)]
pub struct Config {
    pub query: String,
    pub file_path: String,
    pub case_sensitive: bool,
}

/// The message for an argument list without a query.
pub open spec fn missing_query() -> Seq<char> {
    "Didn't get a query string"@
}

/// The message for an argument list with a query and no file.
pub open spec fn missing_file_path() -> Seq<char> {
    "Didn't get a file name"@
}

/// The lines that an invocation with this query and this rule on case gives
/// for a file that holds `contents`.
pub open spec fn answer(query: Seq<char>, case_sensitive: bool, contents: Seq<char>) -> Seq<
    Seq<char>,
> {
    if case_sensitive {
        matching_lines(query, lines_of(contents))
    } else {
        matching_lines_ignoring_case(query, lines_of(contents))
    }
}

impl Config {
    /// The configuration for the arguments `args`, which are those after the
    /// program's name, and for the toggle `ignore_case`, which says whether
    /// the environment asks to ignore case.
    ///
    /// The first argument is the query and the second the file; further
    /// arguments are ignored. Neither is looked at: an empty query and a file
    /// that does not exist are accepted here.
    pub fn new(args: &[String], ignore_case: bool) -> (made: Result<Config, &'static str>)
        ensures
            made is Ok <==> args@.len() >= 2,
            args@.len() == 0 ==> made is Err && made->Err_0@ == missing_query(),
            args@.len() == 1 ==> made is Err && made->Err_0@ == missing_file_path(),
            args@.len() >= 2 ==> made is Ok && made->Ok_0.query@ == args@[0]@
                && made->Ok_0.file_path@ == args@[1]@ && made->Ok_0.case_sensitive
                == !ignore_case,
    {
        if args.len() < 1 {
            return Err("Didn't get a query string");
        }
        if args.len() < 2 {
            return Err("Didn't get a file name");
        }
        Ok(
            Config {
                query: args[0].clone(),
                file_path: args[1].clone(),
                case_sensitive: !ignore_case,
            },
        )
    }
}

/// The lines to print for `config` when its file holds `contents`: those
/// that contain the query, with or without regard to case as `config` says,
/// in the order of `contents`.
pub fn run<'a>(config: &Config, contents: &'a str) -> (lines: Vec<&'a str>)
    ensures
        lines.deep_view() == answer(config.query@, config.case_sensitive, contents@),
{
    if config.case_sensitive {
        search(config.query.as_str(), contents)
    } else {
        search_case_insensitive(config.query.as_str(), contents)
    }
}

} // verus!
