//! The options of a run.
use vstd::prelude::*;

verus! {

/// What a run works on: the draft to lint, optionally a file of new events
/// to merge into it, whether to log in detail, and how many errors to
/// report before giving up.
#[derive(Clone, Debug, PartialEq, Eq)]
pub struct Args {
    pub draft: String,
    pub new_events_file: Option<String>,
    pub debug: bool,
    pub error_limit: u16,
}

impl Args {
    pub fn new(draft: String, new_events_file: Option<String>, debug: bool, error_limit: u16) -> (r: Args)
        ensures
            r.draft == draft,
            r.new_events_file == new_events_file,
            r.debug == debug,
            r.error_limit == error_limit,
    {
        Args { draft, new_events_file, debug, error_limit }
    }

    pub fn draft(&self) -> (r: &String)
        ensures
            *r == self.draft,
    {
        &self.draft
    }

    pub fn new_events_file(&self) -> (r: &Option<String>)
        ensures
            *r == self.new_events_file,
    {
        &self.new_events_file
    }

    pub fn debug(&self) -> (r: bool)
        ensures
            r == self.debug,
    {
        self.debug
    }

    pub fn error_limit(&self) -> (r: u16)
        ensures
            r == self.error_limit,
    {
        self.error_limit
    }
}

} // verus!
