use vstd::prelude::*;
use vstd::string::StringExecFns;

verus! {

/// The error value of this library: one human-readable message.
#[derive(Clone, Debug)]
pub struct CliplyError {
    pub details: String,
}

impl CliplyError {
    /// Makes an error that carries `details` as its message.
    pub fn new(details: &str) -> (r: CliplyError)
        ensures
            r.details@ == details@,
    {
        CliplyError { details: String::from_str(details) }
    }

    /// The message of this error.
    pub fn to_string(self) -> (r: String)
        ensures
            r@ == self.details@,
    {
        self.details
    }
}

impl PartialEq for CliplyError {
    fn eq(&self, other: &CliplyError) -> (r: bool)
        ensures
            r == (self.details@ == other.details@),
    {
        self.details == other.details
    }
}

impl Eq for CliplyError {
}

impl vstd::std_specs::cmp::PartialEqSpecImpl for CliplyError {
    open spec fn obeys_eq_spec() -> bool {
        true
    }

    open spec fn eq_spec(&self, other: &CliplyError) -> bool {
        self.details@ == other.details@
    }
}

} // verus!
