//! Error type of the process-configuration provider. Reading and parsing
//! the configuration itself is outside work at the process rim; only the
//! error it reports lives here.

use vstd::prelude::*;

verus! {

/// A configuration failure, carrying its description.
pub struct ConfigError {
    message: String,
}

impl View for ConfigError {
    type V = Seq<char>;

    closed spec fn view(&self) -> Seq<char> {
        self.message@
    }
}

impl ConfigError {
    pub fn new(message: String) -> (e: ConfigError)
        ensures
            e@ == message@,
    {
        ConfigError { message }
    }

    pub fn message(&self) -> (m: &str)
        ensures
            m@ == self@,
    {
        self.message.as_str()
    }
}

} // verus!
