//! The deployment environments the service distinguishes.  Reading
//! the actual configuration (ports, secrets, mail transports) is
//! environment I/O and lives with the binary around the library.

use vstd::prelude::*;

verus! {

/// Which deployment environment the service runs in; `Test` switches
/// the surrounding binary to its test stores and transports.
#[derive(Clone, Copy, Debug, PartialEq, Eq, Structural)]
pub enum Environment {
    Development,
    Test,
    Production,
}

/// The lower-case display name of each environment.
pub open spec fn spec_environment_name(e: Environment) -> Seq<char> {
    match e {
        Environment::Development => "development"@,
        Environment::Test => "test"@,
        Environment::Production => "production"@,
    }
}

impl Environment {
    /// The lower-case display name; stands in for `Display`.
    pub fn name(&self) -> (n: &'static str)
        ensures
            n@ == spec_environment_name(*self),
    {
        match self {
            Environment::Development => "development",
            Environment::Test => "test",
            Environment::Production => "production",
        }
    }
}

} // verus!
