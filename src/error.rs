//! The library's error type. Pattern failures are configuration errors
//! that abort a run; configuration-file failures are kept apart from them
//! so that callers can explain each.

use vstd::prelude::*;

verus! {

#[verifier::external_type_specification]
#[verifier::external_body]
pub struct ExGlobError(globset::Error);

#[verifier::external_type_specification]
#[verifier::external_body]
pub struct ExIoError(std::io::Error);

#[verifier::external_type_specification]
#[verifier::external_body]
pub struct ExYamlError(serde_yaml::Error);

#[derive(Debug)]
pub enum SmarttreeError {
    /// The configuration file at `path` could not be read.
    ConfigRead { path: String, source: std::io::Error },
    /// The configuration file at `path` is not a valid configuration.
    ConfigParse { path: String, source: serde_yaml::Error },
    /// A member glob that does not parse, after normalisation.
    InvalidPattern { pattern: String, source: globset::Error },
    /// The parsed globs could not be compiled together.
    PatternSet { source: globset::Error },
}

} // verus!
