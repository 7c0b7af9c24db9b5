use vstd::prelude::*;

verus! {

#[verifier::external_type_specification]
#[verifier::external_body]
pub struct ExJsonError(serde_json::Error);

/// Errors raised while reading a Compass configuration.
#[derive(Debug)]
pub enum CompassConfigurationError {
    /// the field (first) that the component (second) needs is missing
    ExpectedFieldForComponent(String, String),
    /// the field (first) does not hold a value of the type (second)
    ExpectedFieldWithType(String, String),
    /// the file (first) named at a key (second) of a component (third) was not found
    FileNotFoundForComponent(String, String, String),
    /// the path of a file could not be normalized
    FileNormalizationError(String),
    /// a configuration section could not be deserialized
    SerdeDeserializationError(serde_json::Error),
}

} // verus!
