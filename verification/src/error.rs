//! The error that the service reports to its operator.

use vstd::prelude::*;
use vstd::string::StringExecFns;

verus! {

/// What went wrong, by area, each with its detail as text.
#[derive(Clone, Debug)]
pub enum RapidCronError {
    Config(String),
    Database(String),
    Serialization(String),
    Io(String),
    Scheduling(String),
    Execution(String),
    Network(String),
    Validation(String),
}

impl RapidCronError {
    /// The words that introduce the detail in a message.
    pub open spec fn prefix(self) -> Seq<char> {
        match self {
            RapidCronError::Config(_) => "Configuration error: "@,
            RapidCronError::Database(_) => "Database error: "@,
            RapidCronError::Serialization(_) => "Serialization error: "@,
            RapidCronError::Io(_) => "IO error: "@,
            RapidCronError::Scheduling(_) => "Task scheduling error: "@,
            RapidCronError::Execution(_) => "Task execution error: "@,
            RapidCronError::Network(_) => "Network error: "@,
            RapidCronError::Validation(_) => "Validation error: "@,
        }
    }

    /// The detail that the error carries.
    pub open spec fn detail(self) -> Seq<char> {
        match self {
            RapidCronError::Config(d) => d@,
            RapidCronError::Database(d) => d@,
            RapidCronError::Serialization(d) => d@,
            RapidCronError::Io(d) => d@,
            RapidCronError::Scheduling(d) => d@,
            RapidCronError::Execution(d) => d@,
            RapidCronError::Network(d) => d@,
            RapidCronError::Validation(d) => d@,
        }
    }

    /// The message for the operator: the area, then the detail.
    pub fn message(&self) -> (text: String)
        ensures
            text@ == self.prefix() + self.detail(),
    {
        match self {
            RapidCronError::Config(d) => String::from_str("Configuration error: ").concat(
                d.as_str(),
            ),
            RapidCronError::Database(d) => String::from_str("Database error: ").concat(d.as_str()),
            RapidCronError::Serialization(d) => String::from_str("Serialization error: ").concat(
                d.as_str(),
            ),
            RapidCronError::Io(d) => String::from_str("IO error: ").concat(d.as_str()),
            RapidCronError::Scheduling(d) => String::from_str("Task scheduling error: ").concat(
                d.as_str(),
            ),
            RapidCronError::Execution(d) => String::from_str("Task execution error: ").concat(
                d.as_str(),
            ),
            RapidCronError::Network(d) => String::from_str("Network error: ").concat(d.as_str()),
            RapidCronError::Validation(d) => String::from_str("Validation error: ").concat(
                d.as_str(),
            ),
        }
    }
}

} // verus!
