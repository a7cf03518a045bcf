//! What can go wrong in a run.

use vstd::prelude::*;
use vstd::string::StringExecFns;

verus! {

/// An error of the operating system's input and output.  The library carries
/// one along without looking inside.
#[verifier::external_type_specification]
#[verifier::external_body]
pub struct ExIoError(std::io::Error);

/// Why a run stopped.
#[derive(Debug)]
pub enum CliError {
    /// A file or stream could not be opened or read.
    Io(std::io::Error),
    /// Nothing to read was named, and nothing was piped in.
    MissingRequiredArgument(String),
    /// Anything else, said in words.
    Other(String),
}

impl From<std::io::Error> for CliError {
    fn from(err: std::io::Error) -> (error: CliError) {
        CliError::Io(err)
    }
}

impl vstd::std_specs::convert::FromSpecImpl<std::io::Error> for CliError {
    open spec fn obeys_from_spec() -> bool {
        true
    }

    open spec fn from_spec(err: std::io::Error) -> CliError {
        CliError::Io(err)
    }
}

/// Asks an input or output error for its description, through its `Display`.
/// The wording is the operating system's, so nothing is claimed of it.
#[verifier::external_body]
fn io_error_text(err: &std::io::Error) -> (text: String) {
    err.to_string()
}

impl CliError {
    /// The heading under which an error of this kind is reported.
    pub open spec fn heading(self) -> Seq<char> {
        match self {
            CliError::Io(_) => "IO error: "@,
            CliError::MissingRequiredArgument(_) => "Missing required argument: "@,
            CliError::Other(_) => "Error: "@,
        }
    }

    /// The error in one line, without decoration: its heading, then the detail.
    pub fn message(&self) -> (text: String)
        ensures
            self.heading().is_prefix_of(text@),
            match self {
                CliError::Io(_) => true,
                CliError::MissingRequiredArgument(detail) => text@ == self.heading() + detail@,
                CliError::Other(detail) => text@ == self.heading() + detail@,
            },
    {
        match self {
            CliError::Io(err) => String::from_str("IO error: ").concat(io_error_text(err).as_str()),
            CliError::MissingRequiredArgument(detail) => String::from_str(
                "Missing required argument: ",
            ).concat(detail.as_str()),
            CliError::Other(detail) => String::from_str("Error: ").concat(detail.as_str()),
        }
    }
}

} // verus!
