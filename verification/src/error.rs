//! The errors of the tool, their messages and their exit codes.
use vstd::prelude::*;

use vstd::std_specs::convert::FromSpecImpl;

verus! {

#[verifier::external_type_specification]
#[verifier::external_body]
pub struct ExIoError(std::io::Error);

#[derive(Debug)]
pub enum AppError {
    SfCliNotFound,
    SfCliError { message: String },
    JsonParseError { stderr: String },
    ApiVersionError { message: String },
    NoMetadataTypes,
    NoComponentsSelected,
    OutputPathError { message: String },
    IoError(std::io::Error),
    ValidationError { message: String },
    InheritParseError { path: String, message: String },
    Cancelled,
}

/// The exit code the process ends with for an error.
pub open spec fn spec_exit_code(e: AppError) -> i32 {
    match e {
        AppError::Cancelled => 130,
        _ => 1,
    }
}

/// The message shown for an error (that of an I/O error comes from the error itself).
pub open spec fn error_text(e: AppError) -> Seq<char> {
    match e {
        AppError::SfCliNotFound => "sf CLI not found. Visit https://developer.salesforce.com/tools/salesforcecli to install it."@,
        AppError::SfCliError { message } => message@,
        AppError::JsonParseError { stderr } => stderr@ + "\nThere may be an issue with sf CLI or its plugins. Run 'sf plugins --core' and verify that @salesforce/plugin-org is included."@,
        AppError::ApiVersionError { message } => message@ + "\nPlease specify the API version explicitly with the --api-version option."@,
        AppError::NoMetadataTypes => "No metadata types were found."@,
        AppError::NoComponentsSelected => "No metadata components selected."@,
        AppError::OutputPathError { message } => message@,
        AppError::IoError(_) => Seq::empty(),
        AppError::ValidationError { message } => message@,
        AppError::InheritParseError { path, message } => "Failed to parse "@ + path@ + ": "@ + message@,
        AppError::Cancelled => Seq::empty(),
    }
}

/// The `Display` text of an I/O error.
///
/// Calls `<std::io::Error as Display>::fmt` through `to_string`; nothing is claimed
/// of the text, which comes from the error's kind and payload.
#[verifier::external_body]
fn io_error_text(e: &std::io::Error) -> String {
    e.to_string()
}

impl AppError {
    /// Exit status for this error: 130 when the user cancelled, 1 otherwise.
    pub fn exit_code(&self) -> (code: i32)
        ensures
            code == spec_exit_code(*self),
    {
        match self {
            AppError::Cancelled => 130,
            _ => 1,
        }
    }

    /// The message shown to the user for this error.
    pub fn to_string(&self) -> (s: String)
        ensures
            !(*self is IoError) ==> s@ == error_text(*self),
    {
        match self {
            AppError::SfCliNotFound => String::from_str(
                "sf CLI not found. Visit https://developer.salesforce.com/tools/salesforcecli to install it.",
            ),
            AppError::SfCliError { message } => message.clone(),
            AppError::JsonParseError { stderr } => stderr.clone().concat(
                "\nThere may be an issue with sf CLI or its plugins. Run 'sf plugins --core' and verify that @salesforce/plugin-org is included.",
            ),
            AppError::ApiVersionError { message } => message.clone().concat(
                "\nPlease specify the API version explicitly with the --api-version option.",
            ),
            AppError::NoMetadataTypes => String::from_str("No metadata types were found."),
            AppError::NoComponentsSelected => String::from_str("No metadata components selected."),
            AppError::OutputPathError { message } => message.clone(),
            AppError::IoError(e) => io_error_text(e),
            AppError::ValidationError { message } => message.clone(),
            AppError::InheritParseError { path, message } => String::from_str(
                "Failed to parse ",
            ).concat(path.as_str()).concat(": ").concat(message.as_str()),
            AppError::Cancelled => String::new(),
        }
    }
}

impl From<std::io::Error> for AppError {
    fn from(e: std::io::Error) -> (r: AppError) {
        AppError::IoError(e)
    }
}

impl FromSpecImpl<std::io::Error> for AppError {
    open spec fn obeys_from_spec() -> bool {
        true
    }

    open spec fn from_spec(e: std::io::Error) -> AppError {
        AppError::IoError(e)
    }
}

} // verus!
