//! The options of `sf-pkgen generate`, and the rules that tie them together.
use vstd::prelude::*;

use crate::error::AppError;
use crate::text::string_of;

verus! {

/// The options of `generate`, as parsed from the command line.
#[derive(Debug, Clone)]
pub struct GenerateArgs {
    /// Target org alias or username
    pub target_org: Option<String>,
    /// API version (e.g. "62.0")
    pub api_version: Option<String>,
    /// Output file path
    pub output_file: Option<String>,
    /// A package.xml whose selections are taken as the starting point
    pub inherit: Option<String>,
    /// Run in non-interactive mode (requires --all or --types, and --output-file)
    pub non_interactive: bool,
    /// Select all metadata types (non-interactive mode only)
    pub all: bool,
    /// Metadata types to select (non-interactive mode only)
    pub types: Option<Vec<String>>,
}

pub open spec fn requires_non_interactive_message() -> Seq<char> {
    "--all and --types require --non-interactive."@
}

pub open spec fn missing_selection_message() -> Seq<char> {
    "In non-interactive mode, specify --all or --types."@
}

pub open spec fn missing_output_message() -> Seq<char> {
    "In non-interactive mode, --output-file is required."@
}

/// The message of the first rule the options break, if any: `--all` and `--types`
/// need `--non-interactive`, which needs one of them and `--output-file`.
pub open spec fn args_problem(args: GenerateArgs) -> Option<Seq<char>> {
    if !args.non_interactive && (args.all || args.types is Some) {
        Some(requires_non_interactive_message())
    } else if args.non_interactive && !args.all && args.types is None {
        Some(missing_selection_message())
    } else if args.non_interactive && args.output_file is None {
        Some(missing_output_message())
    } else {
        None
    }
}

/// Checks the rules between the options of non-interactive mode.
pub fn validate_args(args: &GenerateArgs) -> (r: Result<(), AppError>)
    ensures
        match args_problem(*args) {
            None => r is Ok,
            Some(m) => r matches Err(AppError::ValidationError { message }) && message@ == m,
        },
{
    if !args.non_interactive && (args.all || args.types.is_some()) {
        return Err(
            AppError::ValidationError {
                message: string_of("--all and --types require --non-interactive."),
            },
        );
    }
    if args.non_interactive {
        if !args.all && args.types.is_none() {
            return Err(
                AppError::ValidationError {
                    message: string_of("In non-interactive mode, specify --all or --types."),
                },
            );
        }
        if args.output_file.is_none() {
            return Err(
                AppError::ValidationError {
                    message: string_of("In non-interactive mode, --output-file is required."),
                },
            );
        }
    }
    Ok(())
}

} // verus!
