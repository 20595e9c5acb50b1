//! The output file: the checks made on its path before writing, and the path the
//! user types in.
use vstd::prelude::*;

use crate::error::AppError;
use crate::text::{string_of, trim_string, trimmed};

verus! {

pub open spec fn directory_message(path: Seq<char>) -> Seq<char> {
    path + " is a directory."@
}

pub open spec fn exists_message(path: Seq<char>) -> Seq<char> {
    path + " already exists."@
}

pub open spec fn missing_parent_message(parent: Seq<char>) -> Seq<char> {
    "Directory "@ + parent + " does not exist."@
}

/// The directory the output file goes to: its parent, or `.` for a bare file name.
pub open spec fn parent_dir(parent: Option<Seq<char>>) -> Seq<char> {
    match parent {
        Some(p) => if p.len() > 0 {
            p
        } else {
            "."@
        },
        None => "."@,
    }
}

/// The directory to check for a path whose parent component is `parent`
/// (as `Path::parent` gives it): that parent, or `.` where it is empty or absent.
pub fn output_parent(parent: Option<&str>) -> (r: String)
    ensures
        r@ == parent_dir(
            match parent {
                Some(p) => Some(p@),
                None => None,
            },
        ),
{
    match parent {
        Some(p) => {
            if p.unicode_len() > 0 {
                string_of(p)
            } else {
                string_of(".")
            }
        },
        None => string_of("."),
    }
}

/// Validates the output file path, given what the file system says of it: whether
/// `path` is a directory, whether it exists, and whether `parent` (the directory it
/// goes to, see `output_parent`) is a directory.
///
/// Checks (in order):
/// 1. Path is not a directory
/// 2. File does not already exist
/// 3. Parent directory exists
pub fn validate_output_path(
    path: &str,
    is_dir: bool,
    exists: bool,
    parent: &str,
    parent_is_dir: bool,
) -> (r: Result<(), AppError>)
    ensures
        is_dir ==> (r matches Err(AppError::OutputPathError { message }) && message@
            == directory_message(path@)),
        !is_dir && exists ==> (r matches Err(AppError::OutputPathError { message }) && message@
            == exists_message(path@)),
        !is_dir && !exists && !parent_is_dir ==> (r matches Err(AppError::OutputPathError { message })
            && message@ == missing_parent_message(parent@)),
        !is_dir && !exists && parent_is_dir ==> r is Ok,
{
    if is_dir {
        return Err(AppError::OutputPathError { message: string_of(path).concat(" is a directory.") });
    }
    if exists {
        return Err(AppError::OutputPathError { message: string_of(path).concat(" already exists.") });
    }
    if !parent_is_dir {
        return Err(
            AppError::OutputPathError {
                message: string_of("Directory ").concat(parent).concat(" does not exist."),
            },
        );
    }
    Ok(())
}

pub open spec fn empty_path_message() -> Seq<char> {
    "Please enter an output file path."@
}

/// The output path from the line the user typed: the line trimmed, which must not
/// be empty.
pub fn output_path_from_input(line: &str) -> (r: Result<String, AppError>)
    ensures
        trimmed(line@).len() == 0 ==> (r matches Err(AppError::OutputPathError { message })
            && message@ == empty_path_message()),
        trimmed(line@).len() > 0 ==> (r matches Ok(p) && p@ == trimmed(line@)),
{
    let t = trim_string(line);
    if t.unicode_len() == 0 {
        return Err(AppError::OutputPathError { message: string_of("Please enter an output file path.") });
    }
    Ok(t)
}

} // verus!
