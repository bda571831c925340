//! Checks on the input and output paths of a run.

use vstd::prelude::*;

use crate::config::MAX_FILE_SIZE_BYTES;
use crate::error::{AppError, PathStatus};
use crate::paths::{extension_of, path_extension};
use crate::text::{ascii_lowercase, chars_of, chars_equal, string_from_chars, to_ascii_lowercase};

verus! {

/// The lower-cased extension of a path, if it has one.
pub open spec fn lower_extension(p: Seq<char>) -> Option<Seq<char>> {
    match path_extension(p) {
        Some(e) => Some(ascii_lowercase(e)),
        None => None,
    }
}

/// The message given for a path without an extension.
pub open spec fn no_extension_message(p: Seq<char>) -> Seq<char> {
    "file has no extension: "@ + p
}

/// The extension of `path`, lower-cased; a path without one is an invalid
/// argument.
pub fn extension(path: &str) -> (r: Result<String, AppError>)
    ensures
        match lower_extension(path@) {
            Some(e) => r matches Ok(s) && s@ == e,
            None => r matches Err(AppError::InvalidArgument { message }) && message@
                == no_extension_message(path@),
        },
{
    match extension_of(path) {
        Some(e) => {
            let l = to_ascii_lowercase(&chars_of(e.as_str()));
            Ok(string_from_chars(l.as_slice()))
        },
        None => {
            let mut v = chars_of("file has no extension: ");
            let p = chars_of(path);
            let ghost start = v@;
            let mut i: usize = 0;
            while i < p.len()
                invariant
                    i <= p.len(),
                    v@ == start + p@.take(i as int),
                decreases p.len() - i,
            {
                v.push(p[i]);
                i = i + 1;
                assert(v@ =~= start + p@.take(i as int));
            }
            assert(p@.take(p.len() as int) =~= p@);
            Err(AppError::InvalidArgument { message: string_from_chars(v.as_slice()) })
        },
    }
}

/// Checks that the output has the same (case-insensitive) extension as the
/// input.
pub fn validate_output_format(input: &str, output: &str) -> (r: Result<(), AppError>)
    ensures
        match (lower_extension(input@), lower_extension(output@)) {
            (None, _) => r matches Err(AppError::InvalidArgument { message }) && message@
                == no_extension_message(input@),
            (Some(_), None) => r matches Err(AppError::InvalidArgument { message }) && message@
                == no_extension_message(output@),
            (Some(a), Some(b)) => if a == b {
                r is Ok
            } else {
                r matches Err(AppError::MismatchedOutputFormat { input_ext, output_ext })
                    && input_ext@ == a && output_ext@ == b
            },
        },
{
    let input_ext = extension(input)?;
    let output_ext = extension(output)?;
    let a = chars_of(input_ext.as_str());
    let b = chars_of(output_ext.as_str());
    if !chars_equal(&a, &b) {
        return Err(AppError::MismatchedOutputFormat { input_ext, output_ext });
    }
    Ok(())
}

/// Checks the input file from what the file system says about it: it must
/// exist, be a regular file and hold at most `MAX_FILE_SIZE_BYTES` bytes.
pub fn validate_input_file(path: &str, status: PathStatus) -> (r: Result<(), AppError>)
    ensures
        match status {
            PathStatus::Missing => r matches Err(AppError::InputNotFound { path: p }) && p@
                == path@,
            PathStatus::NotAFile => r matches Err(AppError::InputNotFile { path: p }) && p@
                == path@,
            PathStatus::File { size } => if size > MAX_FILE_SIZE_BYTES {
                r matches Err(AppError::FileTooLarge { size: s, max }) && s == size && max
                    == MAX_FILE_SIZE_BYTES
            } else {
                r is Ok
            },
        },
{
    match status {
        PathStatus::Missing => Err(AppError::InputNotFound { path: path.to_owned() }),
        PathStatus::NotAFile => Err(AppError::InputNotFile { path: path.to_owned() }),
        PathStatus::File { size } => {
            if size > MAX_FILE_SIZE_BYTES {
                Err(AppError::FileTooLarge { size, max: MAX_FILE_SIZE_BYTES })
            } else {
                Ok(())
            }
        },
    }
}

/// The output path as given.
pub fn normalize_output_path(path: &str) -> (r: String)
    ensures
        r@ == path@,
{
    path.to_owned()
}

} // verus!
