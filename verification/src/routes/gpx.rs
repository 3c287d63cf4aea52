//! GPX uploads: accepting a file.
use vstd::prelude::*;

use crate::auth::lowercase;
use crate::errors::{AppError, BAD_REQUEST, INTERNAL_SERVER_ERROR};
use crate::text::{chars_of, ends_with, ends_with_chars, string_of};

verus! {

/// The name an upload is stored under: its own, or `upload.gpx`.
pub open spec fn upload_name(file_name: Option<Seq<char>>) -> Seq<char> {
    match file_name {
        Some(n) => n,
        None => "upload.gpx"@,
    }
}

/// The name of an uploaded file, which must end in `.gpx` (in any case).
pub fn check_upload_name(file_name: Option<&str>) -> (r: Result<String, AppError>)
    ensures
        ({
            let name = upload_name(
                match file_name {
                    Some(n) => Some(n@),
                    None => None,
                },
            );
            &&& ends_with(lowercase(name), ".gpx"@) ==> (r matches Ok(n) && n@ == name)
            &&& !ends_with(lowercase(name), ".gpx"@) ==> (r matches Err(e) && e.status
                == BAD_REQUEST && e.message@ == "Only .gpx files are accepted"@)
        }),
{
    let name: &str = match file_name {
        Some(n) => n,
        None => "upload.gpx",
    };
    let lowered = crate::auth::lowercase_text(name);
    if !ends_with_chars(&chars_of(lowered.as_str()), &chars_of(".gpx")) {
        return Err(AppError::bad_request("Only .gpx files are accepted"));
    }
    Ok(string_of(&chars_of(name)))
}

/// An uploaded file must not be empty.
pub fn check_upload_size(len: usize) -> (r: Result<(), AppError>)
    ensures
        len == 0 ==> (r matches Err(e) && e.status == BAD_REQUEST && e.message@ == "Empty file"@),
        len > 0 ==> r is Ok,
{
    if len == 0 {
        return Err(AppError::bad_request("Empty file"));
    }
    Ok(())
}

/// The error for a failed insert of a file record: a uniqueness violation
/// means the file was already uploaded; anything else is a database error.
pub fn insert_error(constraint_violation: bool) -> (e: AppError)
    ensures
        constraint_violation ==> e.status == BAD_REQUEST && e.message@ == "File already uploaded"@,
        !constraint_violation ==> e.status == INTERNAL_SERVER_ERROR && e.message@
            == "Database error"@,
{
    if constraint_violation {
        AppError::bad_request("File already uploaded")
    } else {
        AppError::database()
    }
}

} // verus!
