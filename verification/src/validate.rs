//! Validation of caller-supplied parameters, performed before a request
//! reaches the session manager.

use vstd::prelude::*;
use vstd::string::StringExecFns;
use crate::numfmt::{dec_str, u16_dec};

verus! {

/// Terminal geometry the manager accepts: both dimensions in 1..=500.
pub open spec fn dims_ok(cols: u16, rows: u16) -> bool {
    1 <= cols <= 500 && 1 <= rows <= 500
}

/// The message rejecting a column count.
pub open spec fn bad_cols_msg(cols: u16) -> Seq<char> {
    "Invalid cols value: "@ + dec_str(cols as int) + " (must be 1-500)"@
}

/// The message rejecting a row count.
pub open spec fn bad_rows_msg(rows: u16) -> Seq<char> {
    "Invalid rows value: "@ + dec_str(rows as int) + " (must be 1-500)"@
}

/// Accepts exactly the geometries with both dimensions in 1..=500; rejects
/// a bad column count first, then a bad row count, each with a message
/// naming the offending value.
pub fn validate_dimensions(cols: u16, rows: u16) -> (r: Result<(), String>)
    ensures
        r is Ok <==> dims_ok(cols, rows),
        (cols == 0 || cols > 500) ==> (r matches Err(m) && m@ == bad_cols_msg(cols)),
        (1 <= cols <= 500 && (rows == 0 || rows > 500)) ==> (r matches Err(m) && m@
            == bad_rows_msg(rows)),
{
    if cols == 0 || cols > 500 {
        let n = u16_dec(cols);
        Err(String::from_str("Invalid cols value: ").concat(n.as_str()).concat(" (must be 1-500)"))
    } else if rows == 0 || rows > 500 {
        let n = u16_dec(rows);
        Err(String::from_str("Invalid rows value: ").concat(n.as_str()).concat(" (must be 1-500)"))
    } else {
        Ok(())
    }
}

/// Whether a string has the syntax of a session identifier, exactly as the
/// identifier parser of the `uuid` crate decides it.
pub uninterp spec fn uuid_syntax(s: Seq<char>) -> bool;

/// Relies on uuid::Uuid::parse_str: whether a string parses as a UUID is a
/// function of its characters alone.
#[verifier::external_body]
fn uuid_parses(s: &str) -> (r: bool)
    ensures
        r == uuid_syntax(s@),
{
    uuid::Uuid::parse_str(s).is_ok()
}

/// Accepts exactly the strings with session-identifier (UUID) syntax.
pub fn validate_session_id(session_id: &str) -> (r: Result<(), String>)
    ensures
        r is Ok <==> uuid_syntax(session_id@),
        !uuid_syntax(session_id@) ==> (r matches Err(m) && m@ == "Invalid session ID format"@),
{
    if uuid_parses(session_id) {
        Ok(())
    } else {
        Err(String::from_str("Invalid session ID format"))
    }
}

/// What the filesystem reports about a requested working directory, resolved
/// by the host before validation: the path does not resolve, resolves to
/// something other than a directory, or resolves to a directory.
pub enum PathStatus {
    Missing,
    NotDirectory,
    Directory,
}

/// True when the path is absolute.
pub open spec fn absolute_path(s: Seq<char>) -> bool {
    s.len() > 0 && s[0] == '/'
}

/// Accepts a working directory only when its path is absolute and the
/// filesystem resolved it to an existing directory; each rejection carries a
/// message naming the reason.
pub fn validate_cwd(cwd: &str, status: PathStatus) -> (r: Result<(), String>)
    ensures
        r is Ok <==> (absolute_path(cwd@) && status is Directory),
        !absolute_path(cwd@) ==> (r matches Err(m) && m@ == "CWD must be an absolute path"@),
        (absolute_path(cwd@) && status is Missing) ==> (r matches Err(m) && m@
            == "CWD path does not exist: "@ + cwd@),
        (absolute_path(cwd@) && status is NotDirectory) ==> (r matches Err(m) && m@
            == "CWD is not a directory: "@ + cwd@),
{
    let absolute = if cwd.is_empty() {
        false
    } else {
        cwd.get_char(0) == '/'
    };
    if !absolute {
        Err(String::from_str("CWD must be an absolute path"))
    } else {
        match status {
            PathStatus::Missing => Err(String::from_str("CWD path does not exist: ").concat(cwd)),
            PathStatus::NotDirectory => Err(
                String::from_str("CWD is not a directory: ").concat(cwd),
            ),
            PathStatus::Directory => Ok(()),
        }
    }
}

} // verus!
