use vstd::prelude::*;

verus! {

/// Status returned by a store primitive that succeeded.
pub const ERROR_SUCCESS: i32 = 0;

/// The named file or key does not exist.
pub const ERROR_FILE_NOT_FOUND: i32 = 2;

/// A component of the path does not exist.
pub const ERROR_PATH_NOT_FOUND: i32 = 3;

/// The caller lacks the rights for the request.
pub const ERROR_ACCESS_DENIED: i32 = 5;

/// Socket-level access refusal, classified like `ERROR_ACCESS_DENIED`.
pub const WSAEACCES: i32 = 10013;

/// An enumeration index is past the last entry.
pub const ERROR_NO_MORE_ITEMS: i32 = 259;

/// Errors of the key operations. Each store failure carries the path that was
/// attempted and the raw status code.
#[derive(Debug)]
pub enum Error {
    NotFound(String, i32),
    PermissionDenied(String, i32),
    /// The path holds a nul character; the position is in UTF-16 units.
    InvalidNul(usize),
    Unknown(String, i32),
}

/// The class into which a raw status code falls.
#[derive(PartialEq, Eq, Structural, Clone, Copy, Debug)]
pub enum StatusClass {
    NotFound,
    PermissionDenied,
    Other,
}

/// The classification of a raw status code: total over every code.
pub open spec fn class_of(code: i32) -> StatusClass {
    if code == ERROR_FILE_NOT_FOUND || code == ERROR_PATH_NOT_FOUND {
        StatusClass::NotFound
    } else if code == ERROR_ACCESS_DENIED || code == WSAEACCES {
        StatusClass::PermissionDenied
    } else {
        StatusClass::Other
    }
}

/// `e` is the error for a failure with status `code` on `path`.
pub open spec fn is_status_error(e: Error, path: Seq<char>, code: i32) -> bool {
    match class_of(code) {
        StatusClass::NotFound => e matches Error::NotFound(p, c) && p@ == path && c == code,
        StatusClass::PermissionDenied => e matches Error::PermissionDenied(p, c) && p@ == path
            && c == code,
        StatusClass::Other => e matches Error::Unknown(p, c) && p@ == path && c == code,
    }
}

/// Classifies a raw status code.
pub fn classify(code: i32) -> (r: StatusClass)
    ensures
        r == class_of(code),
{
    if code == ERROR_FILE_NOT_FOUND || code == ERROR_PATH_NOT_FOUND {
        StatusClass::NotFound
    } else if code == ERROR_ACCESS_DENIED || code == WSAEACCES {
        StatusClass::PermissionDenied
    } else {
        StatusClass::Other
    }
}

/// Builds the error for a failed store request on `path`.
pub fn status_error(path: String, code: i32) -> (e: Error)
    ensures
        is_status_error(e, path@, code),
{
    match classify(code) {
        StatusClass::NotFound => Error::NotFound(path, code),
        StatusClass::PermissionDenied => Error::PermissionDenied(path, code),
        StatusClass::Other => Error::Unknown(path, code),
    }
}

impl Error {
    /// The class of this error; `None` for a path that could not be encoded.
    pub fn status_class(&self) -> (r: Option<StatusClass>)
        ensures
            r == match self {
                Error::NotFound(..) => Some(StatusClass::NotFound),
                Error::PermissionDenied(..) => Some(StatusClass::PermissionDenied),
                Error::InvalidNul(_) => None::<StatusClass>,
                Error::Unknown(..) => Some(StatusClass::Other),
            },
    {
        match self {
            Error::NotFound(..) => Some(StatusClass::NotFound),
            Error::PermissionDenied(..) => Some(StatusClass::PermissionDenied),
            Error::InvalidNul(_) => None,
            Error::Unknown(..) => Some(StatusClass::Other),
        }
    }
}

/// Every status code maps to exactly one kind of error: a store failure is
/// reported as not found only for the not-found codes, and as a permission
/// failure only for the access codes.
pub proof fn lemma_status_kinds_exclusive(e: Error, path: Seq<char>, code: i32)
    requires
        is_status_error(e, path, code),
    ensures
        e is NotFound <==> (code == ERROR_FILE_NOT_FOUND || code == ERROR_PATH_NOT_FOUND),
        e is PermissionDenied <==> (code == ERROR_ACCESS_DENIED || code == WSAEACCES),
        e is Unknown <==> class_of(code) == StatusClass::Other,
        !(e is InvalidNul),
{
}

} // verus!
