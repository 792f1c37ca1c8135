use vstd::prelude::*;
use crate::error::{Error, ERROR_SUCCESS, is_status_error, status_error};

verus! {

/// An open registry key: the native handle, owned exclusively, and the path it
/// was reached by, kept for diagnostics. The handle type is the embedding
/// program's owning wrapper, which releases the native resource when dropped.
#[derive(Debug)]
pub struct RegKey<H> {
    handle: H,
    path: String,
}

/// Which store primitive removes a key.
#[derive(PartialEq, Eq, Structural, Clone, Copy, Debug)]
pub enum DeletePrimitive {
    /// Removes one key that has no children.
    Key,
    /// Removes a key with its whole subtree in one request.
    Tree,
}

/// Diagnostic path of a key reached through the current user's profile root.
pub open spec fn current_user_path() -> Seq<char> {
    "<Current User>"@
}

/// Path reported when opening the current user's profile root fails.
pub open spec fn current_user_error_path() -> Seq<char> {
    "<current user>"@
}

impl<H> RegKey<H> {
    /// The path recorded for diagnostics.
    pub closed spec fn spec_path(&self) -> Seq<char> {
        self.path@
    }

    /// The native handle owned by this key.
    pub closed spec fn spec_handle(&self) -> H {
        self.handle
    }

    /// Borrows the native handle, for a store request made through this key.
    pub fn handle(&self) -> (r: &H)
        ensures
            *r == self.spec_handle(),
    {
        &self.handle
    }

    /// Renders the recorded path.
    pub fn to_string(&self) -> (r: String)
        ensures
            r@ == self.spec_path(),
    {
        self.path.clone()
    }

    /// Gives up the key, handing back the handle and the recorded path.
    pub fn into_parts(self) -> (r: (H, String))
        ensures
            r.0 == self.spec_handle(),
            r.1@ == self.spec_path(),
    {
        (self.handle, self.path)
    }

    /// The key produced by an open or create request on `path` that answered
    /// `status`, with `handle` the handle it filled in. On failure the handle
    /// is dropped and the error names the path.
    pub fn from_status(path: &str, status: i32, handle: H) -> (r: Result<RegKey<H>, Error>)
        ensures
            status == ERROR_SUCCESS ==> (r matches Ok(k) && k.spec_handle() == handle
                && k.spec_path() == path@),
            status != ERROR_SUCCESS ==> (r matches Err(e) && is_status_error(e, path@, status)),
    {
        if status == ERROR_SUCCESS {
            Ok(RegKey { handle, path: path.to_owned() })
        } else {
            Err(status_error(path.to_owned(), status))
        }
    }

    /// The key produced by a request for the current user's profile root that
    /// answered `status`.
    pub fn current_user_from_status(status: i32, handle: H) -> (r: Result<RegKey<H>, Error>)
        ensures
            status == ERROR_SUCCESS ==> (r matches Ok(k) && k.spec_handle() == handle
                && k.spec_path() == current_user_path()),
            status != ERROR_SUCCESS ==> (r matches Err(e) && is_status_error(
                e,
                current_user_error_path(),
                status,
            )),
    {
        if status == ERROR_SUCCESS {
            proof {
                reveal_strlit("<Current User>");
            }
            Ok(RegKey { handle, path: "<Current User>".to_owned() })
        } else {
            proof {
                reveal_strlit("<current user>");
            }
            Err(status_error("<current user>".to_owned(), status))
        }
    }
}

/// The primitive for a deletion, recursive or not.
pub fn delete_primitive(is_recursive: bool) -> (r: DeletePrimitive)
    ensures
        r == (if is_recursive {
            DeletePrimitive::Tree
        } else {
            DeletePrimitive::Key
        }),
{
    if is_recursive {
        DeletePrimitive::Tree
    } else {
        DeletePrimitive::Key
    }
}

/// The result of a request on `path` that hands back no handle (a deletion,
/// or a value write), given the status it answered.
pub fn unit_from_status(path: &str, status: i32) -> (r: Result<(), Error>)
    ensures
        status == ERROR_SUCCESS <==> r is Ok,
        r matches Err(e) ==> is_status_error(e, path@, status),
{
    if status == ERROR_SUCCESS {
        Ok(())
    } else {
        Err(status_error(path.to_owned(), status))
    }
}

} // verus!
