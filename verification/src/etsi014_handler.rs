//! The ETSI GS QKD 014 key-delivery handler's answers.

use vstd::prelude::*;

verus! {

/// Placeholder handler of the ETSI GS QKD 014 key-delivery API: every
/// endpoint answers with a server-side error (503) whose message says it is
/// not implemented yet.
#[derive(Debug, Clone, Copy, Default)]
pub struct Etsi014Handler;

/// An endpoint's server-side error: HTTP status 503 and a message.
pub struct ServerError {
    pub status: u16,
    pub message: String,
}

impl Etsi014Handler {
    /// `GetKey`: not implemented yet.
    pub fn get_key(&self) -> (r: ServerError)
        ensures
            r.status == 503,
            r.message@ == "GetKey is not implemented yet"@,
    {
        ServerError { status: 503, message: "GetKey is not implemented yet".to_owned() }
    }

    /// `GetKeySimple`: not implemented yet.
    pub fn get_key_simple(&self) -> (r: ServerError)
        ensures
            r.status == 503,
            r.message@ == "GetKeySimple is not implemented yet"@,
    {
        ServerError { status: 503, message: "GetKeySimple is not implemented yet".to_owned() }
    }

    /// `GetKeyWithIds`: not implemented yet.
    pub fn get_key_with_ids(&self) -> (r: ServerError)
        ensures
            r.status == 503,
            r.message@ == "GetKeyWithIds is not implemented yet"@,
    {
        ServerError { status: 503, message: "GetKeyWithIds is not implemented yet".to_owned() }
    }

    /// `GetKeyWithIdsSimple`: not implemented yet.
    pub fn get_key_with_ids_simple(&self) -> (r: ServerError)
        ensures
            r.status == 503,
            r.message@ == "GetKeyWithIdsSimple is not implemented yet"@,
    {
        ServerError { status: 503, message: "GetKeyWithIdsSimple is not implemented yet".to_owned() }
    }

    /// `GetStatus`: not implemented yet.
    pub fn get_status(&self) -> (r: ServerError)
        ensures
            r.status == 503,
            r.message@ == "GetStatus is not implemented yet"@,
    {
        ServerError { status: 503, message: "GetStatus is not implemented yet".to_owned() }
    }
}

} // verus!
