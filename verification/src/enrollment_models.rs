//! The messages of node enrollment.

use vstd::prelude::*;

verus! {

/// A node's request to be enrolled.
#[derive(Debug, Clone)]
pub struct EnrollRequest {
    pub csr_pem: String,
    pub node_id: String,
    pub nonce: String,
    pub quote: String,
}

/// The answer to an enrollment request.
#[derive(Debug, Clone)]
pub struct EnrollResponse {
    pub id: String,
    pub status: String,
}

/// Where an enrollment stands, with the certificate once issued.
#[derive(Debug, Clone)]
pub struct EnrollStatus {
    pub status: String,
    pub certificate: Option<String>,
}

} // verus!
