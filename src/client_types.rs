//! The client side of a connection.

use vstd::prelude::*;

use crate::stream::ClientOrServer;

verus! {

/// Whether the first HEADERS this side sends on a stream open a request or
/// answer one.
#[derive(Debug, Clone, Copy, PartialEq, Eq, Structural)]
pub enum RequestOrResponse {
    Request,
    Response,
}

/// The parameters of a client connection: it opens streams with odd
/// identifiers and sends requests on them.
pub struct ClientTypes;

impl ClientTypes {
    pub fn client_or_server() -> (r: ClientOrServer)
        ensures
            r == ClientOrServer::Client,
    {
        ClientOrServer::Client
    }

    pub fn out_request_or_response() -> (r: RequestOrResponse)
        ensures
            r == RequestOrResponse::Request,
    {
        RequestOrResponse::Request
    }
}

} // verus!
