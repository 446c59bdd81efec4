//! The query parameters a WebSocket upgrade carries.
use vstd::prelude::*;

verus! {

/// `/ws?author=<id>&public_key=<pk>`, already URL-decoded.
#[derive(Debug)]
pub struct QueryParameters {
    pub author: String,
    pub public_key: String,
}

} // verus!
