//! Request and response envelopes of the command surface, as plain
//! data.  Frontends parse their wire format (JSON over HTTP, a bus
//! envelope) into these; the engine itself consumes and produces them
//! unchanged.  A position id travels on the wire as its opaque string
//! form.

use vstd::prelude::*;

verus! {

/// A signup request carrying credentials.
pub struct SignupRequest {
    pub username: String,
    pub password: String,
}

/// A signup request carrying only an email address, as the bus frontend
/// sends it.
pub struct SignUpRequest {
    pub email: String,
}

/// A plain-text response envelope.
pub struct GenericResponse {
    pub message: String,
}

/// The id assigned to a freshly opened order.
pub struct OpenOrderResponse {
    pub order_id: String,
}

/// A request to close the order with the given id.
pub struct CloseOrderRequest {
    pub order_id: String,
}

/// The outcome of a close, in prose.
pub struct CloseOrderResponse {
    pub message: String,
}

} // verus!
