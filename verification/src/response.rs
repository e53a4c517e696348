//! The responses the proxy writes itself, each a status and a short body.

use vstd::prelude::*;
use vstd::string::StringExecFns;

verus! {

/// A complete response with a textual body.
#[derive(Clone, Debug, PartialEq, Eq)]
pub struct FixedResponse {
    pub status: u16,
    pub body: String,
}

/// The mathematical value of a [`FixedResponse`].
pub struct ResponseModel {
    pub status: u16,
    pub body: Seq<char>,
}

impl View for FixedResponse {
    type V = ResponseModel;

    open spec fn view(&self) -> ResponseModel {
        ResponseModel { status: self.status, body: self.body@ }
    }
}

/// What every request is answered with while no mode is active.
pub open spec fn no_mode_model() -> ResponseModel {
    ResponseModel { status: 404, body: "No mode set"@ }
}

/// The answer to a request whose path names nothing.
pub open spec fn invalid_path_model() -> ResponseModel {
    ResponseModel { status: 404, body: "Invalid path"@ }
}

/// The answer to a request whose method is not served.
pub open spec fn invalid_method_model() -> ResponseModel {
    ResponseModel { status: 405, body: "Invalid method"@ }
}

/// The answer when no connection to the upstream could be opened.
pub open spec fn connect_failed_model() -> ResponseModel {
    ResponseModel { status: 502, body: "Failed to connect to dev server"@ }
}

/// The answer when the upstream did not complete the protocol handshake.
pub open spec fn handshake_failed_model() -> ResponseModel {
    ResponseModel { status: 502, body: "Failed to handshake with dev server"@ }
}

/// The answer when the request could not be sent or no response head came.
pub open spec fn send_failed_model() -> ResponseModel {
    ResponseModel { status: 502, body: "Failed to send request to dev server"@ }
}

/// The answer to an upgrade request that is malformed.
pub open spec fn bad_upgrade_model() -> ResponseModel {
    ResponseModel { status: 400, body: "Invalid upgrade request"@ }
}

/// The answer to a form whose request names no multipart boundary.
pub open spec fn invalid_boundary_model() -> ResponseModel {
    ResponseModel { status: 400, body: "Invalid boundary"@ }
}

/// The answer to a form that is accepted.
pub open spec fn form_accepted_model() -> ResponseModel {
    ResponseModel { status: 200, body: "Hello, World!"@ }
}

/// The answer to a form whose schema holds a pattern that cannot be
/// compiled.
pub open spec fn schema_fault_model() -> ResponseModel {
    ResponseModel { status: 500, body: "Failed to parse field regex"@ }
}

/// The answer to a form of which a secret could not be hashed.
pub open spec fn hash_fault_model() -> ResponseModel {
    ResponseModel { status: 500, body: "Failed to hash password"@ }
}

/// The fixed not-found response of a proxy without an active mode.
pub fn no_mode_response() -> (response: FixedResponse)
    ensures
        response@ == no_mode_model(),
{
    FixedResponse { status: 404, body: String::from_str("No mode set") }
}

/// The not-found response for a path that names nothing.
pub fn invalid_path_response() -> (response: FixedResponse)
    ensures
        response@ == invalid_path_model(),
{
    FixedResponse { status: 404, body: String::from_str("Invalid path") }
}

/// The response for a method that is not served.
pub fn invalid_method_response() -> (response: FixedResponse)
    ensures
        response@ == invalid_method_model(),
{
    FixedResponse { status: 405, body: String::from_str("Invalid method") }
}

/// The gateway failure for an upstream that could not be reached.
pub fn connect_failed_response() -> (response: FixedResponse)
    ensures
        response@ == connect_failed_model(),
{
    FixedResponse { status: 502, body: String::from_str("Failed to connect to dev server") }
}

/// The gateway failure for an upstream that did not complete the handshake.
pub fn handshake_failed_response() -> (response: FixedResponse)
    ensures
        response@ == handshake_failed_model(),
{
    FixedResponse { status: 502, body: String::from_str("Failed to handshake with dev server") }
}

/// The gateway failure for a request that could not be sent.
pub fn send_failed_response() -> (response: FixedResponse)
    ensures
        response@ == send_failed_model(),
{
    FixedResponse { status: 502, body: String::from_str("Failed to send request to dev server") }
}

/// The client error for a malformed upgrade request.
pub fn bad_upgrade_response() -> (response: FixedResponse)
    ensures
        response@ == bad_upgrade_model(),
{
    FixedResponse { status: 400, body: String::from_str("Invalid upgrade request") }
}

/// The client error for a form without a multipart boundary.
pub fn invalid_boundary_response() -> (response: FixedResponse)
    ensures
        response@ == invalid_boundary_model(),
{
    FixedResponse { status: 400, body: String::from_str("Invalid boundary") }
}

/// The response to an accepted form.
pub fn form_accepted_response() -> (response: FixedResponse)
    ensures
        response@ == form_accepted_model(),
{
    FixedResponse { status: 200, body: String::from_str("Hello, World!") }
}

/// The server error for a schema with a pattern that cannot be compiled.
pub fn schema_fault_response() -> (response: FixedResponse)
    ensures
        response@ == schema_fault_model(),
{
    FixedResponse { status: 500, body: String::from_str("Failed to parse field regex") }
}

/// The server error for a secret that could not be hashed.
pub fn hash_fault_response() -> (response: FixedResponse)
    ensures
        response@ == hash_fault_model(),
{
    FixedResponse { status: 500, body: String::from_str("Failed to hash password") }
}

/// The response that hands out the schema of a form.
pub fn schema_response(body: String) -> (response: FixedResponse)
    ensures
        response@ == (ResponseModel { status: 200, body: body@ }),
{
    FixedResponse { status: 200, body }
}

} // verus!
