//! The parts of an inbound request that the proxy's decisions read.

use vstd::prelude::*;

verus! {

/// One header line: its name as written and the bytes of its value.
#[derive(Clone, Debug, PartialEq, Eq)]
pub struct Header {
    pub name: String,
    pub value: Vec<u8>,
}

impl View for Header {
    type V = (Seq<char>, Seq<u8>);

    open spec fn view(&self) -> (Seq<char>, Seq<u8>) {
        (self.name@, self.value@)
    }
}

/// The header lines of a list, in order, each as a pair of name and value.
pub open spec fn header_lines(headers: Seq<Header>) -> Seq<(Seq<char>, Seq<u8>)> {
    Seq::new(headers.len(), |i: int| headers[i]@)
}

/// An inbound request without its body: the method, the path and query of
/// its target, and its header lines in the order they arrived.
#[derive(Clone, Debug, PartialEq, Eq)]
pub struct ProxyRequest {
    pub method: String,
    pub path: String,
    pub query: Option<String>,
    pub headers: Vec<Header>,
}

/// The mathematical value of a [`ProxyRequest`].
pub struct RequestModel {
    pub method: Seq<char>,
    pub path: Seq<char>,
    pub query: Option<Seq<char>>,
    pub headers: Seq<(Seq<char>, Seq<u8>)>,
}

impl View for ProxyRequest {
    type V = RequestModel;

    open spec fn view(&self) -> RequestModel {
        RequestModel {
            method: self.method@,
            path: self.path@,
            query: match self.query {
                Some(q) => Some(q@),
                None => None,
            },
            headers: header_lines(self.headers@),
        }
    }
}

/// Whether a request with these header lines asks for an upgrade of the
/// connection to the WebSocket protocol.
pub uninterp spec fn upgrade_requested(headers: Seq<(Seq<char>, Seq<u8>)>) -> bool;

/// Asks `hyper_tungstenite::is_upgrade_request` about a request that carries
/// the given header lines.
///
/// The lines are handed to it in order, in a `hyper::Request` with an empty
/// body; a line whose name or value `hyper` does not accept as a header, or
/// which its header map refuses for want of room, is left out. The answer
/// depends on the lines alone, and the contract gives it the name
/// [`upgrade_requested`]. Nothing else is claimed of it.
#[verifier::external_body]
pub(crate) fn is_upgrade_request(headers: &Vec<Header>) -> (upgrade: bool)
    ensures
        upgrade == upgrade_requested(header_lines(headers@)),
{
    let mut request = hyper::Request::new(());
    for header in headers.iter() {
        let name = hyper::header::HeaderName::from_bytes(header.name.as_bytes());
        let value = hyper::header::HeaderValue::from_bytes(&header.value);
        if let (Ok(name), Ok(value)) = (name, value) {
            let _ = request.headers_mut().try_append(name, value);
        }
    }
    hyper_tungstenite::is_upgrade_request(&request)
}

} // verus!
