//! The h3 listener's part in the handshake and in the reading of a request's
//! body.

use crate::error::Error;
use vstd::prelude::*;
use vstd::string::StringExecFns;

verus! {

/// Reads the server name of a client's hello. Without a name the handshake
/// fails: no certificate can be found for it.
pub fn on_client_hello(sni: Option<&str>) -> (name: core::result::Result<String, Error>)
    ensures
        match sni {
            Some(asked) => name matches Ok(n) && n@ == asked@,
            None => name matches Err(Error::CertNotFound(m)) && m@ == "sni not found"@,
        },
{
    match sni {
        Some(asked) => Ok(String::from_str(asked)),
        None => Err(Error::CertNotFound(String::from_str("sni not found"))),
    }
}

/// The message of the error with which a handshake fails when no certificate
/// could be had for the name asked for.
pub open spec fn spec_cert_failed(sni: Seq<char>, cause: Error) -> Seq<char> {
    "cert not found for "@ + sni + ": "@ + cause.spec_text()
}

/// Makes the error with which a handshake fails when no certificate could be
/// had for the name asked for.
pub fn cert_failed(sni: &str, cause: &Error) -> (e: Error)
    ensures
        e matches Error::CertNotFound(m) && m@ == spec_cert_failed(sni@, *cause),
{
    let text = cause.text();
    Error::CertNotFound(
        String::from_str("cert not found for ").concat(sni).concat(": ").concat(text.as_str()),
    )
}

/// What the transport hands over when the body of a request is read.
#[derive(Debug)]
pub enum Received {
    /// A chunk of the body.
    Data(Vec<u8>),
    /// The body has ended.
    End,
    /// The stream failed, with this message.
    Failed(String),
}

/// Turns what the transport hands over into the next frame of the body: a
/// chunk is a frame of data, the end of the stream the end of the body, and a
/// failure of the stream an error.
pub fn body_frame(received: Received) -> (frame: Option<core::result::Result<Vec<u8>, Error>>)
    ensures
        match received {
            Received::Data(chunk) => frame == Some(
                core::result::Result::<Vec<u8>, Error>::Ok(chunk),
            ),
            Received::End => frame is None,
            Received::Failed(m) => frame == Some(
                core::result::Result::<Vec<u8>, Error>::Err(Error::H3Stream(m)),
            ),
        },
{
    match received {
        Received::Data(chunk) => Some(Ok(chunk)),
        Received::End => None,
        Received::Failed(m) => Some(Err(Error::H3Stream(m))),
    }
}

} // verus!
