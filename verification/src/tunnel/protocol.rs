//! The header of each stream: which port to reach, and what became of it.
use crate::bytes;
use crate::tunnel::error::{self, Error};
use vstd::prelude::*;

verus! {

/// A request to be connected to a port of the server.
#[derive(Clone, Copy, Debug, PartialEq, Eq, Structural)]
pub struct ConnectRequest {
    pub port: u16,
}

/// The answer to a request.
#[derive(Clone, Copy, Debug, PartialEq, Eq, Structural)]
pub enum ConnectResponse {
    Connected,
    Denied,
    Unreachable,
}

/// The code of an answer.
pub open spec fn code_of(r: ConnectResponse) -> u8 {
    match r {
        ConnectResponse::Connected => 0,
        ConnectResponse::Denied => 1,
        ConnectResponse::Unreachable => 2,
    }
}

/// The answer that a code stands for.
pub open spec fn response_of(code: u8) -> Result<ConnectResponse, error::ErrorView> {
    if code == 0 {
        Ok(ConnectResponse::Connected)
    } else if code == 1 {
        Ok(ConnectResponse::Denied)
    } else if code == 2 {
        Ok(ConnectResponse::Unreachable)
    } else {
        Err(error::violation("invalid connect response code"))
    }
}

/// An answer's code reads back as that answer.
pub proof fn response_round_trip(r: ConnectResponse)
    ensures
        response_of(code_of(r)) == Ok::<ConnectResponse, error::ErrorView>(r),
{
}

/// The three answers have the codes 0, 1 and 2, and no other code is an answer.
pub proof fn what_codes_stand_for(r: ConnectResponse, code: u8)
    ensures
        code_of(r) == 0 <==> r is Connected,
        code_of(r) == 1 <==> r is Denied,
        code_of(r) == 2 <==> r is Unreachable,
        response_of(code) is Ok <==> code <= 2,
        response_of(code) matches Ok(a) ==> code_of(a) == code,
        response_of(code) matches Err(e) ==> e is Protocol,
{
}

impl ConnectRequest {
    /// The request on the wire: the port in two bytes.
    pub fn encode(&self) -> (r: [u8; 2])
        ensures
            r@ == bytes::be_bytes(self.port as nat, 2),
    {
        bytes::u16_to_be(self.port)
    }

    /// The request that two bytes hold.
    pub fn decode(b: [u8; 2]) -> (r: Self)
        ensures
            r.port == bytes::be_value(b@),
    {
        assert(b@ =~= seq![b[0], b[1]]);
        ConnectRequest { port: bytes::u16_from_be(b[0], b[1]) }
    }
}

/// A request on the wire is two bytes that read back as that request, whatever follows them.
pub proof fn request_round_trip(req: ConnectRequest, rest: Seq<u8>)
    ensures
        ({
            let wire = bytes::be_bytes(req.port as nat, 2);
            &&& wire.len() == 2
            &&& bytes::be_value((wire + rest).take(2)) == req.port
            &&& (wire + rest).skip(2) == rest
        }),
{
    let wire = bytes::be_bytes(req.port as nat, 2);
    bytes::pow256_bounds();
    bytes::be_round_trip(req.port as nat, 2);
    assert((wire + rest).take(2) =~= wire);
    assert((wire + rest).skip(2) =~= rest);
}

/// A request on the wire is its port, the higher byte first; two bytes are the request for the port
/// that they hold.
pub proof fn requests_name_their_port(hi: u8, lo: u8)
    ensures
        bytes::be_bytes((256 * hi + lo) as nat, 2) == seq![hi, lo],
        bytes::be_value(seq![hi, lo]) == 256 * hi + lo,
{
    bytes::two_bytes(hi, lo);
}

impl ConnectResponse {
    /// The answer's code.
    pub fn code(self) -> (r: u8)
        ensures
            r == code_of(self),
    {
        match self {
            ConnectResponse::Connected => 0,
            ConnectResponse::Denied => 1,
            ConnectResponse::Unreachable => 2,
        }
    }

    /// The answer that a code stands for.
    pub fn from_code(code: u8) -> (r: Result<Self, Error>)
        ensures
            error::outcome(r) == response_of(code),
    {
        match code {
            0 => Ok(ConnectResponse::Connected),
            1 => Ok(ConnectResponse::Denied),
            2 => Ok(ConnectResponse::Unreachable),
            _ => Err(Error::protocol("invalid connect response code")),
        }
    }
}

} // verus!
