use vstd::prelude::*;

use crate::error::StreamError;

verus! {

/// The three blocks a server sends during the handshake: the version
/// byte S0, the 1536-byte S1, and S2, a verbatim copy of the client's
/// C1.
pub struct ServerHandshake {
    pub s0: u8,
    pub s1: Vec<u8>,
    pub s2: Vec<u8>,
}

/// Checks the client's version byte C0. Only version 3 is accepted;
/// the caller closes the connection without sending anything on a
/// mismatch.
pub fn check_client_version(c0: u8) -> (r: Result<(), StreamError>)
    ensures
        c0 == 3 <==> r is Ok,
        r matches Err(e) ==> e == StreamError::HandshakeVersionMismatch,
{
    if c0 == 3 {
        Ok(())
    } else {
        Err(StreamError::HandshakeVersionMismatch)
    }
}

/// Builds the server's reply to C0 and C1. S1 carries a zero timestamp
/// and four zero bytes, then arbitrary fill; S2 echoes C1 byte for
/// byte.
pub fn server_handshake(c0: u8, c1: &[u8]) -> (r: Result<ServerHandshake, StreamError>)
    ensures
        c0 != 3 ==> (r matches Err(e) && e == StreamError::HandshakeVersionMismatch),
        c0 == 3 && c1@.len() != 1536 ==> (r matches Err(e) && e == StreamError::HandshakeTruncated),
        c0 == 3 && c1@.len() == 1536 ==> (r matches Ok(h) && h.s0 == 3 && h.s1@.len() == 1536 && (
        forall|i: int| 0 <= i < 8 ==> h.s1@[i] == 0) && h.s2@ == c1@),
{
    if c0 != 3 {
        return Err(StreamError::HandshakeVersionMismatch);
    }
    if c1.len() != 1536 {
        return Err(StreamError::HandshakeTruncated);
    }
    let mut s1: Vec<u8> = Vec::new();
    let mut i: usize = 0;
    while i < 1536
        invariant
            i <= 1536,
            s1@.len() == i,
            forall|j: int| 0 <= j < i && j < 8 ==> s1@[j] == 0,
        decreases 1536 - i,
    {
        if i < 8 {
            s1.push(0);
        } else {
            s1.push((i % 256) as u8);
        }
        i += 1;
    }
    let mut s2: Vec<u8> = Vec::new();
    s2.extend_from_slice(c1);
    proof {
        assert(s2@ =~= c1@);
    }
    Ok(ServerHandshake { s0: 3, s1, s2 })
}

} // verus!
