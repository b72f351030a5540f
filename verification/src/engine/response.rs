//! The response that the data plane hands to the transport.
use vstd::prelude::*;
use vstd::string::*;
use vstd::utf8::encode_utf8;
use crate::config::schema::header_pairs;

verus! {

/// A response as plain values: status, headers in order, and body.
#[derive(Debug)]
pub struct SimulatedResponse {
    pub status: u16,
    pub headers: Vec<(String, String)>,
    pub body: Vec<u8>,
}

/// The status that is sent for a declared status: the status itself where
/// it has three digits, and 500 otherwise.
pub open spec fn sent_status(status: u16) -> u16 {
    if 100 <= status <= 999 {
        status
    } else {
        500
    }
}

/// A copy of a list of headers.
pub fn copy_headers(headers: &Vec<(String, String)>) -> (copy: Vec<(String, String)>)
    ensures
        header_pairs(copy@) == header_pairs(headers@),
{
    let mut copy: Vec<(String, String)> = Vec::new();
    let mut i: usize = 0;
    while i < headers.len()
        invariant
            i <= headers@.len(),
            header_pairs(copy@) == header_pairs(headers@).subrange(0, i as int),
        decreases headers@.len() - i,
    {
        let name = headers[i].0.clone();
        let value = headers[i].1.clone();
        let ghost earlier = copy@;
        copy.push((name, value));
        proof {
            let all = header_pairs(headers@);
            let wanted = all.subrange(0, i + 1);
            assert(header_pairs(earlier).len() == i);
            assert(earlier.len() == i);
            assert forall|j: int| 0 <= j < i + 1 implies header_pairs(copy@)[j] == wanted[j] by {
                if j < i {
                    assert(header_pairs(earlier)[j] == all.subrange(0, i as int)[j]);
                }
            }
            assert(header_pairs(copy@) =~= wanted);
        }
        i += 1;
    }
    assert(header_pairs(headers@).subrange(0, headers@.len() as int) =~= header_pairs(headers@));
    copy
}

/// A copy of a byte string.
pub fn copy_bytes(bytes: &[u8]) -> (copy: Vec<u8>)
    ensures
        copy@ == bytes@,
{
    let mut copy: Vec<u8> = Vec::new();
    let mut i: usize = 0;
    while i < bytes.len()
        invariant
            i <= bytes@.len(),
            copy@ == bytes@.subrange(0, i as int),
        decreases bytes@.len() - i,
    {
        copy.push(bytes[i]);
        assert(copy@ =~= bytes@.subrange(0, i + 1));
        i += 1;
    }
    assert(bytes@.subrange(0, bytes@.len() as int) =~= bytes@);
    copy
}

/// The response with the given status, headers and body.
pub fn build_response(status: u16, headers: &Vec<(String, String)>, body: &[u8]) -> (response:
    SimulatedResponse)
    ensures
        response.status == sent_status(status),
        header_pairs(response.headers@) == header_pairs(headers@),
        response.body@ == body@,
{
    let status: u16 = if 100 <= status && status <= 999 {
        status
    } else {
        500
    };
    SimulatedResponse { status, headers: copy_headers(headers), body: copy_bytes(body) }
}

/// A response of plain text with the given status.
pub fn build_plain_text(status: u16, body: &str) -> (response: SimulatedResponse)
    ensures
        response.status == sent_status(status),
        header_pairs(response.headers@) == seq![("Content-Type"@, "text/plain"@)],
        response.body@ == encode_utf8(body@),
{
    let mut headers: Vec<(String, String)> = Vec::new();
    headers.push(("Content-Type".to_string(), "text/plain".to_string()));
    assert(header_pairs(headers@) =~= seq![("Content-Type"@, "text/plain"@)]);
    build_response(status, &headers, body.as_bytes())
}

} // verus!
