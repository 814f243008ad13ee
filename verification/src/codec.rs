//! The boundary to the DNS wire-format crate.
//!
//! Decoding a datagram, encoding a response, and validating domain-name
//! syntax are delegated to `trust_dns_proto`. Each is a deterministic
//! function of its argument alone, so each result is given a name that the
//! rest of the library states its contracts over; nothing else is assumed
//! of the wire format.

use vstd::prelude::*;

use trust_dns_proto::op::Message;
use trust_dns_proto::op::MessageType;
use trust_dns_proto::op::OpCode;
use trust_dns_proto::op::ResponseCode;
use trust_dns_proto::rr::domain::Label;
use trust_dns_proto::rr::domain::Name;
use trust_dns_proto::rr::rdata::A;
use trust_dns_proto::rr::RData;
use trust_dns_proto::rr::Record;

use crate::message::Question;
use crate::message::Request;
use crate::message::RequestView;
use crate::message::Response;
use crate::message::ResponseView;
use crate::message::rcode_value;

verus! {

/// What a byte buffer decodes to as a DNS message, reduced to the fields the
/// engine reads, or nothing when the buffer is not a well-formed message.
pub uninterp spec fn parsed_request(bytes: Seq<u8>) -> Option<RequestView>;

/// The bytes that a response with the given fields serializes to, or nothing
/// when the wire-format crate cannot encode it.
pub uninterp spec fn encoded_response(resp: ResponseView) -> Option<Seq<u8>>;

/// Whether a domain, split at `.`, consists of valid DNS labels that form a
/// well-formed name.
pub uninterp spec fn valid_domain(domain: Seq<u8>) -> bool;

/// Relies on `trust_dns_proto::op::Message::from_vec`: deterministic DNS
/// wire-format decoding, which fails on any buffer that is not a well-formed
/// DNS message, in particular on any buffer shorter than the 12-byte header.
#[verifier::external_body]
pub fn decode_request(raw: &Vec<u8>) -> (r: Option<Request>)
    ensures
        r is Some <==> parsed_request(raw@) is Some,
        r is Some ==> r->0@ == parsed_request(raw@)->0,
        raw@.len() < 12 ==> r is None,
{
    let msg = Message::from_vec(raw).ok()?;
    let questions = msg.queries().iter().map(|q| Question {
        name: q.name().to_utf8().into_bytes(),
        qtype: u16::from(q.query_type()),
        qclass: u16::from(q.query_class()),
    }).collect();
    Some(Request {
        id: msg.id(),
        is_query: msg.message_type() == MessageType::Query,
        opcode: u8::from(msg.op_code()) as u16,
        questions,
    })
}

/// Relies on `trust_dns_proto::op::Message::to_vec`: deterministic DNS
/// wire-format encoding of the response message built from these fields,
/// with the message type set to Response and the header answer count taken
/// from the answer records themselves.
#[verifier::external_body]
pub fn encode_response(resp: &Response) -> (r: Option<Vec<u8>>)
    ensures
        r is Some <==> encoded_response(resp@) is Some,
        r is Some ==> r->0@ == encoded_response(resp@)->0,
{
    let mut msg = Message::new();
    msg.set_id(resp.id)
        .set_message_type(MessageType::Response)
        .set_op_code(OpCode::from_u8(resp.opcode as u8).ok()?)
        .set_authoritative(resp.authoritative)
        .set_response_code(ResponseCode::from_low(rcode_value(resp.rcode) as u8));
    for ans in resp.answers.iter() {
        let name = Name::from_utf8(core::str::from_utf8(&ans.name).ok()?).ok()?;
        let addr = A::new(ans.addr.a, ans.addr.b, ans.addr.c, ans.addr.d);
        msg.add_answer(Record::from_rdata(name, ans.ttl, RData::A(addr)));
    }
    msg.to_vec().ok()
}

/// Relies on `trust_dns_proto`'s `Label::from_utf8` and `Name::from_labels`:
/// whether every `.`-separated label of the domain is valid DNS label syntax
/// and the labels together form a well-formed name.
#[verifier::external_body]
pub fn domain_is_valid(domain: &Vec<u8>) -> (r: bool)
    ensures
        r == valid_domain(domain@),
{
    let Ok(s) = core::str::from_utf8(domain) else {
        return false;
    };
    let labels: Result<Vec<Label>, _> = s.split('.').map(Label::from_utf8).collect();
    match labels {
        Ok(ls) => Name::from_labels(ls).is_ok(),
        Err(_) => false,
    }
}

} // verus!
