//! Plain-value model of the DNS messages this server inspects and produces.
//!
//! A decoded request is reduced to the fields the engine reads: transaction
//! id, whether the message is a query, its opcode, and the question section.
//! A response carries the fields the engine decides: echoed id and opcode, a
//! response code, the authoritative-answer flag, and the answer records. The
//! message-type flag of a response is always Response, and its header answer
//! count always equals the number of answer records: both are set from the
//! record list itself when the response is serialized.

use vstd::prelude::*;

use crate::Ipv4;

verus! {

/// Wire value of record type A.
pub const RTYPE_A: u16 = 1;

/// Wire value of the Internet class (IN).
pub const CLASS_IN: u16 = 1;

/// Wire value of the standard Query opcode.
pub const OPCODE_QUERY: u16 = 0;

/// Time-to-live of every synthesized answer record, in seconds.
pub const TTL_SECONDS: u32 = 300;

/// One question of a request: the queried name in presentation form
/// (ASCII labels separated by `.`, with the trailing root `.` kept as it
/// came off the wire), and the wire values of its record type and class.
pub struct Question {
    pub name: Vec<u8>,
    pub qtype: u16,
    pub qclass: u16,
}

pub struct QuestionView {
    pub name: Seq<u8>,
    pub qtype: u16,
    pub qclass: u16,
}

impl View for Question {
    type V = QuestionView;

    open spec fn view(&self) -> QuestionView {
        QuestionView { name: self.name@, qtype: self.qtype, qclass: self.qclass }
    }
}

/// The fields of a decoded request that the engine reads.
pub struct Request {
    pub id: u16,
    pub is_query: bool,
    pub opcode: u16,
    pub questions: Vec<Question>,
}

pub struct RequestView {
    pub id: u16,
    pub is_query: bool,
    pub opcode: u16,
    pub questions: Seq<QuestionView>,
}

impl View for Request {
    type V = RequestView;

    open spec fn view(&self) -> RequestView {
        RequestView {
            id: self.id,
            is_query: self.is_query,
            opcode: self.opcode,
            questions: self.questions@.map_values(|q: Question| q@),
        }
    }
}

/// The response codes this server can emit.
#[derive(Clone, Copy, PartialEq, Eq, Structural, Debug)]
pub enum Rcode {
    NoError,
    FormErr,
    NXDomain,
    NotImp,
    NotAuth,
}

/// One synthesized answer record: the owner name (the queried name with the
/// trailing root label stripped), the resolved address, and its TTL.
pub struct Answer {
    pub name: Vec<u8>,
    pub addr: Ipv4,
    pub ttl: u32,
}

pub struct AnswerView {
    pub name: Seq<u8>,
    pub addr: Ipv4,
    pub ttl: u32,
}

impl View for Answer {
    type V = AnswerView;

    open spec fn view(&self) -> AnswerView {
        AnswerView { name: self.name@, addr: self.addr, ttl: self.ttl }
    }
}

/// The fields of a response that the engine decides.
pub struct Response {
    pub id: u16,
    pub opcode: u16,
    pub rcode: Rcode,
    pub authoritative: bool,
    pub answers: Vec<Answer>,
}

pub struct ResponseView {
    pub id: u16,
    pub opcode: u16,
    pub rcode: Rcode,
    pub authoritative: bool,
    pub answers: Seq<AnswerView>,
}

impl View for Response {
    type V = ResponseView;

    open spec fn view(&self) -> ResponseView {
        ResponseView {
            id: self.id,
            opcode: self.opcode,
            rcode: self.rcode,
            authoritative: self.authoritative,
            answers: self.answers@.map_values(|a: Answer| a@),
        }
    }
}

/// Wire value of a response code, as the DNS header carries it.
pub fn rcode_value(rc: Rcode) -> (r: u16)
    ensures
        r == spec_rcode_value(rc),
{
    match rc {
        Rcode::NoError => 0,
        Rcode::FormErr => 1,
        Rcode::NXDomain => 3,
        Rcode::NotImp => 4,
        Rcode::NotAuth => 9,
    }
}

pub open spec fn spec_rcode_value(rc: Rcode) -> u16 {
    match rc {
        Rcode::NoError => 0,
        Rcode::FormErr => 1,
        Rcode::NXDomain => 3,
        Rcode::NotImp => 4,
        Rcode::NotAuth => 9,
    }
}

} // verus!
