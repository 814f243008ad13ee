//! The query-answering engine: decode, validate, resolve, encode.
//!
//! `spec_answer` is the mathematical description of the whole engine: what
//! reply, if any, a raw datagram deserves against a given zone. The laws at
//! the bottom of this module state the protocol guarantees the server makes.

use vstd::prelude::*;

use crate::Ipv4;
use crate::bytes::clone_bytes;
use crate::codec::decode_request;
use crate::codec::encode_response;
use crate::codec::encoded_response;
use crate::codec::parsed_request;
use crate::message::Answer;
use crate::message::AnswerView;
use crate::message::CLASS_IN;
use crate::message::OPCODE_QUERY;
use crate::message::QuestionView;
use crate::message::Rcode;
use crate::message::Request;
use crate::message::RequestView;
use crate::message::Response;
use crate::message::ResponseView;
use crate::message::RTYPE_A;
use crate::message::TTL_SECONDS;
use crate::zone::DnsAuthority;

verus! {

/// ASCII `.`, the label separator and root label of presentation-form names.
pub const ROOT_DOT: u8 = 46;

/// A per-request failure of the engine.
#[derive(Clone, Copy, PartialEq, Eq, Structural, Debug)]
pub enum ProtocolError {
    /// The datagram cannot be decoded as a DNS message; it is dropped and no
    /// response is sent.
    Malformed,
    /// The wire-format crate could not serialize the constructed response; an
    /// internal fault for this one request.
    EncodeFailure,
}

/// A queried name with its trailing root label stripped.
pub open spec fn spec_strip_root(name: Seq<u8>) -> Seq<u8> {
    if name.len() > 0 && name.last() == ROOT_DOT {
        name.drop_last()
    } else {
        name
    }
}

pub fn strip_root(name: &Vec<u8>) -> (r: Vec<u8>)
    ensures
        r@ == spec_strip_root(name@),
{
    let mut r = clone_bytes(name);
    if r.len() > 0 && r[r.len() - 1] == ROOT_DOT {
        r.pop();
    }
    r
}

/// Whether the engine answers this kind of question: record type A, class IN.
pub open spec fn is_supported(q: QuestionView) -> bool {
    q.qtype == RTYPE_A && q.qclass == CLASS_IN
}

/// The answer records a question list synthesizes, in question order: one A
/// record per supported question whose stripped name is in the zone, owned by
/// the stripped name, carrying the zone's address and a TTL of 300 seconds.
/// Unsupported questions and absent names contribute nothing; duplicate
/// questions each contribute their own record.
pub open spec fn spec_answers(questions: Seq<QuestionView>, zone: Map<Seq<u8>, Ipv4>) -> Seq<
    AnswerView,
>
    decreases questions.len(),
{
    if questions.len() == 0 {
        Seq::empty()
    } else {
        let front = spec_answers(questions.drop_last(), zone);
        let q = questions.last();
        if is_supported(q) && zone.contains_key(spec_strip_root(q.name)) {
            front.push(
                AnswerView {
                    name: spec_strip_root(q.name),
                    addr: zone[spec_strip_root(q.name)],
                    ttl: TTL_SECONDS,
                },
            )
        } else {
            front
        }
    }
}

/// An answerless response that echoes the request's id and opcode.
pub open spec fn error_response(req: RequestView, rcode: Rcode) -> ResponseView {
    ResponseView {
        id: req.id,
        opcode: req.opcode,
        rcode,
        authoritative: false,
        answers: Seq::empty(),
    }
}

/// What a decoded request resolves to against a zone: `NotImp` for a message
/// that is not a query or not a standard-opcode query; otherwise `NXDomain`
/// when no question synthesizes an answer, and an authoritative `NoError`
/// response carrying the synthesized answers when at least one does.
pub open spec fn spec_resolve(req: RequestView, zone: Map<Seq<u8>, Ipv4>) -> ResponseView {
    if !req.is_query {
        error_response(req, Rcode::NotImp)
    } else if req.opcode != OPCODE_QUERY {
        error_response(req, Rcode::NotImp)
    } else {
        let answers = spec_answers(req.questions, zone);
        if answers.len() == 0 {
            error_response(req, Rcode::NXDomain)
        } else {
            ResponseView {
                id: req.id,
                opcode: req.opcode,
                rcode: Rcode::NoError,
                authoritative: true,
                answers,
            }
        }
    }
}

/// The reply the whole engine owes a raw datagram: `Malformed` when the bytes
/// do not decode as a DNS message (the datagram is dropped), otherwise the
/// encoding of the resolved response, or `EncodeFailure` should the
/// wire-format crate fail to serialize it.
pub open spec fn spec_answer(raw: Seq<u8>, zone: Map<Seq<u8>, Ipv4>) -> Result<
    Seq<u8>,
    ProtocolError,
> {
    match parsed_request(raw) {
        None => Err(ProtocolError::Malformed),
        Some(req) => match encoded_response(spec_resolve(req, zone)) {
            None => Err(ProtocolError::EncodeFailure),
            Some(bytes) => Ok(bytes),
        },
    }
}

fn build_error_response(req: &Request, rcode: Rcode) -> (r: Response)
    ensures
        r@ == error_response(req@, rcode),
{
    let r = Response {
        id: req.id,
        opcode: req.opcode,
        rcode,
        authoritative: false,
        answers: Vec::new(),
    };
    proof {
        assert(r@.answers =~= Seq::<AnswerView>::empty());
        assert(r@ == error_response(req@, rcode));
    }
    r
}

proof fn lemma_answers_view_push(prev: Seq<Answer>, cur: Seq<Answer>, a: Answer)
    requires
        cur == prev.push(a),
    ensures
        cur.map_values(|x: Answer| x@) == prev.map_values(|x: Answer| x@).push(a@),
{
    assert(cur.map_values(|x: Answer| x@) =~= prev.map_values(|x: Answer| x@).push(a@));
}

impl DnsAuthority {
    /// Resolves a decoded request against this zone, per `spec_resolve`.
    pub fn resolve(&self, req: &Request) -> (resp: Response)
        ensures
            resp@ == spec_resolve(req@, self@),
    {
        if !req.is_query {
            return build_error_response(req, Rcode::NotImp);
        }
        if req.opcode != OPCODE_QUERY {
            return build_error_response(req, Rcode::NotImp);
        }
        let mut answers: Vec<Answer> = Vec::new();
        let mut i: usize = 0;
        proof {
            assert(req@.questions.take(0) =~= Seq::<QuestionView>::empty());
            assert(answers@.map_values(|x: Answer| x@) =~= Seq::<AnswerView>::empty());
        }
        while i < req.questions.len()
            invariant
                i <= req@.questions.len(),
                req@.questions.len() == req.questions@.len(),
                answers@.map_values(|x: Answer| x@) == spec_answers(
                    req@.questions.take(i as int),
                    self@,
                ),
            decreases req@.questions.len() - i,
        {
            let q = &req.questions[i];
            proof {
                assert(req@.questions.take(i + 1).drop_last() =~~= req@.questions.take(i as int));
                assert(req@.questions.take(i + 1).last() == req@.questions[i as int]);
                assert(req@.questions[i as int] == req.questions@[i as int]@);
            }
            if q.qtype == RTYPE_A && q.qclass == CLASS_IN {
                let key = strip_root(&q.name);
                match self.lookup(&key) {
                    Some(addr) => {
                        let ghost prev = answers@;
                        answers.push(Answer { name: key, addr, ttl: TTL_SECONDS });
                        proof {
                            lemma_answers_view_push(prev, answers@, answers@.last());
                        }
                    },
                    None => {},
                }
            }
            i = i + 1;
        }
        proof {
            assert(req@.questions.take(i as int) =~~= req@.questions);
        }
        if answers.len() == 0 {
            proof {
                assert(answers@.map_values(|x: Answer| x@).len() == 0);
            }
            return build_error_response(req, Rcode::NXDomain);
        }
        let resp = Response {
            id: req.id,
            opcode: req.opcode,
            rcode: Rcode::NoError,
            authoritative: true,
            answers,
        };
        resp
    }

    /// Answers one raw query datagram: decode, resolve against this zone,
    /// encode. The reply is exactly `spec_answer(raw_content, zone)`; in
    /// particular a buffer that does not decode as a DNS message yields
    /// `Malformed` and no response bytes.
    pub fn answer_query(&self, raw_content: Vec<u8>) -> (r: Result<Vec<u8>, ProtocolError>)
        ensures
            r is Ok <==> spec_answer(raw_content@, self@) is Ok,
            r is Ok ==> r->Ok_0@ == spec_answer(raw_content@, self@)->Ok_0,
            r is Err ==> r->Err_0 == spec_answer(raw_content@, self@)->Err_0,
            parsed_request(raw_content@) is None ==> r == Err::<Vec<u8>, ProtocolError>(
                ProtocolError::Malformed,
            ),
    {
        let req = match decode_request(&raw_content) {
            None => {
                return Err(ProtocolError::Malformed);
            },
            Some(req) => req,
        };
        let resp = self.resolve(&req);
        match encode_response(&resp) {
            Some(bytes) => Ok(bytes),
            None => Err(ProtocolError::EncodeFailure),
        }
    }
}

// ---------------------------------------------------------------------------
// Laws: the protocol guarantees of the engine.
// ---------------------------------------------------------------------------

/// No answer records are synthesized exactly when no question is a supported
/// (A, IN) question whose stripped name the zone holds.
pub proof fn lemma_no_answers_iff_no_match(questions: Seq<QuestionView>, zone: Map<Seq<u8>, Ipv4>)
    ensures
        spec_answers(questions, zone).len() == 0 <==> forall|i: int|
            0 <= i < questions.len() ==> !(is_supported(#[trigger] questions[i])
                && zone.contains_key(spec_strip_root(questions[i].name))),
    decreases questions.len(),
{
    if questions.len() > 0 {
        let front = questions.drop_last();
        let last = questions.last();
        lemma_no_answers_iff_no_match(front, zone);
        assert(last == questions[questions.len() - 1]);
        if is_supported(last) && zone.contains_key(spec_strip_root(last.name)) {
            assert(spec_answers(questions, zone).len() > 0);
            assert(is_supported(questions[questions.len() - 1]) && zone.contains_key(
                spec_strip_root(questions[questions.len() - 1].name),
            ));
        } else {
            assert(spec_answers(questions, zone) == spec_answers(front, zone));
            if spec_answers(questions, zone).len() == 0 {
                assert forall|i: int|
                    0 <= i < questions.len() implies !(is_supported(#[trigger] questions[i])
                    && zone.contains_key(spec_strip_root(questions[i].name))) by {
                    if i < questions.len() - 1 {
                        assert(front[i] == questions[i]);
                        assert(!(is_supported(front[i]) && zone.contains_key(
                            spec_strip_root(front[i].name),
                        )));
                    }
                }
            } else {
                assert(exists|j: int|
                    0 <= j < front.len() && (is_supported(#[trigger] front[j])
                        && zone.contains_key(spec_strip_root(front[j].name))));
                let j = choose|j: int|
                    0 <= j < front.len() && (is_supported(#[trigger] front[j])
                        && zone.contains_key(spec_strip_root(front[j].name)));
                assert(front[j] == questions[j]);
                assert(is_supported(questions[j]) && zone.contains_key(
                    spec_strip_root(questions[j].name),
                ));
            }
        }
    }
}

/// Law: a valid query whose single question asks with type A and class IN for
/// a name present in the zone is answered `NoError` with the authoritative
/// flag set and exactly one answer record, owned by the stripped queried
/// name, carrying the zone's address for it and a TTL of 300 seconds.
pub proof fn lemma_present_name_answered(req: RequestView, zone: Map<Seq<u8>, Ipv4>)
    requires
        req.is_query,
        req.opcode == OPCODE_QUERY,
        req.questions.len() == 1,
        req.questions[0].qtype == RTYPE_A,
        req.questions[0].qclass == CLASS_IN,
        zone.contains_key(spec_strip_root(req.questions[0].name)),
    ensures
        spec_resolve(req, zone) == (ResponseView {
            id: req.id,
            opcode: req.opcode,
            rcode: Rcode::NoError,
            authoritative: true,
            answers: seq![
                AnswerView {
                    name: spec_strip_root(req.questions[0].name),
                    addr: zone[spec_strip_root(req.questions[0].name)],
                    ttl: TTL_SECONDS,
                },
            ],
        }),
{
    let qs = req.questions;
    assert(qs.drop_last() =~= Seq::<QuestionView>::empty());
    assert(spec_answers(qs.drop_last(), zone) =~= Seq::<AnswerView>::empty());
    assert(qs.last() == qs[0]);
    assert(spec_answers(qs, zone) =~= seq![
        AnswerView {
            name: spec_strip_root(req.questions[0].name),
            addr: zone[spec_strip_root(req.questions[0].name)],
            ttl: TTL_SECONDS,
        },
    ]);
}

/// Law: a valid query with at least one supported question whose name the
/// zone holds is answered `NoError`, authoritative, with at least one answer.
pub proof fn lemma_some_match_noerror(req: RequestView, zone: Map<Seq<u8>, Ipv4>, i: int)
    requires
        req.is_query,
        req.opcode == OPCODE_QUERY,
        0 <= i < req.questions.len(),
        is_supported(req.questions[i]),
        zone.contains_key(spec_strip_root(req.questions[i].name)),
    ensures
        spec_resolve(req, zone).rcode == Rcode::NoError,
        spec_resolve(req, zone).authoritative,
        spec_resolve(req, zone).answers.len() > 0,
        spec_resolve(req, zone).id == req.id,
        spec_resolve(req, zone).opcode == req.opcode,
{
    lemma_no_answers_iff_no_match(req.questions, zone);
}

/// Law: a valid query none of whose questions resolves — each one either not
/// an (A, IN) question or asking for a name absent from the zone — is
/// answered `NXDomain` with zero answer records, the id and opcode echoed.
/// A query with no questions at all satisfies this vacuously.
pub proof fn lemma_unresolved_nxdomain(req: RequestView, zone: Map<Seq<u8>, Ipv4>)
    requires
        req.is_query,
        req.opcode == OPCODE_QUERY,
        forall|i: int|
            0 <= i < req.questions.len() ==> !(is_supported(#[trigger] req.questions[i])
                && zone.contains_key(spec_strip_root(req.questions[i].name))),
    ensures
        spec_resolve(req, zone) == error_response(req, Rcode::NXDomain),
        spec_resolve(req, zone).rcode == Rcode::NXDomain,
        spec_resolve(req, zone).answers.len() == 0,
{
    lemma_no_answers_iff_no_match(req.questions, zone);
}

/// Law: a message that is itself a response, not a query, is answered
/// `NotImp` with its id and opcode echoed unchanged and no answers.
pub proof fn lemma_response_message_notimp(req: RequestView, zone: Map<Seq<u8>, Ipv4>)
    requires
        !req.is_query,
    ensures
        spec_resolve(req, zone) == error_response(req, Rcode::NotImp),
        spec_resolve(req, zone).id == req.id,
        spec_resolve(req, zone).opcode == req.opcode,
{
}

/// Law: a query with a non-standard opcode is answered `NotImp` with its id
/// and opcode echoed unchanged and no answers.
pub proof fn lemma_nonstandard_opcode_notimp(req: RequestView, zone: Map<Seq<u8>, Ipv4>)
    requires
        req.is_query,
        req.opcode != OPCODE_QUERY,
    ensures
        spec_resolve(req, zone) == error_response(req, Rcode::NotImp),
        spec_resolve(req, zone).id == req.id,
        spec_resolve(req, zone).opcode == req.opcode,
{
}

/// Law: every response echoes the request's transaction id and opcode
/// unchanged, whatever its outcome.
pub proof fn lemma_response_echoes_request(req: RequestView, zone: Map<Seq<u8>, Ipv4>)
    ensures
        spec_resolve(req, zone).id == req.id,
        spec_resolve(req, zone).opcode == req.opcode,
{
}

/// Law: answer records are present exactly in `NoError` responses, and such
/// a response carries the authoritative flag.
pub proof fn lemma_answers_only_on_noerror(req: RequestView, zone: Map<Seq<u8>, Ipv4>)
    ensures
        spec_resolve(req, zone).answers.len() > 0 <==> spec_resolve(req, zone).rcode
            == Rcode::NoError,
        spec_resolve(req, zone).rcode == Rcode::NoError ==> spec_resolve(req, zone).authoritative,
{
}

/// Law: answering is deterministic — the reply is a function of the raw
/// datagram bytes and the zone alone, so issuing the same query twice
/// against an unchanged zone yields the identical reply.
pub proof fn lemma_same_query_same_reply(raw1: Seq<u8>, raw2: Seq<u8>, zone: Map<Seq<u8>, Ipv4>)
    requires
        raw1 == raw2,
    ensures
        spec_answer(raw1, zone) == spec_answer(raw2, zone),
{
}

} // verus!
