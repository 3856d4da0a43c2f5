//! The decisions of the DNS proxy: what a query is answered with, how long
//! an upstream answer is cached, and the shape of the synthesized answers.

use vstd::prelude::*;

use hickory_proto::op::Message;
use hickory_proto::serialize::binary::BinDecodable;

use crate::clock::secs_to_nanos;
use crate::dns_cache::{dns_get_step, dns_insert_step, key_view, CacheKey, DnsCache, DnsCacheModel};
use crate::filter::{spec_decide, FilterEngine, FilterResult, Verdict};
use crate::text::{chars_of, slice_chars, str_to_lowercase, string_of, to_lowercase};
use crate::upstream::{socket_v4, v4, SocketAddress, UpstreamConfig};

verus! {

broadcast use vstd::string::group_string_axioms;

/// Record type number of an IPv4 address record.
pub const RECORD_A: u16 = 1;

/// Record type number of an IPv6 address record.
pub const RECORD_AAAA: u16 = 28;

/// Time to live, in seconds, of a synthesized answer for a blocked name.
pub const BLOCKED_ANSWER_TTL: u32 = 300;

/// One question of a DNS message: name (as written in the message), record
/// type and class.
#[derive(Debug, Clone)]
pub struct Question {
    pub name: String,
    pub record_type: u16,
    pub class: u16,
}

pub ghost struct QuestionView {
    pub name: Seq<char>,
    pub record_type: u16,
    pub class: u16,
}

impl View for Question {
    type V = QuestionView;

    open spec fn view(&self) -> QuestionView {
        QuestionView { name: self.name@, record_type: self.record_type, class: self.class }
    }
}

pub open spec fn question_views(q: Seq<Question>) -> Seq<QuestionView> {
    q.map_values(|x: Question| x@)
}

/// The parts of a DNS request the proxy decides on.
#[derive(Debug)]
pub struct DnsRequest {
    pub id: u16,
    pub queries: Vec<Question>,
}

#[derive(Debug, Clone, Copy, PartialEq, Eq, Structural)]
pub enum ResponseCode {
    NoError,
    NXDomain,
    ServFail,
}

/// An answer to a blocked name: the unspecified address (`0.0.0.0` for an
/// `A` record, `::` for an `AAAA` record) under the name asked for.
#[derive(Debug)]
pub struct BlockedAnswer {
    pub name: String,
    pub record_type: u16,
    pub ttl: u32,
}

pub ghost struct AnswerView {
    pub name: Seq<char>,
    pub record_type: u16,
    pub ttl: u32,
}

/// A response the proxy synthesizes: always a response to a standard query
/// (class IN answers), with recursion desired and available.
#[derive(Debug)]
pub struct DnsResponse {
    pub id: u16,
    pub response_code: ResponseCode,
    pub recursion_desired: bool,
    pub recursion_available: bool,
    pub queries: Vec<Question>,
    pub answers: Vec<BlockedAnswer>,
}

pub open spec fn answer_views(a: Seq<BlockedAnswer>) -> Seq<AnswerView> {
    a.map_values(|x: BlockedAnswer| AnswerView { name: x.name@, record_type: x.record_type, ttl: x.ttl })
}

fn copy_questions(q: &Vec<Question>) -> (r: Vec<Question>)
    ensures
        question_views(r@) == question_views(q@),
{
    let mut r: Vec<Question> = Vec::new();
    let mut i: usize = 0;
    while i < q.len()
        invariant
            i <= q.len(),
            question_views(r@) == question_views(q@).take(i as int),
        decreases q.len() - i,
    {
        let x = Question { name: q[i].name.clone(), record_type: q[i].record_type, class: q[i].class };
        let ghost before = question_views(r@);
        r.push(x);
        assert(question_views(r@) =~= before.push(x@));
        assert(question_views(q@).take(i + 1) =~= question_views(q@).take(i as int).push(q@[i as int]@));
        i += 1;
    }
    assert(question_views(q@).take(q.len() as int) =~= question_views(q@));
    r
}

/// A response with the request's id and questions, the given code, and no
/// answer.
pub open spec fn is_bare_response(r: DnsResponse, request: DnsRequest, code: ResponseCode) -> bool {
    &&& r.id == request.id
    &&& r.response_code == code
    &&& r.recursion_desired
    &&& r.recursion_available
    &&& question_views(r.queries@) == question_views(request.queries@)
}

fn bare_response(request: &DnsRequest, code: ResponseCode) -> (r: DnsResponse)
    ensures
        is_bare_response(r, *request, code),
        r.answers@.len() == 0,
{
    DnsResponse {
        id: request.id,
        response_code: code,
        recursion_desired: true,
        recursion_available: true,
        queries: copy_questions(&request.queries),
        answers: Vec::new(),
    }
}

/// The answers for a blocked request: one unspecified address for an `A`
/// or `AAAA` first question, none for other types.
pub open spec fn spec_blocked_answers(request: DnsRequest) -> Seq<AnswerView> {
    if request.queries@.len() == 0 {
        seq![]
    } else {
        let q = request.queries@[0];
        if q.record_type == RECORD_A || q.record_type == RECORD_AAAA {
            seq![AnswerView { name: q.name@, record_type: q.record_type, ttl: BLOCKED_ANSWER_TTL }]
        } else {
            seq![]
        }
    }
}

/// The answer to a blocked name: NOERROR with the unspecified address for
/// `A` and `AAAA` questions and no answer for other types (no NXDOMAIN, which
/// makes clients retry with search suffixes).
pub fn make_blocked_response(request: &DnsRequest) -> (r: DnsResponse)
    ensures
        is_bare_response(r, *request, ResponseCode::NoError),
        answer_views(r.answers@) == spec_blocked_answers(*request),
{
    let mut r = bare_response(request, ResponseCode::NoError);
    if request.queries.len() > 0 {
        let q = &request.queries[0];
        if q.record_type == RECORD_A || q.record_type == RECORD_AAAA {
            r.answers.push(
                BlockedAnswer { name: q.name.clone(), record_type: q.record_type, ttl: BLOCKED_ANSWER_TTL },
            );
        }
    }
    assert(answer_views(r.answers@) =~= spec_blocked_answers(*request));
    r
}

/// NXDOMAIN for the request.
pub fn make_nxdomain(request: &DnsRequest) -> (r: DnsResponse)
    ensures
        is_bare_response(r, *request, ResponseCode::NXDomain),
        r.answers@.len() == 0,
{
    bare_response(request, ResponseCode::NXDomain)
}

/// SERVFAIL for the request.
pub fn make_servfail(request: &DnsRequest) -> (r: DnsResponse)
    ensures
        is_bare_response(r, *request, ResponseCode::ServFail),
        r.answers@.len() == 0,
{
    bare_response(request, ResponseCode::ServFail)
}

// ---------------------------------------------------------------------------
// Query decisions.
// ---------------------------------------------------------------------------

/// `str::trim_end_matches('.')`.
pub open spec fn strip_trailing_dots(s: Seq<char>) -> Seq<char>
    decreases s.len(),
{
    if s.len() > 0 && s.last() == '.' {
        strip_trailing_dots(s.drop_last())
    } else {
        s
    }
}

/// The domain a query is for: its name without trailing dots, lowercased.
pub open spec fn spec_query_domain(name: Seq<char>) -> Seq<char> {
    str_to_lowercase(strip_trailing_dots(name))
}

pub fn query_domain(name: &str) -> (r: String)
    ensures
        r@ == spec_query_domain(name@),
{
    let c = chars_of(name);
    let mut n = c.len();
    assert(c@.take(n as int) =~= c@);
    while n > 0 && c[n - 1] == '.'
        invariant
            n <= c.len(),
            strip_trailing_dots(c@) == strip_trailing_dots(c@.take(n as int)),
        decreases n,
    {
        assert(c@.take(n as int).drop_last() =~= c@.take(n - 1));
        n -= 1;
    }
    let t = slice_chars(&c, 0, n);
    assert(t@ =~= c@.take(n as int));
    string_of(&to_lowercase(&t))
}

/// What the proxy does with a request before the cache and the upstream.
#[derive(Debug)]
pub enum QueryDecision {
    /// No question: answer SERVFAIL.
    ServFail,
    /// The filter blocks the domain: answer with `make_blocked_response`.
    Blocked { domain: String, rule: String },
    /// Look the key up in the cache, then ask upstream.
    Lookup { domain: String, key: CacheKey },
}

pub open spec fn decision_is(d: QueryDecision, filter: crate::filter::FilterModel, request: DnsRequest) -> bool {
    if request.queries@.len() == 0 {
        d is ServFail
    } else {
        let q = request.queries@[0];
        let domain = spec_query_domain(q.name@);
        match spec_decide(filter, str_to_lowercase(domain)) {
            Verdict::Blocked(rule) => d matches QueryDecision::Blocked { domain: dm, rule: r }
                && dm@ == domain && r@ == rule,
            _ => d matches QueryDecision::Lookup { domain: dm, key } && dm@ == domain
                && key.name@ == domain && key.record_type == q.record_type,
        }
    }
}

/// Decides a request against the filter: SERVFAIL without a question, the
/// blocked answer when the filter blocks the domain of the first question,
/// and otherwise a lookup keyed by that domain and the record type.
pub fn decide_query(filter: &FilterEngine, request: &DnsRequest) -> (r: QueryDecision)
    ensures
        decision_is(r, filter@, *request),
{
    if request.queries.len() == 0 {
        return QueryDecision::ServFail;
    }
    let q = &request.queries[0];
    let domain = query_domain(q.name.as_str());
    match filter.is_blocked(domain.as_str()) {
        FilterResult::Blocked { rule } => QueryDecision::Blocked { domain, rule },
        _ => {
            let key = CacheKey { name: domain.clone(), record_type: q.record_type };
            QueryDecision::Lookup { domain, key }
        },
    }
}

/// A query for a domain that an exact block rule lists, and no allow rule
/// covers, is refused by that rule; a query for a domain no rule touches is
/// looked up (cache, then upstream).
pub proof fn law_listed_domain_is_refused(
    m: crate::filter::FilterModel,
    request: DnsRequest,
    d: QueryDecision,
)
    requires
        decision_is(d, m, request),
        request.queries@.len() > 0,
    ensures
        ({
            let dom = str_to_lowercase(spec_query_domain(request.queries@[0].name@));
            &&& m.exact_blocks.contains(dom) && !crate::filter::is_allowed_by(m, dom) ==> (d matches QueryDecision::Blocked { rule, .. } && rule@ == dom)
            &&& crate::filter::spec_decide(m, dom) is NotMatched ==> d is Lookup
        }),
{
    let dom = str_to_lowercase(spec_query_domain(request.queries@[0].name@));
    if m.exact_blocks.contains(dom) && !crate::filter::is_allowed_by(m, dom) {
        crate::filter::law_exact_block_blocks(m, dom);
    }
}

/// How long an upstream answer is cached: the least time to live among its
/// answer records (the minimum when it has none), held between the minimum
/// and the maximum.
pub open spec fn spec_cache_ttl(ttls: Seq<u32>, min_ttl: u64, max_ttl: u64) -> u64 {
    let least = if ttls.len() == 0 {
        min_ttl as int
    } else {
        seq_min(ttls) as int
    };
    if least < min_ttl {
        min_ttl
    } else if least > max_ttl {
        max_ttl
    } else {
        least as u64
    }
}

pub open spec fn seq_min(s: Seq<u32>) -> u32
    recommends
        s.len() > 0,
    decreases s.len(),
{
    if s.len() <= 1 {
        s[0]
    } else if s.last() < seq_min(s.drop_last()) {
        s.last()
    } else {
        seq_min(s.drop_last())
    }
}

/// A time to live held between the minimum and the maximum.
pub open spec fn clamp_ttl(t: int, min_ttl: u64, max_ttl: u64) -> int {
    if t < min_ttl {
        min_ttl as int
    } else if t > max_ttl {
        max_ttl as int
    } else {
        t
    }
}

proof fn lemma_seq_min(s: Seq<u32>)
    requires
        s.len() > 0,
    ensures
        forall|i: int| 0 <= i < s.len() ==> seq_min(s) <= #[trigger] s[i],
        exists|i: int| 0 <= i < s.len() && seq_min(s) == #[trigger] s[i],
    decreases s.len(),
{
    if s.len() == 1 {
        assert(seq_min(s) == s[0]);
    } else {
        let init = s.drop_last();
        lemma_seq_min(init);
        assert forall|i: int| 0 <= i < s.len() implies seq_min(s) <= #[trigger] s[i] by {
            if i < init.len() {
                assert(init[i] == s[i]);
            }
        }
        if s.last() < seq_min(init) {
            assert(seq_min(s) == s[s.len() - 1]);
        } else {
            let k = choose|k: int| 0 <= k < init.len() && seq_min(init) == #[trigger] init[k];
            assert(seq_min(s) == s[k]);
        }
    }
}

/// An upstream answer is cached no longer than any of its records allows:
/// the cache time is at most the (clamped) time to live of every answer
/// record, the last included, and it is the clamped time to live of one of
/// them; with no answer record it is the minimum.
pub proof fn law_cache_ttl_is_least(ttls: Seq<u32>, min_ttl: u64, max_ttl: u64)
    requires
        min_ttl <= max_ttl,
    ensures
        forall|i: int| 0 <= i < ttls.len() ==> spec_cache_ttl(ttls, min_ttl, max_ttl) <= clamp_ttl(#[trigger] ttls[i] as int, min_ttl, max_ttl),
        ttls.len() > 0 ==> exists|i: int| 0 <= i < ttls.len() && spec_cache_ttl(ttls, min_ttl, max_ttl) == clamp_ttl(#[trigger] ttls[i] as int, min_ttl, max_ttl),
        ttls.len() == 0 ==> spec_cache_ttl(ttls, min_ttl, max_ttl) == min_ttl,
{
    if ttls.len() > 0 {
        lemma_seq_min(ttls);
        let k = choose|k: int| 0 <= k < ttls.len() && seq_min(ttls) == #[trigger] ttls[k];
        assert(spec_cache_ttl(ttls, min_ttl, max_ttl) == clamp_ttl(ttls[k] as int, min_ttl, max_ttl));
    }
}

pub fn cache_ttl(answer_ttls: &Vec<u32>, min_ttl: u64, max_ttl: u64) -> (r: u64)
    requires
        min_ttl <= max_ttl,
    ensures
        r == spec_cache_ttl(answer_ttls@, min_ttl, max_ttl),
        min_ttl <= r <= max_ttl,
{
    let least: u64 = if answer_ttls.len() == 0 {
        min_ttl
    } else {
        let mut m = answer_ttls[0];
        let mut i: usize = 1;
        assert(answer_ttls@.take(1).len() == 1);
        while i < answer_ttls.len()
            invariant
                1 <= i <= answer_ttls.len(),
                m == seq_min(answer_ttls@.take(i as int)),
            decreases answer_ttls.len() - i,
        {
            assert(answer_ttls@.take(i + 1).drop_last() =~= answer_ttls@.take(i as int));
            if answer_ttls[i] < m {
                m = answer_ttls[i];
            }
            i += 1;
        }
        assert(answer_ttls@.take(answer_ttls.len() as int) =~= answer_ttls@);
        m as u64
    };
    if least < min_ttl {
        min_ttl
    } else if least > max_ttl {
        max_ttl
    } else {
        least
    }
}

/// What `immediate_response` gives: SERVFAIL without a question, the blocked
/// response for a blocked domain, and none for a lookup.
pub open spec fn immediate_response_is(
    r: Option<DnsResponse>,
    request: DnsRequest,
    decision: QueryDecision,
) -> bool {
    match decision {
        QueryDecision::ServFail => r matches Some(resp) && is_bare_response(resp, request, ResponseCode::ServFail)
            && resp.answers@.len() == 0,
        QueryDecision::Blocked { .. } => r matches Some(resp) && is_bare_response(resp, request, ResponseCode::NoError)
            && answer_views(resp.answers@) == spec_blocked_answers(request),
        QueryDecision::Lookup { .. } => r is None,
    }
}

/// The response a decision gives without asking upstream: SERVFAIL when
/// the request has no question, the blocked response for a blocked domain,
/// and none for a lookup.
pub fn immediate_response(request: &DnsRequest, decision: &QueryDecision) -> (r: Option<DnsResponse>)
    ensures
        immediate_response_is(r, *request, *decision),
{
    match decision {
        QueryDecision::ServFail => Some(make_servfail(request)),
        QueryDecision::Blocked { .. } => Some(make_blocked_response(request)),
        QueryDecision::Lookup { .. } => None,
    }
}

/// Stores an upstream answer under `key` for the time `cache_ttl` gives
/// from its answer records' times to live.
pub fn store_answer<R: Clone>(
    cache: &mut DnsCache<R>,
    key: CacheKey,
    response: R,
    answer_ttls: &Vec<u32>,
    config: &DnsServerConfig,
)
    requires
        config.min_ttl <= config.max_ttl,
    ensures
        exists|now: u64|
            final(cache)@ == dns_insert_step(
                old(cache)@,
                key_view(key),
                response,
                secs_to_nanos(spec_cache_ttl(answer_ttls@, config.min_ttl, config.max_ttl)),
                now,
            ),
{
    let ttl = cache_ttl(answer_ttls, config.min_ttl, config.max_ttl);
    cache.insert(key, response, ttl);
}

/// An answer stored after a query is what a lookup of its key returns for
/// at least the minimum cache time: every stored answer lives `min_ttl`
/// seconds or more.
pub proof fn law_stored_answer_is_found<R: Clone>(
    m: DnsCacheModel<R>,
    key: CacheKey,
    response: R,
    answer_ttls: Seq<u32>,
    min_ttl: u64,
    max_ttl: u64,
    now: u64,
    later: u64,
    after: DnsCacheModel<R>,
    r: Option<R>,
)
    requires
        min_ttl <= max_ttl,
        later <= now + secs_to_nanos(min_ttl),
        dns_get_step(
            dns_insert_step(m, key_view(key), response, secs_to_nanos(spec_cache_ttl(answer_ttls, min_ttl, max_ttl)), now),
            after,
            key_view(key),
            later,
            r,
        ),
    ensures
        r matches Some(v) && cloned(response, v),
{
    let t = spec_cache_ttl(answer_ttls, min_ttl, max_ttl);
    assert(min_ttl <= t);
    assert(min_ttl * 1_000_000_000 <= t * 1_000_000_000) by (nonlinear_arith)
        requires
            min_ttl <= t,
    ;
    assert(secs_to_nanos(min_ttl) <= secs_to_nanos(t));
    crate::dns_cache::law_dns_get_after_insert(
        m,
        key_view(key),
        response,
        secs_to_nanos(t),
        now,
        later,
        after,
        r,
    );
}

/// A reply with the query's id: the id is the first two bytes of a DNS
/// message, big-endian; the rest stays. A reply too short to hold an id is
/// left as it is.
pub open spec fn spec_with_query_id(reply: Seq<u8>, id: u16) -> Seq<u8> {
    if reply.len() < 2 {
        reply
    } else {
        seq![(id / 256) as u8, (id % 256) as u8] + reply.skip(2)
    }
}

pub fn with_query_id(reply: Vec<u8>, id: u16) -> (r: Vec<u8>)
    ensures
        r@ == spec_with_query_id(reply@, id),
{
    if reply.len() < 2 {
        return reply;
    }
    let mut r = reply;
    r.set(0, (id / 256) as u8);
    r.set(1, (id % 256) as u8);
    assert(r@ =~= spec_with_query_id(reply@, id));
    r
}

/// Every reply given the query's id carries that id in its header, and the
/// rest of the reply is unchanged.
pub proof fn law_reply_carries_query_id(reply: Seq<u8>, id: u16)
    requires
        reply.len() >= 2,
    ensures
        spec_with_query_id(reply, id)[0] as int * 256 + spec_with_query_id(reply, id)[1] as int == id,
        spec_with_query_id(reply, id).skip(2) == reply.skip(2),
        spec_with_query_id(reply, id).len() == reply.len(),
{
    assert(spec_with_query_id(reply, id).skip(2) =~= reply.skip(2));
}

/// DNS over TCP: the two-byte big-endian length (of the length taken modulo
/// 2^16) followed by the message.
pub open spec fn spec_tcp_frame(msg: Seq<u8>) -> Seq<u8> {
    let n = msg.len() % 65536;
    seq![(n / 256) as u8, (n % 256) as u8] + msg
}

pub fn tcp_frame(msg: &Vec<u8>) -> (r: Vec<u8>)
    ensures
        r@ == spec_tcp_frame(msg@),
{
    let n = msg.len() % 65536;
    let mut r: Vec<u8> = Vec::new();
    r.push((n / 256) as u8);
    r.push((n % 256) as u8);
    let mut i: usize = 0;
    while i < msg.len()
        invariant
            i <= msg.len(),
            n == msg.len() % 65536,
            r@ == seq![(n / 256) as u8, (n % 256) as u8] + msg@.take(i as int),
        decreases msg.len() - i,
    {
        r.push(msg[i]);
        assert(msg@.take(i + 1) =~= msg@.take(i as int).push(msg@[i as int]));
        assert(r@ =~= seq![(n / 256) as u8, (n % 256) as u8] + msg@.take(i + 1));
        i += 1;
    }
    assert(msg@.take(msg.len() as int) =~= msg@);
    r
}

/// A frame announces the length of the message it carries (modulo 2^16,
/// the most two bytes can say), and the message follows unchanged.
pub proof fn law_frame_announces_length(msg: Seq<u8>)
    ensures
        spec_tcp_frame(msg)[0] as int * 256 + spec_tcp_frame(msg)[1] as int == msg.len() % 65536,
        spec_tcp_frame(msg).skip(2) == msg,
{
    assert(spec_tcp_frame(msg).skip(2) =~= msg);
}

/// The length a DNS-over-TCP frame announces.
pub fn tcp_frame_length(hi: u8, lo: u8) -> (r: usize)
    ensures
        r == hi as int * 256 + lo as int,
{
    (hi as usize) * 256 + (lo as usize)
}

// ---------------------------------------------------------------------------
// Messages on the wire.
// ---------------------------------------------------------------------------

#[verifier::external_type_specification]
#[verifier::external_body]
pub struct ExMessage(hickory_proto::op::Message);

/// What the proxy reads of a DNS message: its id, its questions (names as
/// the message writes them) and the times to live of its answer records.
pub ghost struct MessageView {
    pub id: u16,
    pub queries: Seq<QuestionView>,
    pub answer_ttls: Seq<u32>,
}

/// What `Message::from_bytes` reads from `data`, or none when the bytes are
/// no DNS message.
pub uninterp spec fn wire_message(data: Seq<u8>) -> Option<MessageView>;

/// A message read from the wire, with the parts the proxy decides on.
pub struct DecodedMessage {
    pub message: Message,
    pub id: u16,
    pub queries: Vec<Question>,
    pub answer_ttls: Vec<u32>,
}

pub open spec fn decoded_view(d: Option<DecodedMessage>) -> Option<MessageView> {
    match d {
        Some(m) => Some(
            MessageView { id: m.id, queries: question_views(m.queries@), answer_ttls: m.answer_ttls@ },
        ),
        None => None,
    }
}

/// Calls `Message::from_bytes` and reads off the id, the questions (name,
/// type and class as numbers) and the answers' times to live. Claims that
/// these are what the name `wire_message` gives for the bytes, and none
/// exactly when the bytes do not parse.
#[verifier::external_body]
pub(crate) fn decode_message(data: &[u8]) -> (r: Option<DecodedMessage>)
    ensures
        decoded_view(r) == wire_message(data@),
{
    let m = Message::from_bytes(data).ok()?;
    let queries = m.queries().iter().map(|q| Question {
        name: q.name().to_string(),
        record_type: u16::from(q.query_type()),
        class: u16::from(q.query_class()),
    }).collect();
    let answer_ttls = m.answers().iter().map(|a| a.ttl()).collect();
    Some(DecodedMessage { id: m.id(), queries, answer_ttls, message: m })
}

/// What the proxy does with the bytes of one query before the cache and the
/// upstream.
pub enum QueryStep {
    /// The bytes are no DNS message.
    Malformed,
    /// The message, the request read from it, the decision on it, and the
    /// response to send at once (none for a lookup).
    Decided { message: Message, request: DnsRequest, decision: QueryDecision, response: Option<DnsResponse> },
}

/// The request `v` describes.
pub open spec fn request_matches(request: DnsRequest, v: MessageView) -> bool {
    request.id == v.id && question_views(request.queries@) == v.queries
}

/// Reads a query off the wire and decides it: malformed bytes are reported
/// as such; otherwise the request is decided against the filter, with the
/// immediate response where there is one.
pub fn handle_query_bytes(filter: &FilterEngine, data: &[u8]) -> (r: QueryStep)
    ensures
        match wire_message(data@) {
            None => r is Malformed,
            Some(v) => r matches QueryStep::Decided { request, decision, response, .. }
                && request_matches(request, v)
                && decision_is(decision, filter@, request)
                && immediate_response_is(response, request, decision),
        },
{
    match decode_message(data) {
        None => QueryStep::Malformed,
        Some(decoded) => {
            let DecodedMessage { message, id, queries, answer_ttls } = decoded;
            let request = DnsRequest { id, queries };
            let decision = decide_query(filter, &request);
            let response = immediate_response(&request, &decision);
            QueryStep::Decided { message, request, decision, response }
        },
    }
}

/// A response sent at once answers the query it was read from: same id and
/// same questions as the message on the wire.
pub proof fn law_immediate_response_answers_query(
    v: MessageView,
    request: DnsRequest,
    decision: QueryDecision,
    response: DnsResponse,
)
    requires
        request_matches(request, v),
        immediate_response_is(Some(response), request, decision),
    ensures
        response.id == v.id,
        question_views(response.queries@) == v.queries,
        response.recursion_desired && response.recursion_available,
{
}

/// Reads an upstream reply off the wire: the message with the times to live
/// of its answer records, or none when the bytes are no DNS message.
pub fn read_reply(data: &[u8]) -> (r: Option<(Message, Vec<u32>)>)
    ensures
        match wire_message(data@) {
            None => r is None,
            Some(v) => r matches Some((_, ttls)) && ttls@ == v.answer_ttls,
        },
{
    match decode_message(data) {
        None => None,
        Some(decoded) => Some((decoded.message, decoded.answer_ttls)),
    }
}

/// Where a resolution stands after one upstream attempt.
pub enum ResolveStep {
    /// A reply decoded: it is the answer, with its answer times to live.
    Answered(Message, Vec<u32>),
    /// Make the attempt with this number next.
    Try(usize),
    /// No attempt is left and none brought a reply.
    AllFailed,
}

/// After attempt `index` of `total` brought `reply` (the decoded reply, or
/// none when the exchange failed or its bytes did not decode): the first
/// reply ends the resolution; otherwise the next attempt follows, until
/// none is left.
pub fn resolve_step(total: usize, index: usize, reply: Option<(Message, Vec<u32>)>) -> (r: ResolveStep)
    requires
        index < total,
    ensures
        match reply {
            Some((_, ttls)) => r matches ResolveStep::Answered(_, t) && t@ == ttls@,
            None => if index + 1 < total {
                r matches ResolveStep::Try(j) && j == index + 1
            } else {
                r is AllFailed
            },
        },
{
    match reply {
        Some((m, ttls)) => ResolveStep::Answered(m, ttls),
        None => if index + 1 < total {
            ResolveStep::Try(index + 1)
        } else {
            ResolveStep::AllFailed
        },
    }
}

// ---------------------------------------------------------------------------
// Server settings and lifecycle.
// ---------------------------------------------------------------------------

/// What the proxy reports about each query it handles.
#[derive(Debug, Clone)]
pub struct QueryInfo {
    pub domain: String,
    pub query_type: String,
    pub blocked: bool,
    pub cached: bool,
    pub rule: Option<String>,
    pub response_time_ms: u32,
}

/// The proxy's settings; the times to live are in seconds.
#[derive(Debug)]
pub struct DnsServerConfig {
    pub listen_addr: SocketAddress,
    pub upstream: UpstreamConfig,
    pub cache_size: usize,
    pub max_ttl: u64,
    pub min_ttl: u64,
}

impl DnsServerConfig {
    /// `127.0.0.1:53`, AdGuard upstream, 10000 entries, times to live between
    /// one minute and one day.
    pub fn default() -> (r: Self)
        ensures
            r.listen_addr == v4(127, 0, 0, 1, 53),
            r.upstream.providers.len() == 1,
            r.upstream.providers[0] is AdGuard,
            r.upstream.timeout_secs == 5,
            r.upstream.retries == 2,
            r.cache_size == 10000,
            r.max_ttl == 86400,
            r.min_ttl == 60,
    {
        DnsServerConfig {
            listen_addr: socket_v4(127, 0, 0, 1, 53),
            upstream: UpstreamConfig::default(),
            cache_size: 10000,
            max_ttl: 86400,
            min_ttl: 60,
        }
    }
}

/// Why the proxy could not change its running state.
#[derive(Debug, Clone, Copy, PartialEq, Eq, Structural)]
pub enum LifecycleError {
    AlreadyRunning,
    NotRunning,
}

/// Whether the proxy runs.
pub struct ServerLifecycle {
    running: bool,
}

impl ServerLifecycle {
    pub closed spec fn spec_running(&self) -> bool {
        self.running
    }

    pub fn new() -> (r: Self)
        ensures
            !r.spec_running(),
    {
        ServerLifecycle { running: false }
    }

    /// Marks the proxy started; refused when it already runs.
    pub fn start(&mut self) -> (r: Result<(), LifecycleError>)
        ensures
            old(self).spec_running() ==> r == Err::<(), _>(LifecycleError::AlreadyRunning)
                && final(self).spec_running(),
            !old(self).spec_running() ==> r is Ok && final(self).spec_running(),
    {
        if self.running {
            return Err(LifecycleError::AlreadyRunning);
        }
        self.running = true;
        Ok(())
    }

    /// Marks the proxy stopped; refused when it does not run.
    pub fn stop(&mut self) -> (r: Result<(), LifecycleError>)
        ensures
            !old(self).spec_running() ==> r == Err::<(), _>(LifecycleError::NotRunning)
                && !final(self).spec_running(),
            old(self).spec_running() ==> r is Ok && !final(self).spec_running(),
    {
        if !self.running {
            return Err(LifecycleError::NotRunning);
        }
        self.running = false;
        Ok(())
    }

    pub fn is_running(&self) -> (r: bool)
        ensures
            r == self.spec_running(),
    {
        self.running
    }
}

} // verus!
