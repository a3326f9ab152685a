//! The decisions around one forwarded request: who asks, where the request
//! goes, what is measured of the outcome and what the client gets back.
//!
//! The request itself is sent by the caller. Before it, `plan_forward` fixes
//! the host and the outbound address; after it, `settle` turns the outcome into
//! the record for the load state and the reply for the client.

use crate::hashing::key_hash;
use crate::picker::{average_route, hash_route, pick_host_from_hash, pick_host_lowest_average};
use crate::strategy::RoutingStrategy;
use crate::target::{query_text, target_of, target_url};
use crate::window::ResponseInfo;
use vstd::prelude::*;
use vstd::string::{StrSliceExecFns, StringExecFns};

verus! {

/// One header line: its name, and its value as the bytes on the wire.
#[derive(Debug)]
pub struct Header {
    pub name: String,
    pub value: Vec<u8>,
}

/// Status and headers of a response, with its body of whatever kind.
#[derive(Debug)]
pub struct Response<B> {
    pub status: u16,
    pub headers: Vec<Header>,
    pub body: B,
}

/// How the outbound request ended.
#[derive(Debug)]
pub enum Outcome<B> {
    /// The backend answered within the deadline.
    Completed(Response<B>),
    /// The deadline passed first.
    TimedOut,
    /// The transport failed; the text says how.
    Failed(String),
}

/// Why a request could not be answered from a backend.
#[derive(Debug)]
pub enum ForwardError {
    /// The backend did not answer within the deadline.
    GatewayTimeout,
    /// The transport to the backend failed; the text says how.
    Internal(String),
}

/// What is left to do once the outbound request has ended.
#[derive(Debug)]
pub struct Settlement<B> {
    /// The measurement for the load state.
    pub record: ResponseInfo,
    /// The answer for the client.
    pub reply: Result<Response<B>, ForwardError>,
}

/// Where a request goes.
#[derive(Debug)]
pub struct ForwardPlan {
    /// Index of the chosen host.
    pub target_index: usize,
    /// Address of the outbound request.
    pub url: String,
    /// Header to append to the outbound request, if the peer is known.
    pub forwarded: Option<Header>,
}

/// `c`, or its lower-case form if it is an upper-case ASCII letter.
pub open spec fn ascii_lower(c: char) -> char {
    if 'A' <= c && c <= 'Z' {
        ((c as u8 + 32) as u8) as char
    } else {
        c
    }
}

/// The header name that is not passed on.
pub open spec fn connection_name() -> Seq<char> {
    seq!['c', 'o', 'n', 'n', 'e', 'c', 't', 'i', 'o', 'n']
}

/// `name` is `connection`, whatever the case of its letters.
pub open spec fn names_connection(name: Seq<char>) -> bool {
    name.map_values(|c: char| ascii_lower(c)) == connection_name()
}

/// The headers that are passed on to the client: all but `connection`, in
/// their order.
pub open spec fn passed_on(headers: Seq<Header>) -> Seq<Header> {
    headers.filter(|h: Header| !names_connection(h.name@))
}

/// The agent identifier of a peer: its address, or `anonymous` if unknown.
pub open spec fn agent_of(peer_ip: Option<&str>) -> Seq<char> {
    match peer_ip {
        Some(ip) => ip@,
        None => "anonymous"@,
    }
}

/// The value of the `forwarded` header for the peer address `ip`.
pub open spec fn forwarded_for(ip: Seq<char>) -> Seq<u8> {
    vstd::utf8::encode_utf8("for="@ + ip)
}

/// `index` is a host that `strategy` may pick.
pub open spec fn is_pick(
    strategy: RoutingStrategy,
    agent: Seq<char>,
    averages: Seq<u64>,
    excludes: Seq<usize>,
    index: int,
) -> bool {
    match strategy {
        RoutingStrategy::Hash => index == hash_route(
            key_hash(agent),
            averages.len() as int,
            excludes,
        ),
        RoutingStrategy::MovingAverage => exists|fallback: u64|
            index == #[trigger] average_route(averages, excludes, fallback),
    }
}

/// Two hash picks for one agent agree whenever the number of hosts and the
/// exclusions are the same, whatever the averages are.
pub proof fn lemma_hash_pick_is_stable(
    agent: Seq<char>,
    averages: Seq<u64>,
    later_averages: Seq<u64>,
    excludes: Seq<usize>,
    first: int,
    second: int,
)
    requires
        averages.len() == later_averages.len(),
        is_pick(RoutingStrategy::Hash, agent, averages, excludes, first),
        is_pick(RoutingStrategy::Hash, agent, later_averages, excludes, second),
    ensures
        first == second,
{
}

/// No header named `connection` is passed on, and every other header is.
pub proof fn lemma_passed_on(headers: Seq<Header>)
    ensures
        forall|i: int|
            0 <= i < passed_on(headers).len() ==> !names_connection(
                (#[trigger] passed_on(headers)[i]).name@,
            ),
        forall|i: int|
            0 <= i < headers.len() && !names_connection(headers[i].name@) ==> passed_on(
                headers,
            ).contains(#[trigger] headers[i]),
        passed_on(headers).len() <= headers.len(),
{
    let keep = |h: Header| !names_connection(h.name@);
    assert forall|i: int| 0 <= i < passed_on(headers).len() implies !names_connection(
        (#[trigger] passed_on(headers)[i]).name@,
    ) by {
        headers.lemma_filter_pred(keep, i);
    }
    assert forall|i: int|
        0 <= i < headers.len() && !names_connection(headers[i].name@) implies passed_on(
        headers,
    ).contains(#[trigger] headers[i]) by {
        headers.lemma_filter_contains(keep, i);
    }
    headers.lemma_filter_len(keep);
}

/// The agent identifier for a request: the peer's address, or `anonymous`
/// where the peer is unknown.
pub fn agent_id(peer_ip: Option<&str>) -> (agent: String)
    ensures
        agent@ == agent_of(peer_ip),
{
    match peer_ip {
        Some(ip) => String::from_str(ip),
        None => String::from_str("anonymous"),
    }
}

/// The header that tells the backend for whom the request is forwarded:
/// `forwarded: for=<ip>`, and none where the peer is unknown.
pub fn forwarded_header(peer_ip: Option<&str>) -> (header: Option<Header>)
    ensures
        match peer_ip {
            Some(ip) => header matches Some(h) && h.name@ == "forwarded"@ && h.value@
                == forwarded_for(ip@),
            None => header is None,
        },
{
    match peer_ip {
        Some(ip) => {
            let text = String::from_str("for=").concat(ip);
            Some(Header { name: String::from_str("forwarded"), value: text.as_str().as_bytes_vec() })
        },
        None => None,
    }
}

/// Tells whether `name` is `connection`, whatever the case of its letters.
pub fn is_connection_header(name: &str) -> (found: bool)
    ensures
        found == names_connection(name@),
{
    let want = "connection";
    proof {
        reveal_strlit("connection");
        assert("connection"@ =~= connection_name());
        vstd::string::is_ascii_spec_bytes(name);
        vstd::string::is_ascii_spec_bytes(want);
    }
    let ghost lowered = name@.map_values(|c: char| ascii_lower(c));
    if !name.is_ascii() {
        proof {
            let i = choose|i: int|
                0 <= i < name@.len() && !('\0' <= #[trigger] name@[i] && name@[i] <= '\u{7f}');
            if lowered == connection_name() {
                assert(lowered[i] == connection_name()[i]);
            }
        }
        return false;
    }
    let bytes = name.as_bytes();
    let wanted = want.as_bytes();
    if bytes.len() != wanted.len() {
        return false;
    }
    let mut i: usize = 0;
    while i < bytes.len()
        invariant
            i <= bytes.len(),
            bytes.len() == wanted.len(),
            bytes@.len() == name@.len(),
            wanted@.len() == 10,
            forall|k: int| 0 <= k < bytes.len() ==> bytes@[k] == name@[k] as u8,
            forall|k: int| 0 <= k < 10 ==> wanted@[k] == #[trigger] connection_name()[k] as u8,
            vstd::string::is_ascii(name),
            forall|k: int| 0 <= k < i ==> ascii_lower(#[trigger] name@[k]) == connection_name()[k],
        decreases bytes.len() - i,
    {
        let b = bytes[i];
        let low = if b >= 65 && b <= 90 {
            b + 32
        } else {
            b
        };
        if low != wanted[i] {
            proof {
                assert(ascii_lower(name@[i as int]) as u8 == low);
                if lowered == connection_name() {
                    assert(lowered[i as int] == connection_name()[i as int]);
                }
            }
            return false;
        }
        proof {
            assert(ascii_lower(name@[i as int]) as u8 == low);
        }
        i = i + 1;
    }
    assert(lowered =~= connection_name());
    true
}

/// Removes every `connection` header from `headers` and leaves the others as
/// they are, in their order.
pub fn strip_connection(headers: &mut Vec<Header>)
    ensures
        final(headers)@ == passed_on(old(headers)@),
{
    let ghost given = headers@;
    let ghost keep = |h: Header| !names_connection(h.name@);
    let ghost mut seen: int = 0;
    let mut i: usize = 0;
    proof {
        reveal(Seq::filter);
        assert(given.take(0).filter(keep) =~= headers@.take(0));
    }
    while i < headers.len()
        invariant
            0 <= seen <= given.len(),
            i <= headers.len(),
            keep == (|h: Header| !names_connection(h.name@)),
            headers@.take(i as int) == given.take(seen).filter(keep),
            headers@.skip(i as int) == given.skip(seen),
        decreases headers.len() - i,
    {
        proof {
            reveal(Seq::filter);
            assert(headers@.skip(i as int).len() == given.skip(seen).len());
            assert(headers@[i as int] == headers@.skip(i as int)[0]);
            assert(given[seen] == given.skip(seen)[0]);
            assert(given.take(seen + 1).drop_last() == given.take(seen));
            assert(given.take(seen + 1).last() == given[seen]);
        }
        if is_connection_header(headers[i].name.as_str()) {
            let ghost before = headers@;
            headers.remove(i);
            proof {
                assert(headers@.take(i as int) == before.take(i as int));
                assert(headers@.skip(i as int) == before.skip(i as int).skip(1));
                assert(given.skip(seen).skip(1) == given.skip(seen + 1));
            }
        } else {
            proof {
                assert(headers@.take(i + 1) == headers@.take(i as int).push(headers@[i as int]));
                assert(headers@.skip(i + 1) == headers@.skip(i as int).skip(1));
                assert(given.skip(seen).skip(1) == given.skip(seen + 1));
            }
            i = i + 1;
        }
        proof {
            seen = seen + 1;
        }
    }
    proof {
        assert(headers@.skip(i as int).len() == 0);
        assert(given.take(seen) == given);
        assert(headers@.take(i as int) == headers@);
    }
}

/// The response for the client: the backend's status and body as they came,
/// and its headers without `connection`.
pub fn relay<B>(upstream: Response<B>) -> (downstream: Response<B>)
    ensures
        downstream.status == upstream.status,
        downstream.headers@ == passed_on(upstream.headers@),
        downstream.body == upstream.body,
{
    let Response { status, headers, body } = upstream;
    let mut headers = headers;
    strip_connection(&mut headers);
    Response { status, headers, body }
}

/// The record of a request issued at `request_start` that ended after
/// `elapsed`: a request that timed out has no wait, any other waited `elapsed`.
pub fn measured(request_start: u64, elapsed: u64, timed_out: bool) -> (record: ResponseInfo)
    ensures
        record.start == request_start,
        record.wait == if timed_out {
            None
        } else {
            Some(elapsed)
        },
{
    ResponseInfo {
        start: request_start,
        wait: if timed_out {
            None
        } else {
            Some(elapsed)
        },
    }
}

/// Turns the outcome of the outbound request into the record for the load
/// state and the reply for the client. Every outcome is measured: an answer
/// and a transport failure with the time they took, a timeout without a wait.
/// An answer is relayed whatever its status; a timeout and a failure become
/// errors.
pub fn settle<B>(outcome: Outcome<B>, request_start: u64, elapsed: u64) -> (done: Settlement<B>)
    ensures
        done.record.start == request_start,
        done.record.wait == if outcome is TimedOut {
            None
        } else {
            Some(elapsed)
        },
        match outcome {
            Outcome::Completed(upstream) => {
                &&& done.reply matches Ok(downstream)
                &&& downstream.status == upstream.status
                &&& downstream.headers@ == passed_on(upstream.headers@)
                &&& downstream.body == upstream.body
            },
            Outcome::TimedOut => done.reply == Err::<Response<B>, ForwardError>(
                ForwardError::GatewayTimeout,
            ),
            Outcome::Failed(why) => done.reply == Err::<Response<B>, ForwardError>(
                ForwardError::Internal(why),
            ),
        },
{
    match outcome {
        Outcome::Completed(upstream) => Settlement {
            record: measured(request_start, elapsed, false),
            reply: Ok(relay(upstream)),
        },
        Outcome::TimedOut => Settlement {
            record: measured(request_start, elapsed, true),
            reply: Err(ForwardError::GatewayTimeout),
        },
        Outcome::Failed(why) => Settlement {
            record: measured(request_start, elapsed, false),
            reply: Err(ForwardError::Internal(why)),
        },
    }
}

impl ForwardError {
    /// The status that tells the client of the error: 504 for a timeout, 500
    /// for a failed transport.
    pub fn status(&self) -> (code: u16)
        ensures
            code == match self {
                ForwardError::GatewayTimeout => 504u16,
                ForwardError::Internal(_) => 500u16,
            },
    {
        match self {
            ForwardError::GatewayTimeout => 504,
            ForwardError::Internal(_) => 500,
        }
    }

    /// The text that tells the client of the error.
    pub fn message(&self) -> (text: String)
        ensures
            text@ == match self {
                ForwardError::GatewayTimeout => "Failed to reach host before timeout"@,
                ForwardError::Internal(why) => why@,
            },
    {
        match self {
            ForwardError::GatewayTimeout => String::from_str("Failed to reach host before timeout"),
            ForwardError::Internal(why) => why.clone(),
        }
    }
}

/// Picks the host for a request of `agent` by `routing_strategy`, passing over
/// the excluded indices: by the hash of `agent`, or by the lowest average.
pub fn pick_host<V>(
    routing_strategy: RoutingStrategy,
    exclude_hosts: &Vec<usize>,
    hosts: &Vec<V>,
    agent: &str,
    averages: &Vec<u64>,
) -> (target_index: usize)
    requires
        hosts.len() > exclude_hosts.len(),
        averages.len() == hosts.len(),
    ensures
        target_index < hosts.len(),
        !exclude_hosts@.contains(target_index),
        is_pick(routing_strategy, agent@, averages@, exclude_hosts@, target_index as int),
{
    match routing_strategy {
        RoutingStrategy::Hash => pick_host_from_hash(hosts, agent, exclude_hosts),
        RoutingStrategy::MovingAverage => pick_host_lowest_average(averages, exclude_hosts),
    }
}

/// The plan for a request that goes to host `target_index`: the host's base
/// URL with the path and query of the inbound request, and the `forwarded`
/// header for a known peer. `None` where the host's base is no absolute URL.
pub fn plan_for(
    target_index: usize,
    hosts: &Vec<String>,
    path: &str,
    query: Option<&str>,
    peer_ip: Option<&str>,
) -> (plan: Option<ForwardPlan>)
    requires
        target_index < hosts.len(),
    ensures
        match plan {
            Some(p) => {
                &&& p.target_index == target_index
                &&& target_of(hosts@[target_index as int]@, path@, query_text(query)) == Some(
                    p.url@,
                )
                &&& match peer_ip {
                    Some(ip) => p.forwarded matches Some(h) && h.name@ == "forwarded"@ && h.value@
                        == forwarded_for(ip@),
                    None => p.forwarded is None,
                }
            },
            None => target_of(hosts@[target_index as int]@, path@, query_text(query)) is None,
        },
{
    match target_url(hosts[target_index].as_str(), path, query) {
        Some(url) => Some(ForwardPlan { target_index, url, forwarded: forwarded_header(peer_ip) }),
        None => None,
    }
}

/// Decides where a request goes: picks the host by `routing_strategy` and
/// builds the outbound address and the `forwarded` header for it.
pub fn plan_forward(
    routing_strategy: RoutingStrategy,
    exclude_hosts: &Vec<usize>,
    hosts: &Vec<String>,
    agent: &str,
    averages: &Vec<u64>,
    path: &str,
    query: Option<&str>,
    peer_ip: Option<&str>,
) -> (plan: Option<ForwardPlan>)
    requires
        hosts.len() > exclude_hosts.len(),
        averages.len() == hosts.len(),
    ensures
        exists|index: int|
            {
                &&& 0 <= index < hosts.len()
                &&& !exclude_hosts@.contains(index as usize)
                &&& #[trigger] is_pick(routing_strategy, agent@, averages@, exclude_hosts@, index)
                &&& match plan {
                    Some(p) => {
                        &&& p.target_index == index
                        &&& target_of(hosts@[index]@, path@, query_text(query)) == Some(p.url@)
                        &&& match peer_ip {
                            Some(ip) => p.forwarded matches Some(h) && h.name@ == "forwarded"@
                                && h.value@ == forwarded_for(ip@),
                            None => p.forwarded is None,
                        }
                    },
                    None => target_of(hosts@[index]@, path@, query_text(query)) is None,
                }
            },
{
    let target_index = pick_host(routing_strategy, exclude_hosts, hosts, agent, averages);
    let plan = plan_for(target_index, hosts, path, query, peer_ip);
    assert(is_pick(routing_strategy, agent@, averages@, exclude_hosts@, target_index as int));
    plan
}

} // verus!
