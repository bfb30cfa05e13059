//! The hub's place among the requests of a server: which requests are its
//! own, what each of them asks for, and the negotiation request.

use crate::middleware_builder::MiddlewareBuilder;
use crate::process_connect::{is_identifier, process_connect};
use crate::messages::payloads_generations::negotiate_response;
use crate::signal_r_connection::MySignalrConnection;
use vstd::prelude::*;
use vstd::string::StrSliceExecFns;
use vstd::string::StringExecFns;

verus! {

/// The text of a hub's name in lower case, as `str::to_lowercase` gives it.
pub uninterp spec fn lowercase(text: Seq<char>) -> Seq<char>;

/// `text` in lower case. This is `str::to_lowercase` of the standard
/// library, which maps each character by the rules of Unicode; the result is
/// known here by the name `lowercase` only.
#[verifier::external_body]
fn to_lowercase(text: &str) -> (lower: String)
    ensures
        lower@ == lowercase(text@),
{
    text.to_lowercase()
}

/// The path of the negotiation request of the hub `hub_name`: the name
/// between slashes, which are added where the name does not bring them, and
/// `negotiate` behind it.
pub open spec fn negotiate_uri(hub_name: Seq<char>) -> Seq<char> {
    (if hub_name.len() > 0 && hub_name.first() == '/' {
        Seq::<char>::empty()
    } else {
        seq!['/']
    }) + hub_name + (if hub_name.len() > 0 && hub_name.last() == '/' {
        Seq::<char>::empty()
    } else {
        seq!['/']
    }) + "negotiate"@
}

/// The path of the negotiation request of the hub `hub_name`.
pub fn compile_negotiate_uri(hub_name: &str) -> (path: String)
    ensures
        path@ == negotiate_uri(hub_name@),
{
    let length = hub_name.unicode_len();
    let mut result = String::new();
    proof {
        reveal_strlit("/");
        assert("/"@ =~= seq!['/']);
    }
    if !(length > 0 && hub_name.get_char(0) == '/') {
        result.append("/");
    }
    result.append(hub_name);
    if !(length > 0 && hub_name.get_char(length - 1) == '/') {
        result.append("/");
    }
    result.append("negotiate");
    proof {
        assert(result@ =~= negotiate_uri(hub_name@));
    }
    result
}

/// The value of one decimal digit, where `c` is one.
pub open spec fn digit_value(c: char) -> Option<nat> {
    if '0' as u32 <= c as u32 <= '9' as u32 {
        Some((c as u32 - '0' as u32) as nat)
    } else {
        None
    }
}

/// The number that `digits` writes in decimal, where it is one digit or more
/// and nothing else.
pub open spec fn digits_value(digits: Seq<char>) -> Option<nat>
    decreases digits.len(),
{
    if digits.len() == 0 {
        None
    } else {
        match digit_value(digits.last()) {
            None => None,
            Some(last) => if digits.len() == 1 {
                Some(last)
            } else {
                match digits_value(digits.drop_last()) {
                    None => None,
                    Some(front) => Some(front * 10 + last),
                }
            },
        }
    }
}

/// The negotiation version that `text` writes: decimal digits, with a plus
/// sign in front or without, for a number that a `usize` holds.
pub open spec fn version_of(text: Seq<char>) -> Option<usize> {
    let digits = if text.len() > 0 && text.first() == '+' {
        text.drop_first()
    } else {
        text
    };
    match digits_value(digits) {
        Some(value) => if value <= usize::MAX {
            Some(value as usize)
        } else {
            None
        },
        None => None,
    }
}

proof fn lemma_digits_value_grows(digits: Seq<char>)
    requires
        digits.len() > 1,
        digits_value(digits) is Some,
    ensures
        digits_value(digits.drop_last()) is Some,
        digits_value(digits)->0 >= digits_value(digits.drop_last())->0 * 10,
{
}

/// Once a prefix of `digits` is no number or is beyond `limit`, so is the
/// whole.
proof fn lemma_digits_value_prefix(digits: Seq<char>, n: int, limit: nat)
    requires
        1 <= n <= digits.len(),
        digits_value(digits.subrange(0, n)) is None || digits_value(digits.subrange(0, n))->0
            > limit,
    ensures
        digits_value(digits) is None || digits_value(digits)->0 > limit,
    decreases digits.len() - n,
{
    if n < digits.len() {
        let shorter = digits.subrange(0, n);
        let longer = digits.subrange(0, n + 1);
        assert(longer.drop_last() =~= shorter);
        assert(digits_value(longer) is None || digits_value(longer)->0 > limit) by {
            if digits_value(longer) is Some {
                lemma_digits_value_grows(longer);
            }
        }
        lemma_digits_value_prefix(digits, n + 1, limit);
    } else {
        assert(digits.subrange(0, n) =~= digits);
    }
}

/// Reads a negotiation version.
pub fn parse_version(text: &str) -> (version: Option<usize>)
    ensures
        version == version_of(text@),
{
    let length = text.unicode_len();
    let start: usize = if length > 0 && text.get_char(0) == '+' {
        1
    } else {
        0
    };
    let ghost digits = if start == 1 {
        text@.drop_first()
    } else {
        text@
    };
    proof {
        assert(digits =~= text@.subrange(start as int, length as int));
    }
    if start == length {
        return None;
    }
    let mut value: usize = 0;
    let mut i: usize = start;
    while i < length
        invariant
            length == text@.len(),
            start <= i <= length,
            start < length,
            digits == text@.subrange(start as int, length as int),
            digits == if text@.len() > 0 && text@.first() == '+' {
                text@.drop_first()
            } else {
                text@
            },
            i > start ==> digits_value(digits.subrange(0, i - start)) == Some(value as nat),
            i == start ==> value == 0,
        decreases length - i,
    {
        let c = text.get_char(i);
        let ghost shorter = digits.subrange(0, i - start);
        let ghost longer = digits.subrange(0, i - start + 1);
        proof {
            assert(longer.drop_last() =~= shorter);
            assert(longer.last() == c);
        }
        if !(c >= '0' && c <= '9') {
            proof {
                assert(digit_value(c) is None);
                assert(digits_value(longer) is None);
                lemma_digits_none_prefix(digits, i - start + 1);
            }
            return None;
        }
        let digit: usize = (c as u32 - '0' as u32) as usize;
        if value > (usize::MAX - digit) / 10 {
            proof {
                assert(digits_value(longer) == Some((value * 10 + digit) as nat));
                lemma_digits_value_prefix(digits, i - start + 1, usize::MAX as nat);
            }
            return None;
        }
        value = value * 10 + digit;
        i += 1;
    }
    proof {
        assert(digits.subrange(0, length - start) =~= digits);
    }
    Some(value)
}

/// Once a prefix of `digits` is no number, neither is the whole.
proof fn lemma_digits_none_prefix(digits: Seq<char>, n: int)
    requires
        1 <= n <= digits.len(),
        digits_value(digits.subrange(0, n)) is None,
    ensures
        digits_value(digits) is None,
    decreases digits.len() - n,
{
    if n < digits.len() {
        let shorter = digits.subrange(0, n);
        let longer = digits.subrange(0, n + 1);
        assert(longer.drop_last() =~= shorter);
        lemma_digits_none_prefix(digits, n + 1);
    } else {
        assert(digits.subrange(0, n) =~= digits);
    }
}

/// What is known of a request when the hub is asked about it.
pub struct RequestFacts {
    /// Whether the first segment of the path is the hub's name, whatever the
    /// case of its letters.
    pub path_starts_with_hub: bool,
    /// Whether the request carries the header `sec-websocket-key`.
    pub has_web_socket_key: bool,
    /// Whether the request is still there in its raw form, so that it can be
    /// upgraded.
    pub is_raw_request: bool,
    pub is_post: bool,
    /// Whether the path is the hub's negotiation path.
    pub is_negotiate_path: bool,
}

/// What the hub does with a request.
#[derive(Debug, Clone, Copy, PartialEq, Eq, Structural)]
pub enum RequestRoute {
    /// The request is not the hub's: the next handler gets it.
    Next,
    /// The request opens a transport, which gets the session id
    /// `web_socket_id`.
    UpgradeWebSocket { web_socket_id: i64 },
    /// The request is a negotiation request.
    Negotiate,
}

/// Why a negotiation request is refused.
#[derive(Debug, Clone, Copy, PartialEq, Eq, Structural)]
pub enum NegotiateError {
    /// The version that the request names is no number.
    InvalidNegotiateVersion,
}

/// What `facts` ask the hub for, where `next_socket_id` is the session id
/// that the next transport gets.
pub open spec fn route_of(facts: RequestFacts, next_socket_id: i64) -> RequestRoute {
    if !facts.path_starts_with_hub {
        RequestRoute::Next
    } else if facts.has_web_socket_key {
        if facts.is_raw_request {
            RequestRoute::UpgradeWebSocket { web_socket_id: next_socket_id }
        } else {
            RequestRoute::Next
        }
    } else if facts.is_post && facts.is_negotiate_path {
        RequestRoute::Negotiate
    } else {
        RequestRoute::Next
    }
}

/// The negotiation version of a request: the one that its query names, or
/// zero where it names none.
pub open spec fn requested_version(negotiate_version: Option<&str>) -> Option<usize> {
    match negotiate_version {
        Some(text) => version_of(text@),
        None => Some(0usize),
    }
}

pub struct MySignalrMiddleware {
    hub_name: String,
    negotiate_path: String,
    socket_id: i64,
    disconnect_timeout_nanos: u128,
}

impl MySignalrMiddleware {
    /// The hub's name, in lower case.
    pub closed spec fn hub_name(&self) -> Seq<char> {
        self.hub_name@
    }

    /// The path of the hub's negotiation request.
    pub closed spec fn negotiate_path(&self) -> Seq<char> {
        self.negotiate_path@
    }

    /// The session id that the last transport got; zero before the first.
    pub closed spec fn socket_id(&self) -> i64 {
        self.socket_id
    }

    /// The silence after which a connection is taken for dead, in
    /// nanoseconds.
    pub closed spec fn disconnect_timeout_nanos(&self) -> u128 {
        self.disconnect_timeout_nanos
    }

    pub fn new_with_builder<TAction, TTransport>(hub_name: &str) -> (builder: MiddlewareBuilder<
        TAction,
        TTransport,
    >)
        ensures
            builder.wf(),
            builder.hub_name() == hub_name@,
            builder.actions() == Map::<Seq<char>, TAction>::empty(),
            builder.transport_callbacks() is None,
            builder.disconnect_timeout_nanos()
                == crate::middleware_builder::DEFAULT_DISCONNECT_TIMEOUT_NANOS,
    {
        MiddlewareBuilder::new(String::from_str(hub_name))
    }

    /// The hub `hub_name`, whose name counts in lower case, before its first
    /// transport.
    pub fn new(hub_name: &str, disconnect_timeout_nanos: u128) -> (middleware: Self)
        ensures
            middleware.hub_name() == lowercase(hub_name@),
            middleware.negotiate_path() == negotiate_uri(lowercase(hub_name@)),
            middleware.socket_id() == 0,
            middleware.disconnect_timeout_nanos() == disconnect_timeout_nanos,
    {
        let hub_name = to_lowercase(hub_name);
        Self {
            negotiate_path: compile_negotiate_uri(hub_name.as_str()),
            hub_name,
            socket_id: 0,
            disconnect_timeout_nanos,
        }
    }

    pub fn get_hub_name(&self) -> (hub_name: &String)
        ensures
            hub_name@ == self.hub_name(),
    {
        &self.hub_name
    }

    pub fn get_negotiate_path(&self) -> (path: &String)
        ensures
            path@ == self.negotiate_path(),
    {
        &self.negotiate_path
    }

    pub fn get_disconnect_timeout_nanos(&self) -> (nanos: u128)
        ensures
            nanos == self.disconnect_timeout_nanos(),
    {
        self.disconnect_timeout_nanos
    }

    /// Whether a next session id can be given out.
    pub fn has_socket_id_left(&self) -> (left: bool)
        ensures
            left == (self.socket_id() < i64::MAX),
    {
        self.socket_id < i64::MAX
    }

    /// The session id for the next transport: one more than the last.
    pub fn get_socket_id(&mut self) -> (id: i64)
        requires
            old(self).socket_id() < i64::MAX,
        ensures
            id == old(self).socket_id() + 1,
            final(self).socket_id() == id,
            final(self).hub_name() == old(self).hub_name(),
            final(self).negotiate_path() == old(self).negotiate_path(),
            final(self).disconnect_timeout_nanos() == old(self).disconnect_timeout_nanos(),
    {
        self.socket_id = self.socket_id + 1;
        self.socket_id
    }

    /// What the hub does with a request of which `facts` are known. A
    /// request for another path is not the hub's. One that asks for a
    /// transport gets the next session id. A `POST` to the negotiation path
    /// is a negotiation request. Every other request goes on to the next
    /// handler.
    pub fn handle_request(&mut self, facts: &RequestFacts) -> (route: RequestRoute)
        requires
            old(self).socket_id() < i64::MAX,
        ensures
            route == route_of(*facts, (old(self).socket_id() + 1) as i64),
            final(self).socket_id() == if route is UpgradeWebSocket {
                old(self).socket_id() + 1
            } else {
                old(self).socket_id() as int
            },
            final(self).hub_name() == old(self).hub_name(),
            final(self).negotiate_path() == old(self).negotiate_path(),
            final(self).disconnect_timeout_nanos() == old(self).disconnect_timeout_nanos(),
    {
        if !facts.path_starts_with_hub {
            return RequestRoute::Next;
        }
        if facts.has_web_socket_key {
            if facts.is_raw_request {
                let id = self.get_socket_id();
                return RequestRoute::UpgradeWebSocket { web_socket_id: id };
            }
            return RequestRoute::Next;
        }
        if facts.is_post {
            if facts.is_negotiate_path {
                return RequestRoute::Negotiate;
            }
        }
        RequestRoute::Next
    }

    /// Answers a negotiation request whose query names `negotiate_version`,
    /// or no version, which counts as zero: the new connection, without
    /// transport, and the answer to the client. A version that is no number
    /// is refused.
    pub fn handle_negotiate_request<TCtx: Default>(
        &self,
        negotiate_version: Option<&str>,
        now: i64,
    ) -> (negotiated: Result<(MySignalrConnection<TCtx>, String), NegotiateError>)
        ensures
            match negotiated {
                Ok(created) => {
                    &&& requested_version(negotiate_version) == Some(created.0.negotiation_version)
                    &&& is_identifier(created.0.connection_id@)
                    &&& created.0.connection_token is Some <==> created.0.negotiation_version > 0
                    &&& created.0.connection_token is Some ==> is_identifier(
                        created.0.connection_token->0@,
                    )
                    &&& created.0.web_socket is None
                    &&& !created.0.has_web_socket
                    &&& created.0.created == now
                    &&& created.0.last_incoming_moment == now
                    &&& created.0.connected
                    &&& !created.0.has_greeting
                    &&& created.1@ == negotiate_response(
                        created.0.negotiation_version as nat,
                        created.0.connection_id@,
                        created.0.connection_token,
                    )
                },
                Err(error) => error == NegotiateError::InvalidNegotiateVersion
                    && requested_version(negotiate_version) is None,
            },
    {
        let negotiation_version = match negotiate_version {
            Some(text) => match parse_version(text) {
                Some(version) => version,
                None => {
                    return Err(NegotiateError::InvalidNegotiateVersion);
                },
            },
            None => 0,
        };
        Ok(process_connect(negotiation_version, None, now))
    }
}

} // verus!
