//! The texts that the server writes: the answer to a negotiation request and
//! the fixed frames of the protocol.

use crate::decimal::{decimal, push_decimal};
use vstd::prelude::*;
use vstd::string::StringExecFns;

verus! {

/// The transports that a negotiation answer offers, as they close the answer.
pub open spec fn available_transports() -> Seq<char> {
    ",\"availableTransports\":[{\"transport\":\"WebSockets\",\"transferFormats\":[\"Text\",\"Binary\"]},{\"transport\":\"ServerSentEvents\",\"transferFormats\":[\"Text\"]},{\"transport\":\"LongPolling\",\"transferFormats\":[\"Text\",\"Binary\"]}]}"@
}

/// The `connectionToken` field of a negotiation answer: present exactly
/// where there is a token.
pub open spec fn token_field(connection_token: Option<String>) -> Seq<char> {
    match connection_token {
        Some(token) => ",\"connectionToken\":\""@ + token@ + "\""@,
        None => Seq::empty(),
    }
}

/// The answer to a negotiation request: the version as the client gave it,
/// the connection's id, its token where it has one, and the transports.
pub open spec fn negotiate_response(
    negotiate_version: nat,
    connection_id: Seq<char>,
    connection_token: Option<String>,
) -> Seq<char> {
    "{\"negotiateVersion\":"@ + decimal(negotiate_version) + ",\"connectionId\":\""@
        + connection_id + "\""@ + token_field(connection_token) + available_transports()
}

pub fn generate_negotiate_response(
    negotiate_version: usize,
    connection_id: &str,
    connection_token: &Option<String>,
) -> (response: String)
    ensures
        response@ == negotiate_response(
            negotiate_version as nat,
            connection_id@,
            *connection_token,
        ),
{
    let mut result = String::new();
    result.append("{\"negotiateVersion\":");
    push_decimal(&mut result, negotiate_version as u64);
    result.append(",\"connectionId\":\"");
    result.append(connection_id);
    result.append("\"");
    let ghost head = result@;
    if let Some(connection_token) = connection_token {
        result.append(",\"connectionToken\":\"");
        result.append(connection_token.as_str());
        result.append("\"");
    }
    proof {
        assert(result@ =~= head + token_field(*connection_token));
    }
    result.append(
        ",\"availableTransports\":[{\"transport\":\"WebSockets\",\"transferFormats\":[\"Text\",\"Binary\"]},{\"transport\":\"ServerSentEvents\",\"transferFormats\":[\"Text\"]},{\"transport\":\"LongPolling\",\"transferFormats\":[\"Text\",\"Binary\"]}]}",
    );
    proof {
        assert(result@ =~= negotiate_response(
            negotiate_version as nat,
            connection_id@,
            *connection_token,
        ));
    }
    result
}

/// The text of a ping frame, without its terminator.
pub open spec fn ping_payload() -> Seq<char> {
    "{\"type\":6}"@
}

pub fn get_ping_payload() -> (payload: &'static str)
    ensures
        payload@ == ping_payload(),
{
    "{\"type\":6}"
}

} // verus!
