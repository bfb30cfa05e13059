//! Negotiation: a new connection with fresh identifiers, and the answer that
//! tells the client of them.

use crate::messages::payloads_generations::{generate_negotiate_response, negotiate_response};
use crate::signal_r_connection::MySignalrConnection;
use vstd::prelude::*;
use vstd::string::StrSliceExecFns;
use vstd::string::StringExecFns;

verus! {

/// A digit or a letter from `a` to `f`.
pub open spec fn is_lower_hex(c: char) -> bool {
    ('0' as u32 <= c as u32 <= '9' as u32) || ('a' as u32 <= c as u32 <= 'f' as u32)
}

/// Whether `i` is a place at which a hyphenated identifier has its hyphen.
pub open spec fn is_hyphen_place(i: int) -> bool {
    i == 8 || i == 13 || i == 18 || i == 23
}

/// The hyphenated form of a universally unique identifier: 32 hexadecimal
/// digits in lower case, in groups of 8, 4, 4, 4 and 12 with a hyphen between
/// each two.
pub open spec fn is_hyphenated_uuid(text: Seq<char>) -> bool {
    &&& text.len() == 36
    &&& forall|i: int|
        0 <= i < 36 ==> if is_hyphen_place(i) {
            #[trigger] text[i] == '-'
        } else {
            is_lower_hex(text[i])
        }
}

/// The form of a connection's id and of its token: 32 hexadecimal digits in
/// lower case.
pub open spec fn is_identifier(text: Seq<char>) -> bool {
    &&& text.len() == 32
    &&& forall|i: int| 0 <= i < 32 ==> is_lower_hex(#[trigger] text[i])
}

/// `text` without its hyphens.
pub open spec fn without_hyphens(text: Seq<char>) -> Seq<char>
    decreases text.len(),
{
    if text.len() == 0 {
        Seq::empty()
    } else if text.last() == '-' {
        without_hyphens(text.drop_last())
    } else {
        without_hyphens(text.drop_last()).push(text.last())
    }
}

/// A random identifier. `uuid::Uuid::new_v4` draws it from the operating
/// system's random numbers, and its `to_string` writes it in the hyphenated
/// form, in lower case. Nothing is claimed of which identifier comes back,
/// nor that two calls give two identifiers. Where the operating system has
/// no random numbers to give, the call does not return.
#[verifier::external_body]
fn new_uuid_v4() -> (id: String)
    ensures
        is_hyphenated_uuid(id@),
{
    uuid::Uuid::new_v4().to_string()
}

/// `text` without its hyphens.
pub fn remove_hyphens(text: &str) -> (stripped: String)
    ensures
        stripped@ == without_hyphens(text@),
{
    let mut stripped = String::new();
    let length = text.unicode_len();
    let mut i: usize = 0;
    proof {
        reveal_strlit("-");
    }
    while i < length
        invariant
            length == text@.len(),
            i <= length,
            "-"@ == seq!['-'],
            stripped@ == without_hyphens(text@.subrange(0, i as int)),
        decreases length - i,
    {
        let letter = text.substring_char(i, i + 1);
        proof {
            let next = text@.subrange(0, i + 1);
            assert(next.drop_last() =~= text@.subrange(0, i as int));
            assert(next.last() == text@[i as int]);
            assert(letter@ =~= seq![text@[i as int]]);
            assert(letter@[0] == text@[i as int]);
        }
        if !crate::messages::signalr_message::same_text(letter, "-") {
            stripped.append(letter);
            proof {
                assert(stripped@ =~= without_hyphens(text@.subrange(0, i + 1)));
            }
        } else {
            proof {
                assert("-"@[0] == '-');
            }
        }
        i += 1;
    }
    proof {
        assert(text@.subrange(0, i as int) =~= text@);
    }
    stripped
}

/// The number of hyphen places below `n`.
spec fn hyphen_places_below(n: int) -> int {
    (if n > 8 { 1int } else { 0 }) + (if n > 13 { 1int } else { 0 }) + (if n > 18 { 1int } else { 0 }) + (if n > 23 {
        1int
    } else {
        0
    })
}

proof fn lemma_prefix_without_hyphens(text: Seq<char>, n: int)
    requires
        is_hyphenated_uuid(text),
        0 <= n <= 36,
    ensures
        without_hyphens(text.subrange(0, n)).len() == n - hyphen_places_below(n),
        forall|i: int|
            0 <= i < without_hyphens(text.subrange(0, n)).len() ==> is_lower_hex(
                #[trigger] without_hyphens(text.subrange(0, n))[i],
            ),
    decreases n,
{
    if n > 0 {
        let prefix = text.subrange(0, n);
        lemma_prefix_without_hyphens(text, n - 1);
        assert(prefix.drop_last() =~= text.subrange(0, n - 1));
        assert(prefix.last() == text[n - 1]);
        if is_hyphen_place(n - 1) {
            assert(text[n - 1] == '-');
        } else {
            assert(is_lower_hex(text[n - 1]));
            assert(text[n - 1] != '-');
        }
    }
}

/// A hyphenated identifier without its hyphens has the form of a
/// connection's id.
pub proof fn lemma_identifier_of_uuid(text: Seq<char>)
    requires
        is_hyphenated_uuid(text),
    ensures
        is_identifier(without_hyphens(text)),
{
    lemma_prefix_without_hyphens(text, 36);
    assert(text.subrange(0, 36) =~= text);
}

/// The connection that negotiation with the version `negotiation_version`
/// creates from the hyphenated identifiers `id_source` and `token_source`,
/// and the answer to the client. The connection has a token exactly where
/// the version is above zero, and the answer names the version, the id and
/// the token.
pub fn connect_with<TCtx: Default>(
    id_source: &str,
    token_source: &str,
    negotiation_version: usize,
    web_socket: Option<i64>,
    now: i64,
) -> (created: (MySignalrConnection<TCtx>, String))
    ensures
        created.0.connection_id@ == without_hyphens(id_source@),
        negotiation_version == 0 ==> created.0.connection_token is None,
        negotiation_version > 0 ==> created.0.connection_token is Some
            && created.0.connection_token->0@ == without_hyphens(token_source@),
        created.0.negotiation_version == negotiation_version,
        created.0.web_socket == web_socket,
        created.0.has_web_socket == web_socket.is_some(),
        created.0.created == now,
        created.0.last_incoming_moment == now,
        created.0.connected,
        !created.0.has_greeting,
        created.1@ == negotiate_response(
            negotiation_version as nat,
            created.0.connection_id@,
            created.0.connection_token,
        ),
{
    let connection_id = remove_hyphens(id_source);
    let connection_token = if negotiation_version == 0 {
        None
    } else {
        Some(remove_hyphens(token_source))
    };
    let response = generate_negotiate_response(
        negotiation_version,
        connection_id.as_str(),
        &connection_token,
    );
    let signal_r_connection = MySignalrConnection::new(
        connection_id,
        connection_token,
        negotiation_version,
        web_socket,
        now,
    );
    (signal_r_connection, response)
}

/// The connection that negotiation with the version `negotiation_version`
/// creates, with random identifiers, and the answer to the client. The
/// connection has a token exactly where the version is above zero, and the
/// answer names the version, the id and the token.
pub fn process_connect<TCtx: Default>(
    negotiation_version: usize,
    web_socket: Option<i64>,
    now: i64,
) -> (created: (MySignalrConnection<TCtx>, String))
    ensures
        is_identifier(created.0.connection_id@),
        created.0.connection_token is Some <==> negotiation_version > 0,
        created.0.connection_token is Some ==> is_identifier(created.0.connection_token->0@),
        created.0.negotiation_version == negotiation_version,
        created.0.web_socket == web_socket,
        created.0.has_web_socket == web_socket.is_some(),
        created.0.created == now,
        created.0.last_incoming_moment == now,
        created.0.connected,
        !created.0.has_greeting,
        created.1@ == negotiate_response(
            negotiation_version as nat,
            created.0.connection_id@,
            created.0.connection_token,
        ),
{
    let id_source = new_uuid_v4();
    let token_source = if negotiation_version == 0 {
        String::new()
    } else {
        new_uuid_v4()
    };
    proof {
        lemma_identifier_of_uuid(id_source@);
        if negotiation_version > 0 {
            lemma_identifier_of_uuid(token_source@);
        }
    }
    connect_with(id_source.as_str(), token_source.as_str(), negotiation_version, web_socket, now)
}

} // verus!
