//! The protocol engine: what the arrival, the frames and the departure of a
//! transport session do to the registry, and what they leave the caller to
//! do.

use crate::messages::signalr_message::{
    parsed, same_text, PayloadField, SignalrMessage, SignalrMessageError,
};
use crate::messages::payloads_generations::ping_payload;
use crate::signal_r_connection::{
    kicked_message, record_separator, KickNotice, MySignalrConnection, OutboundText,
};
use crate::process_disconnect::process_disconnect;
use crate::signal_r_connections_list::SignalrConnectionsList;
use crate::signal_r_list::{transports_after_attach, with_attached, RemovedConnection};
use crate::tag_model::without_connection;
use vstd::prelude::*;
use vstd::string::StringExecFns;

verus! {

/// A frame that came in on a transport session.
pub enum WebSocketFrame<'s> {
    /// A text frame, as the fields of the first level of its JSON object.
    Text(&'s [PayloadField<'s>]),
    Binary,
}

/// What a frame leaves the caller to do.
pub enum FrameAction<'s> {
    /// No connection holds the transport session.
    NoConnection,
    /// Nothing.
    Ignored,
    /// The handshake was accepted: the acknowledgement is to be sent.
    HandshakeAccepted(OutboundText),
    /// An invocation is to be routed to the action table.
    Invocation(SignalrMessage<'s>),
    /// The frame announced an invocation and is none: it is dropped.
    Malformed(SignalrMessageError),
    /// A ping came in: the reply is to be sent, if the connection holds a
    /// transport.
    Ping(Option<OutboundText>),
}

/// What the arrival of a transport session leaves the caller to do.
pub enum ConnectedAction {
    /// The session is attached. A transport that lost its place gets the
    /// notice and is closed. The liveness monitor is started where the
    /// connection had no transport before.
    Attached { kicked: Option<KickNotice>, start_liveness_monitor: bool },
    /// The session is not attached: it gets the message and is closed.
    Rejected { message: String },
}

/// The first field of `fields` that is named `name`.
pub open spec fn first_named<'s>(fields: Seq<PayloadField<'s>>, name: Seq<char>) -> Option<
    PayloadField<'s>,
>
    decreases fields.len(),
{
    if fields.len() == 0 {
        None
    } else if fields.first().name@ == name {
        Some(fields.first())
    } else {
        first_named(fields.drop_first(), name)
    }
}

/// The type of a frame: the text of its first field named `type`.
pub open spec fn payload_type<'s>(fields: Seq<PayloadField<'s>>) -> Option<&'s str> {
    match first_named(fields, "type"@) {
        Some(field) => field.text,
        None => None,
    }
}

/// Whether some field of `fields` is named `name`.
pub open spec fn has_field<'s>(fields: Seq<PayloadField<'s>>, name: Seq<char>) -> bool {
    exists|i: int| 0 <= i < fields.len() && (#[trigger] fields[i]).name@ == name
}

/// Whether a frame is the client's handshake: it names a protocol and a
/// version.
pub open spec fn is_handshake<'s>(fields: Seq<PayloadField<'s>>) -> bool {
    has_field(fields, "protocol"@) && has_field(fields, "version"@)
}

/// What the client is told when its transport names no connection.
pub open spec fn missing_id_message() -> Seq<char> {
    "id query parameter is missing"@
}

/// What the client is told when no connection stands under its token.
pub open spec fn not_found_message(connection_token: Seq<char>) -> Seq<char> {
    "SignalR with connection_token "@ + connection_token + " is not found"@
}

/// The type of a frame, where it names one that has a text.
pub fn get_payload_type<'s>(fields: &[PayloadField<'s>]) -> (found: Option<&'s str>)
    ensures
        found == payload_type(fields@),
{
    let mut i: usize = 0;
    proof {
        assert(fields@.subrange(0, fields@.len() as int) =~= fields@);
    }
    while i < fields.len()
        invariant
            i <= fields@.len(),
            payload_type(fields@) == payload_type(fields@.subrange(i as int, fields@.len() as int)),
        decreases fields@.len() - i,
    {
        let ghost rest = fields@.subrange(i as int, fields@.len() as int);
        proof {
            assert(rest.first() == fields@[i as int]);
            assert(rest.drop_first() =~= fields@.subrange(i + 1, fields@.len() as int));
        }
        if same_text(fields[i].name, "type") {
            return fields[i].text;
        }
        i += 1;
    }
    None
}

/// Whether some field of `fields` is named `name`.
fn names_field<'s>(fields: &[PayloadField<'s>], name: &str) -> (found: bool)
    ensures
        found == has_field(fields@, name@),
{
    let mut i: usize = 0;
    while i < fields.len()
        invariant
            i <= fields@.len(),
            forall|k: int| 0 <= k < i ==> (#[trigger] fields@[k]).name@ != name@,
        decreases fields@.len() - i,
    {
        if same_text(fields[i].name, name) {
            return true;
        }
        i += 1;
    }
    false
}

/// Whether the first frame of a connection is the client's handshake.
pub fn read_first_payload<'s>(fields: &[PayloadField<'s>]) -> (accepted: bool)
    ensures
        accepted == is_handshake(fields@),
{
    let protocol = names_field(fields, "protocol");
    let version = names_field(fields, "version");
    protocol && version
}

/// The acknowledgement of a handshake, without its terminator.
pub open spec fn handshake_acknowledgement() -> Seq<char> {
    "{}"@
}

/// Whether `reply` is `text` with the record separator behind it, for the
/// transport session `web_socket_id`.
pub open spec fn is_reply(reply: Option<OutboundText>, web_socket_id: i64, text: Seq<char>) -> bool {
    match reply {
        Some(reply) => reply.web_socket_id == web_socket_id && reply.text@ == text
            + record_separator(),
        None => false,
    }
}

/// Whether `action` is what `frame` asks for, on the transport session
/// `web_socket_id`, of a connection whose handshake is accepted or not yet.
///
/// Before the handshake only the handshake counts: every other frame is
/// ignored, an invocation too. After it the frame's type decides: `1` is an
/// invocation, `6` is a ping, and every other frame is ignored, a second
/// handshake too.
pub open spec fn frame_decision<'s>(
    has_greeting: bool,
    web_socket_id: i64,
    frame: WebSocketFrame<'s>,
    action: FrameAction<'s>,
) -> bool {
    match frame {
        WebSocketFrame::Binary => action is Ignored,
        WebSocketFrame::Text(fields) => if !has_greeting {
            if is_handshake(fields@) {
                action matches FrameAction::HandshakeAccepted(reply) && reply.web_socket_id
                    == web_socket_id && reply.text@ == handshake_acknowledgement()
                    + record_separator()
            } else {
                action is Ignored
            }
        } else {
            match payload_type(fields@) {
                Some(kind) => if kind@ == "1"@ {
                    match parsed(fields@) {
                        Ok(message) => action == FrameAction::Invocation(message),
                        Err(error) => action == FrameAction::<'s>::Malformed(error),
                    }
                } else if kind@ == "6"@ {
                    action matches FrameAction::Ping(reply) && is_reply(
                        reply,
                        web_socket_id,
                        ping_payload(),
                    )
                } else {
                    action is Ignored
                },
                None => action is Ignored,
            }
        },
    }
}

pub struct WebSocketCallbacks<TCtx> {
    pub signalr_list: SignalrConnectionsList<TCtx>,
}

impl<TCtx> WebSocketCallbacks<TCtx> {
    /// A transport session has opened and names `connection_token`, or names
    /// nothing. It is attached to the connection under that token; where
    /// there is none, or no token, it is rejected and nothing changes.
    pub fn connected(&mut self, web_socket_id: i64, connection_token: Option<&str>) -> (action:
        ConnectedAction)
        requires
            old(self).signalr_list.wf(),
        ensures
            final(self).signalr_list.wf(),
            final(self).signalr_list.tags() == old(self).signalr_list.tags(),
            match action {
                ConnectedAction::Attached { kicked, start_liveness_monitor } => {
                    &&& connection_token is Some
                    &&& old(self).signalr_list.connections().contains_key(connection_token->0@)
                    &&& {
                        let token = connection_token->0@;
                        let before = old(self).signalr_list.connections()[token];
                        &&& final(self).signalr_list.connections() == with_attached(
                            old(self).signalr_list.connections(),
                            token,
                            web_socket_id,
                        )
                        &&& final(self).signalr_list.transports() == transports_after_attach(
                            old(self).signalr_list.connections(),
                            old(self).signalr_list.transports(),
                            token,
                            web_socket_id,
                        )
                        &&& start_liveness_monitor == (before.web_socket is None)
                        &&& match kicked {
                            Some(notice) => before.web_socket == Some(notice.web_socket_id)
                                && notice.message@ == kicked_message(
                                notice.web_socket_id as int,
                                web_socket_id as int,
                            ),
                            None => before.web_socket is None,
                        }
                    }
                },
                ConnectedAction::Rejected { message } => {
                    &&& final(self).signalr_list.connections() == old(
                        self,
                    ).signalr_list.connections()
                    &&& final(self).signalr_list.transports() == old(
                        self,
                    ).signalr_list.transports()
                    &&& match connection_token {
                        Some(token) => !old(self).signalr_list.connections().contains_key(token@)
                            && message@ == not_found_message(token@),
                        None => message@ == missing_id_message(),
                    }
                },
            },
    {
        let connection_token = match connection_token {
            Some(connection_token) => connection_token,
            None => {
                return ConnectedAction::Rejected {
                    message: String::from_str("id query parameter is missing"),
                };
            },
        };
        match self.signalr_list.assign_web_socket(connection_token, web_socket_id) {
            Some(attached) => {
                let start_liveness_monitor = attached.kicked.is_none();
                ConnectedAction::Attached { kicked: attached.kicked, start_liveness_monitor }
            },
            None => {
                let mut message = String::from_str("SignalR with connection_token ");
                message.append(connection_token);
                message.append(" is not found");
                ConnectedAction::Rejected { message }
            },
        }
    }

    /// The transport session `web_socket_id` has closed. The connection that
    /// held it leaves the registry with its tags and is handed back,
    /// disconnected, so that its departure can be announced. Where no
    /// connection held it nothing changes.
    pub fn disconnected(&mut self, web_socket_id: i64) -> (removed: Option<RemovedConnection<TCtx>>)
        requires
            old(self).signalr_list.wf(),
        ensures
            final(self).signalr_list.wf(),
            !final(self).signalr_list.transports().contains_key(web_socket_id),
            match removed {
                Some(removed) => {
                    let key = old(self).signalr_list.transports()[web_socket_id];
                    let before = old(self).signalr_list.connections()[key];
                    &&& old(self).signalr_list.transports().contains_key(web_socket_id)
                    &&& final(self).signalr_list.connections() == old(
                        self,
                    ).signalr_list.connections().remove(key)
                    &&& final(self).signalr_list.transports() == old(
                        self,
                    ).signalr_list.transports().remove(web_socket_id)
                    &&& final(self).signalr_list.tags() == without_connection(
                        old(self).signalr_list.tags(),
                        key,
                    )
                    &&& removed.web_socket == Some(web_socket_id)
                    &&& removed.connection == (MySignalrConnection {
                        connected: false,
                        web_socket: None,
                        ..before
                    })
                },
                None => {
                    &&& !old(self).signalr_list.transports().contains_key(web_socket_id)
                    &&& final(self).signalr_list.connections() == old(
                        self,
                    ).signalr_list.connections()
                    &&& final(self).signalr_list.transports() == old(
                        self,
                    ).signalr_list.transports()
                    &&& final(self).signalr_list.tags() == old(self).signalr_list.tags()
                },
            },
    {
        proof {
            self.signalr_list.lemma_wf();
        }
        let list_index = match self.signalr_list.get_by_web_socket_id(web_socket_id) {
            Some(signalr_connection) => signalr_connection.get_list_index().clone(),
            None => {
                return None;
            },
        };
        process_disconnect(&mut self.signalr_list, list_index.as_str())
    }

    /// A frame has come in on the transport session `web_socket_id` at
    /// `now`. The connection that holds the session has heard from its
    /// client; its handshake is accepted where the frame is one and none was
    /// accepted before. Nothing else changes.
    pub fn on_message<'s>(&mut self, web_socket_id: i64, now: i64, frame: &WebSocketFrame<'s>) -> (action:
        FrameAction<'s>)
        requires
            old(self).signalr_list.wf(),
        ensures
            final(self).signalr_list.wf(),
            final(self).signalr_list.transports() == old(self).signalr_list.transports(),
            final(self).signalr_list.tags() == old(self).signalr_list.tags(),
            match action {
                FrameAction::NoConnection => {
                    &&& !old(self).signalr_list.transports().contains_key(web_socket_id)
                    &&& final(self).signalr_list.connections() == old(
                        self,
                    ).signalr_list.connections()
                },
                _ => {
                    let key = old(self).signalr_list.transports()[web_socket_id];
                    let before = old(self).signalr_list.connections()[key];
                    &&& old(self).signalr_list.transports().contains_key(web_socket_id)
                    &&& frame_decision(before.has_greeting, web_socket_id, *frame, action)
                    &&& final(self).signalr_list.connections() == old(
                        self,
                    ).signalr_list.connections().insert(
                        key,
                        MySignalrConnection {
                            last_incoming_moment: now,
                            has_greeting: before.has_greeting || action is HandshakeAccepted,
                            ..before
                        },
                    )
                },
            },
    {
        proof {
            self.signalr_list.lemma_wf();
        }
        let has_greeting = match self.signalr_list.get_by_web_socket_id(web_socket_id) {
            Some(signalr_connection) => signalr_connection.get_has_greeting(),
            None => {
                return FrameAction::NoConnection;
            },
        };
        self.signalr_list.update_incoming_activity(web_socket_id, now);
        let ghost key = old(self).signalr_list.transports()[web_socket_id];
        let ghost before = old(self).signalr_list.connections()[key];
        let ghost heard = MySignalrConnection { last_incoming_moment: now, ..before };
        proof {
            assert(heard == MySignalrConnection {
                last_incoming_moment: now,
                has_greeting: before.has_greeting,
                ..before
            });
        }
        let fields = match frame {
            WebSocketFrame::Text(fields) => *fields,
            WebSocketFrame::Binary => {
                return FrameAction::Ignored;
            },
        };
        if has_greeting {
            let kind = match get_payload_type(fields) {
                Some(kind) => kind,
                None => {
                    return FrameAction::Ignored;
                },
            };
            if same_text(kind, "1") {
                match SignalrMessage::parse(fields) {
                    Ok(message) => FrameAction::Invocation(message),
                    Err(error) => FrameAction::Malformed(error),
                }
            } else if same_text(kind, "6") {
                proof {
                    self.signalr_list.lemma_wf();
                }
                match self.signalr_list.get_by_web_socket_id(web_socket_id) {
                    Some(signalr_connection) => FrameAction::Ping(
                        signalr_connection.send_ping_payload(),
                    ),
                    None => FrameAction::Ignored,
                }
            } else {
                FrameAction::Ignored
            }
        } else if read_first_payload(fields) {
            self.signalr_list.set_has_greeting(web_socket_id);
            proof {
                self.signalr_list.lemma_wf();
                assert(self.signalr_list.connections() =~= old(
                    self,
                ).signalr_list.connections().insert(
                    key,
                    MySignalrConnection { last_incoming_moment: now, has_greeting: true, ..before },
                ));
            }
            let reply = match self.signalr_list.get_by_web_socket_id(web_socket_id) {
                Some(signalr_connection) => signalr_connection.send_raw_payload(
                    String::from_str("{}"),
                ),
                None => None,
            };
            match reply {
                Some(reply) => FrameAction::HandshakeAccepted(reply),
                None => FrameAction::Ignored,
            }
        } else {
            FrameAction::Ignored
        }
    }
}

/// Once a connection's handshake is accepted, no frame is taken for a
/// handshake again: the acknowledgement is sent once. And before it is
/// accepted, no frame is routed as an invocation nor answered as a ping.
pub proof fn lemma_handshake_gates<'s>(
    has_greeting: bool,
    web_socket_id: i64,
    frame: WebSocketFrame<'s>,
    action: FrameAction<'s>,
)
    requires
        frame_decision(has_greeting, web_socket_id, frame, action),
    ensures
        has_greeting ==> !(action is HandshakeAccepted),
        !has_greeting ==> !(action is Invocation) && !(action is Malformed) && !(action is Ping),
{
}

} // verus!
