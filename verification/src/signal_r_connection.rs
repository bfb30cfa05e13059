//! One logical client session: its identity, its transport slot, and the
//! flags and moments that the protocol engine and the liveness monitor read.

use crate::decimal::{push_signed_decimal, signed_decimal};
use crate::messages::payloads_generations::{get_ping_payload, ping_payload};
use crate::signal_r_param::{append_bytes, SignalRParam};
use vstd::prelude::*;
use vstd::string::StringExecFns;
use vstd::string::StringSliceAdditionalSpecFns;
use vstd::utf8::encode_utf8;

verus! {

/// A text that is to be sent to one transport session.
pub struct OutboundText {
    pub web_socket_id: i64,
    pub text: String,
}

/// A frame, as bytes, that is to be sent to one transport session as text.
pub struct OutboundFrame {
    pub web_socket_id: i64,
    pub payload: Vec<u8>,
}

/// What the caller owes a transport that has lost its place: the message,
/// then its closing.
pub struct KickNotice {
    /// The transport session that was replaced.
    pub web_socket_id: i64,
    pub message: String,
}

/// The record separator that ends every frame.
pub open spec fn record_separator() -> Seq<char> {
    seq!['\u{1e}']
}

/// What the transport that loses its place is told.
pub open spec fn kicked_message(old_id: int, new_id: int) -> Seq<char> {
    "Signalr WebSocket "@ + signed_decimal(old_id) + " has been kicked by Websocket "@
        + signed_decimal(new_id) + " "@
}

/// An outbound invocation of `action_name`, framed.
pub open spec fn invocation_frame(action_name: Seq<char>, parameter: SignalRParam) -> Seq<u8> {
    "{\"type\":1,\"target\":\"".spec_bytes() + encode_utf8(action_name)
        + "\",\"arguments\":[".spec_bytes() + parameter.json_bytes() + "]}".spec_bytes()
        + seq![30u8]
}

/// Where a connection stands in its life.
#[derive(Debug, Clone, Copy, PartialEq, Eq, Structural)]
pub enum ConnectionState {
    /// Created by negotiation, without a transport.
    Negotiated,
    /// A transport is attached and the handshake is not yet accepted.
    Attached,
    /// The handshake is accepted: invocations are routed.
    Active,
    /// Disconnected, for good.
    Disconnected,
}

/// One logical client session.
///
/// `has_web_socket` says whether the connection was created with a transport
/// attached; a later attach does not change it.
pub struct MySignalrConnection<TCtx> {
    /// The transport session that is attached, if one is.
    pub web_socket: Option<i64>,
    pub connection_id: String,
    pub connection_token: Option<String>,
    /// The moment of creation, in microseconds.
    pub created: i64,
    /// The moment of the last inbound frame, in microseconds.
    pub last_incoming_moment: i64,
    /// True until the connection is disconnected.
    pub connected: bool,
    pub has_web_socket: bool,
    /// Whether the client's handshake has been accepted.
    pub has_greeting: bool,
    pub negotiation_version: usize,
    pub ctx: TCtx,
}

impl<TCtx: Default> MySignalrConnection<TCtx> {
    /// A connection as negotiation leaves it: connected, without handshake,
    /// created and last heard of at `now`.
    pub fn new(
        connection_id: String,
        connection_token: Option<String>,
        negotiation_version: usize,
        web_socket: Option<i64>,
        now: i64,
    ) -> (connection: Self)
        ensures
            connection.connection_id == connection_id,
            connection.connection_token == connection_token,
            connection.negotiation_version == negotiation_version,
            connection.web_socket == web_socket,
            connection.created == now,
            connection.last_incoming_moment == now,
            connection.connected,
            connection.has_web_socket == web_socket.is_some(),
            !connection.has_greeting,
            connection.wf(),
            connection.state() == if web_socket is Some {
                ConnectionState::Attached
            } else {
                ConnectionState::Negotiated
            },
    {
        let has_web_socket = web_socket.is_some();
        Self {
            web_socket,
            connection_id,
            connection_token,
            negotiation_version,
            created: now,
            last_incoming_moment: now,
            connected: true,
            has_web_socket,
            has_greeting: false,
            ctx: TCtx::default(),
        }
    }
}

impl<TCtx> MySignalrConnection<TCtx> {
    /// A disconnected connection holds no transport.
    pub open spec fn wf(&self) -> bool {
        !self.connected ==> self.web_socket is None
    }

    /// Where the connection stands in its life.
    pub open spec fn state(&self) -> ConnectionState {
        if !self.connected {
            ConnectionState::Disconnected
        } else if self.has_greeting {
            ConnectionState::Active
        } else if self.web_socket is Some {
            ConnectionState::Attached
        } else {
            ConnectionState::Negotiated
        }
    }

    /// The key under which a registry holds the connection: its token where
    /// it has one, else its id.
    pub open spec fn list_index(&self) -> Seq<char> {
        match self.connection_token {
            Some(token) => token@,
            None => self.connection_id@,
        }
    }

    pub fn get_list_index(&self) -> (index: &String)
        ensures
            index@ == self.list_index(),
    {
        if let Some(token) = self.connection_token.as_ref() {
            token
        } else {
            &self.connection_id
        }
    }

    pub fn get_state(&self) -> (state: ConnectionState)
        ensures
            state == self.state(),
    {
        if !self.connected {
            ConnectionState::Disconnected
        } else if self.has_greeting {
            ConnectionState::Active
        } else if self.web_socket.is_some() {
            ConnectionState::Attached
        } else {
            ConnectionState::Negotiated
        }
    }

    pub fn get_has_greeting(&self) -> (greeted: bool)
        ensures
            greeted == self.has_greeting,
    {
        self.has_greeting
    }

    /// Accepts the handshake: a connected connection is active from now on.
    pub fn set_has_greeting(&mut self)
        ensures
            *final(self) == (MySignalrConnection { has_greeting: true, ..*old(self) }),
            final(self).state() == if old(self).connected {
                ConnectionState::Active
            } else {
                ConnectionState::Disconnected
            },
    {
        self.has_greeting = true;
    }

    pub fn in_web_socket_model(&self) -> (created_attached: bool)
        ensures
            created_attached == self.has_web_socket,
    {
        self.has_web_socket
    }

    /// Whether the transport session `web_socket_id` is the one attached.
    pub fn has_web_socket(&self, web_socket_id: i64) -> (attached: bool)
        ensures
            attached == (self.web_socket == Some(web_socket_id)),
    {
        if let Some(web_socket) = &self.web_socket {
            return *web_socket == web_socket_id;
        }
        false
    }

    pub fn get_web_socket(&self) -> (web_socket: Option<i64>)
        ensures
            web_socket == self.web_socket,
    {
        self.web_socket
    }

    /// Records that a frame came in at `now`.
    pub fn update_incoming_activity(&mut self, now: i64)
        ensures
            *final(self) == (MySignalrConnection { last_incoming_moment: now, ..*old(self) }),
            final(self).state() == old(self).state(),
    {
        self.last_incoming_moment = now;
    }

    pub fn get_last_incoming(&self) -> (moment: i64)
        ensures
            moment == self.last_incoming_moment,
    {
        self.last_incoming_moment
    }

    pub fn is_connected(&self) -> (connected: bool)
        ensures
            connected == self.connected,
    {
        self.connected
    }
}

impl<TCtx> MySignalrConnection<TCtx> {
    /// The frame that invokes `action_name` on the client, for the transport
    /// that is attached. Without a transport nothing is sent.
    pub fn send<'s>(&self, action_name: &str, parameter: &SignalRParam<'s>) -> (frame: Option<
        OutboundFrame,
    >)
        ensures
            match frame {
                Some(frame) => self.web_socket == Some(frame.web_socket_id) && frame.payload@
                    == invocation_frame(action_name@, *parameter),
                None => self.web_socket is None,
            },
    {
        if let Some(web_socket_id) = self.web_socket {
            let mut result: Vec<u8> = Vec::new();
            append_bytes(&mut result, "{\"type\":1,\"target\":\"".as_bytes());
            append_bytes(&mut result, action_name.as_bytes());
            append_bytes(&mut result, "\",\"arguments\":[".as_bytes());
            parameter.write_into(&mut result);
            append_bytes(&mut result, "]}".as_bytes());
            result.push(30u8);
            proof {
                assert(result@ =~= invocation_frame(action_name@, *parameter));
            }
            Some(OutboundFrame { web_socket_id, payload: result })
        } else {
            None
        }
    }

    /// A ping frame for the transport that is attached.
    pub fn send_ping_payload(&self) -> (frame: Option<OutboundText>)
        ensures
            match frame {
                Some(frame) => self.web_socket == Some(frame.web_socket_id) && frame.text@
                    == ping_payload() + record_separator(),
                None => self.web_socket is None,
            },
    {
        self.send_raw_payload(String::from_str(get_ping_payload()))
    }

    /// `raw_payload` with the record separator behind it, for the transport
    /// that is attached.
    pub fn send_raw_payload(&self, raw_payload: String) -> (frame: Option<OutboundText>)
        ensures
            match frame {
                Some(frame) => self.web_socket == Some(frame.web_socket_id) && frame.text@
                    == raw_payload@ + record_separator(),
                None => self.web_socket is None,
            },
    {
        let mut text = raw_payload;
        proof {
            reveal_strlit("\u{1e}");
        }
        text.append("\u{1e}");
        proof {
            assert(text@ =~= raw_payload@ + record_separator());
        }
        if let Some(web_socket_id) = self.web_socket {
            Some(OutboundText { web_socket_id, text })
        } else {
            None
        }
    }

    /// Attaches the transport session `web_socket_id` to a live connection. A
    /// transport that was attached before loses its place; the notice for it
    /// is handed back.
    pub fn add_web_socket(&mut self, web_socket_id: i64) -> (kicked: Option<KickNotice>)
        requires
            old(self).connected,
        ensures
            final(self).wf(),
            final(self).state() == if old(self).has_greeting {
                ConnectionState::Active
            } else {
                ConnectionState::Attached
            },
            *final(self) == (MySignalrConnection {
                web_socket: Some(web_socket_id),
                ..*old(self)
            }),
            match kicked {
                Some(notice) => old(self).web_socket == Some(notice.web_socket_id)
                    && notice.message@ == kicked_message(
                    notice.web_socket_id as int,
                    web_socket_id as int,
                ),
                None => old(self).web_socket is None,
            },
    {
        let before = self.web_socket;
        self.web_socket = Some(web_socket_id);
        match before {
            Some(old_id) => {
                let mut message = String::from_str("Signalr WebSocket ");
                push_signed_decimal(&mut message, old_id);
                message.append(" has been kicked by Websocket ");
                push_signed_decimal(&mut message, web_socket_id);
                message.append(" ");
                proof {
                    assert(message@ =~= kicked_message(old_id as int, web_socket_id as int));
                }
                Some(KickNotice { web_socket_id: old_id, message })
            },
            None => None,
        }
    }

    /// Ends the connection and releases its transport, which is handed back
    /// for closing. On a connection that is disconnected already nothing
    /// changes and nothing is handed back.
    pub fn disconnect(&mut self) -> (released: Option<i64>)
        ensures
            *final(self) == (MySignalrConnection {
                connected: false,
                web_socket: None,
                ..*old(self)
            }),
            released == old(self).web_socket,
            final(self).wf(),
            final(self).state() == ConnectionState::Disconnected,
    {
        self.connected = false;
        let released = self.web_socket;
        self.web_socket = None;
        released
    }
}

} // verus!
