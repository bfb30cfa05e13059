//! Publishing an invocation to one connection, to all, or to those that
//! carry a tag.

use crate::signal_r_connection::{invocation_frame, MySignalrConnection, OutboundFrame};
use crate::signal_r_connections_list::SignalrConnectionsList;
use crate::signal_r_list::{is_snapshot_of, lists_key};
use crate::signal_r_param::SignalRParam;
use crate::tag_model::{tagged, tagged_with_value};
use std::marker::PhantomData;
use vstd::prelude::*;

verus! {

/// A contract that can be written as the parameters of an invocation.
pub trait SignalrContractSerializer {
    fn serialize(self) -> Vec<Vec<u8>>;
}

/// The transport sessions that the connections of `connections` hold, in
/// order.
pub open spec fn attached_sockets<TCtx>(connections: Seq<&MySignalrConnection<TCtx>>) -> Seq<i64>
    decreases connections.len(),
{
    if connections.len() == 0 {
        Seq::empty()
    } else {
        match connections.last().web_socket {
            Some(id) => attached_sockets(connections.drop_last()).push(id),
            None => attached_sockets(connections.drop_last()),
        }
    }
}

/// Whether `frames` holds one frame for each of `sockets`, in order, each
/// the invocation of `action_name` with `parameter`.
pub open spec fn frames_carry<'s>(
    frames: Seq<OutboundFrame>,
    sockets: Seq<i64>,
    action_name: Seq<char>,
    parameter: SignalRParam<'s>,
) -> bool {
    &&& frames.len() == sockets.len()
    &&& forall|i: int|
        0 <= i < frames.len() ==> (#[trigger] frames[i]).web_socket_id == sockets[i]
            && frames[i].payload@ == invocation_frame(action_name, parameter)
}

/// The invocation of `action_name` with the parameters `payload`, framed for
/// each of `connections` that holds a transport. A connection without one is
/// passed over.
pub fn frames_for<TCtx>(
    connections: &Vec<&MySignalrConnection<TCtx>>,
    action_name: &str,
    payload: &[Vec<u8>],
) -> (frames: Vec<OutboundFrame>)
    ensures
        frames_carry(
            frames@,
            attached_sockets(connections@),
            action_name@,
            SignalRParam::Raw(payload),
        ),
{
    let mut frames: Vec<OutboundFrame> = Vec::new();
    let mut i: usize = 0;
    while i < connections.len()
        invariant
            i <= connections@.len(),
            frames_carry(
                frames@,
                attached_sockets(connections@.subrange(0, i as int)),
                action_name@,
                SignalRParam::Raw(payload),
            ),
        decreases connections@.len() - i,
    {
        proof {
            let next = connections@.subrange(0, i + 1);
            assert(next.drop_last() =~= connections@.subrange(0, i as int));
            assert(next.last() == connections@[i as int]);
        }
        let params = SignalRParam::Raw(payload);
        if let Some(frame) = connections[i].send(action_name, &params) {
            frames.push(frame);
        }
        i += 1;
    }
    proof {
        assert(connections@.subrange(0, i as int) =~= connections@);
    }
    frames
}

/// Publishes the invocations of one action, whose parameters are written
/// from a `TContract`.
pub struct SignalrMessagePublisher<TContract> {
    itm: PhantomData<TContract>,
    action_name: String,
}

impl<TContract: SignalrContractSerializer> SignalrMessagePublisher<TContract> {
    /// The name of the action.
    pub closed spec fn action_name(&self) -> Seq<char> {
        self.action_name@
    }

    pub fn new(action_name: String) -> (publisher: Self)
        ensures
            publisher.action_name() == action_name@,
    {
        Self { action_name, itm: PhantomData }
    }

    /// The invocation with `contract` for every connection that holds a
    /// transport.
    pub fn broadcast_to_all<TCtx>(
        &self,
        signalr_list: &SignalrConnectionsList<TCtx>,
        contract: TContract,
    ) -> (frames: Vec<OutboundFrame>)
        requires
            signalr_list.wf(),
        ensures
            exists|all: Seq<&MySignalrConnection<TCtx>>, parameter: SignalRParam|
                {
                    &&& is_snapshot_of(all, signalr_list.connections())
                    &&& forall|key: Seq<char>| #[trigger]
                        signalr_list.connections().contains_key(key) ==> lists_key(all, key)
                    &&& parameter is Raw
                    &&& #[trigger] frames_carry(
                        frames@,
                        attached_sockets(all),
                        self.action_name(),
                        parameter,
                    )
                },
    {
        if let Some(connections) = signalr_list.get_all() {
            let payload = contract.serialize();
            let items = payload.as_slice();
            let frames = frames_for(&connections, self.action_name.as_str(), items);
            proof {
                assert(frames_carry(
                    frames@,
                    attached_sockets(connections@),
                    self.action_name(),
                    SignalRParam::Raw(items),
                ));
            }
            frames
        } else {
            let frames: Vec<OutboundFrame> = Vec::new();
            proof {
                let all = Seq::<&MySignalrConnection<TCtx>>::empty();
                let parameter = SignalRParam::Raw(arbitrary());
                assert(frames_carry(frames@, attached_sockets(all), self.action_name(), parameter));
            }
            frames
        }
    }

    /// The invocation with `contract` for `connection`, where it holds a
    /// transport.
    pub fn send_to_connection<TCtx>(
        &self,
        connection: &MySignalrConnection<TCtx>,
        contract: TContract,
    ) -> (frame: Option<OutboundFrame>)
        ensures
            match frame {
                Some(frame) => connection.web_socket == Some(frame.web_socket_id)
                    && exists|parameter: SignalRParam|
                    parameter is Raw && frame.payload@ == #[trigger] invocation_frame(
                        self.action_name(),
                        parameter,
                    ),
                None => connection.web_socket is None,
            },
    {
        let payload = contract.serialize();
        let params = SignalRParam::Raw(payload.as_slice());
        let frame = connection.send(self.action_name.as_str(), &params);
        proof {
            if frame is Some {
                assert(params is Raw && frame->0.payload@ == invocation_frame(
                    self.action_name(),
                    params,
                ));
            }
        }
        frame
    }

    /// The invocation with `contract` for every connection that carries the
    /// tag `key` and holds a transport.
    pub fn send_to_tagged_connections<TCtx>(
        &self,
        signalr_list: &SignalrConnectionsList<TCtx>,
        key: &str,
        contract: TContract,
    ) -> (frames: Vec<OutboundFrame>)
        requires
            signalr_list.wf(),
        ensures
            exists|list: Seq<&MySignalrConnection<TCtx>>, parameter: SignalRParam|
                {
                    &&& is_snapshot_of(list, signalr_list.connections())
                    &&& forall|id: Seq<char>|
                        lists_key(list, id) <==> tagged(signalr_list.tags(), key@).contains(id)
                    &&& parameter is Raw
                    &&& #[trigger] frames_carry(
                        frames@,
                        attached_sockets(list),
                        self.action_name(),
                        parameter,
                    )
                },
    {
        if let Some(connections) = signalr_list.get_tagged_connections(key) {
            let payload = contract.serialize();
            let items = payload.as_slice();
            let frames = frames_for(&connections, self.action_name.as_str(), items);
            proof {
                assert(frames_carry(
                    frames@,
                    attached_sockets(connections@),
                    self.action_name(),
                    SignalRParam::Raw(items),
                ));
            }
            frames
        } else {
            let frames: Vec<OutboundFrame> = Vec::new();
            proof {
                let list = Seq::<&MySignalrConnection<TCtx>>::empty();
                let parameter = SignalRParam::Raw(arbitrary());
                assert forall|id: Seq<char>| lists_key(list, id) <==> tagged(
                    signalr_list.tags(),
                    key@,
                ).contains(id) by {}
                assert(frames_carry(frames@, attached_sockets(list), self.action_name(), parameter));
            }
            frames
        }
    }

    /// The invocation with `contract` for every connection that carries the
    /// tag `key` with exactly `value` and holds a transport.
    pub fn send_to_tagged_connections_with_value<TCtx>(
        &self,
        signalr_list: &SignalrConnectionsList<TCtx>,
        key: &str,
        value: &str,
        contract: TContract,
    ) -> (frames: Vec<OutboundFrame>)
        requires
            signalr_list.wf(),
        ensures
            exists|list: Seq<&MySignalrConnection<TCtx>>, parameter: SignalRParam|
                {
                    &&& is_snapshot_of(list, signalr_list.connections())
                    &&& forall|id: Seq<char>|
                        lists_key(list, id) <==> tagged_with_value(
                            signalr_list.tags(),
                            key@,
                            value@,
                        ).contains(id)
                    &&& parameter is Raw
                    &&& #[trigger] frames_carry(
                        frames@,
                        attached_sockets(list),
                        self.action_name(),
                        parameter,
                    )
                },
    {
        if let Some(connections) = signalr_list.get_tagged_connections_with_value(key, value) {
            let payload = contract.serialize();
            let items = payload.as_slice();
            let frames = frames_for(&connections, self.action_name.as_str(), items);
            proof {
                assert(frames_carry(
                    frames@,
                    attached_sockets(connections@),
                    self.action_name(),
                    SignalRParam::Raw(items),
                ));
            }
            frames
        } else {
            let frames: Vec<OutboundFrame> = Vec::new();
            proof {
                let list = Seq::<&MySignalrConnection<TCtx>>::empty();
                let parameter = SignalRParam::Raw(arbitrary());
                assert forall|id: Seq<char>| lists_key(list, id) <==> tagged_with_value(
                    signalr_list.tags(),
                    key@,
                    value@,
                ).contains(id) by {}
                assert(frames_carry(frames@, attached_sockets(list), self.action_name(), parameter));
            }
            frames
        }
    }
}

} // verus!
