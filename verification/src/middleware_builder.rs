//! The setup of a hub, step by step.

use crate::middleware::{lowercase, negotiate_uri, MySignalrMiddleware};
use crate::my_signal_r_actions::MySignalrActions;
use vstd::prelude::*;

verus! {

/// The silence after which a connection is taken for dead where nothing else
/// is set: sixty seconds, in nanoseconds.
pub const DEFAULT_DISCONNECT_TIMEOUT_NANOS: u128 = 60_000_000_000;

pub struct MiddlewareBuilder<TAction, TTransport> {
    hub_name: String,
    actions: MySignalrActions<TAction, TTransport>,
    disconnect_timeout_nanos: u128,
}

impl<TAction, TTransport> MiddlewareBuilder<TAction, TTransport> {
    pub closed spec fn hub_name(&self) -> Seq<char> {
        self.hub_name@
    }

    /// The handlers that are registered, by the name of their action.
    pub closed spec fn actions(&self) -> Map<Seq<char>, TAction> {
        self.actions.actions()
    }

    /// The callbacks for the life of a transport, where they are registered.
    pub closed spec fn transport_callbacks(&self) -> Option<TTransport> {
        self.actions.transport_callbacks()
    }

    pub closed spec fn disconnect_timeout_nanos(&self) -> u128 {
        self.disconnect_timeout_nanos
    }

    pub closed spec fn wf(&self) -> bool {
        self.actions.wf()
    }

    pub fn new(hub_name: String) -> (builder: Self)
        ensures
            builder.wf(),
            builder.hub_name() == hub_name@,
            builder.actions() == Map::<Seq<char>, TAction>::empty(),
            builder.transport_callbacks() is None,
            builder.disconnect_timeout_nanos() == DEFAULT_DISCONNECT_TIMEOUT_NANOS,
    {
        Self {
            hub_name,
            actions: MySignalrActions::new(),
            disconnect_timeout_nanos: DEFAULT_DISCONNECT_TIMEOUT_NANOS,
        }
    }

    pub fn set_disconnect_timeout(self, disconnect_timeout_nanos: u128) -> (builder: Self)
        requires
            self.wf(),
        ensures
            builder.wf(),
            builder.hub_name() == self.hub_name(),
            builder.actions() == self.actions(),
            builder.transport_callbacks() == self.transport_callbacks(),
            builder.disconnect_timeout_nanos() == disconnect_timeout_nanos,
    {
        let mut builder = self;
        builder.disconnect_timeout_nanos = disconnect_timeout_nanos;
        builder
    }

    /// Whether the callbacks for the life of a transport are registered.
    pub fn has_transport_callback(&self) -> (registered: bool)
        ensures
            registered == self.transport_callbacks() is Some,
    {
        self.actions.get_transport_callbacks().is_some()
    }

    /// Whether an action of the name `action_name` is registered.
    pub fn has_action(&self, action_name: &str) -> (registered: bool)
        requires
            self.wf(),
        ensures
            registered == self.actions().contains_key(action_name@),
    {
        self.actions.on(action_name).is_some()
    }

    /// Registers the callbacks for the life of a transport, which can be done
    /// once.
    pub fn with_transport_callback(self, transport_callback: TTransport) -> (builder: Self)
        requires
            self.wf(),
            self.transport_callbacks() is None,
        ensures
            builder.wf(),
            builder.hub_name() == self.hub_name(),
            builder.actions() == self.actions(),
            builder.transport_callbacks() == Some(transport_callback),
            builder.disconnect_timeout_nanos() == self.disconnect_timeout_nanos(),
    {
        let mut builder = self;
        let _ = builder.actions.set_transport_callbacks(transport_callback);
        builder
    }

    /// Registers `action` as the handler of `action_name`, which can be done
    /// once for a name.
    pub fn with_action(self, action_name: String, action: TAction) -> (builder: Self)
        requires
            self.wf(),
            !self.actions().contains_key(action_name@),
        ensures
            builder.wf(),
            builder.hub_name() == self.hub_name(),
            builder.actions() == self.actions().insert(action_name@, action),
            builder.transport_callbacks() == self.transport_callbacks(),
            builder.disconnect_timeout_nanos() == self.disconnect_timeout_nanos(),
    {
        let mut builder = self;
        let _ = builder.actions.add_action(action_name, action);
        builder
    }

    /// The hub as it was set up, and its action table.
    pub fn build(self) -> (built: (MySignalrMiddleware, MySignalrActions<TAction, TTransport>))
        requires
            self.wf(),
        ensures
            built.0.hub_name() == lowercase(self.hub_name()),
            built.0.negotiate_path() == negotiate_uri(lowercase(self.hub_name())),
            built.0.socket_id() == 0,
            built.0.disconnect_timeout_nanos() == self.disconnect_timeout_nanos(),
            built.1.wf(),
            built.1.actions() == self.actions(),
            built.1.transport_callbacks() == self.transport_callbacks(),
    {
        (
            MySignalrMiddleware::new(self.hub_name.as_str(), self.disconnect_timeout_nanos),
            self.actions,
        )
    }
}

} // verus!
