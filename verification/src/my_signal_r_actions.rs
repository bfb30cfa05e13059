//! The action table: the handler of each action, by name, and the one set of
//! callbacks for the life of a transport.

use crate::string_map::StringMap;
use vstd::prelude::*;

verus! {

/// A mistake in the setup of the table.
#[derive(Debug, Clone, Copy, PartialEq, Eq, Structural)]
pub enum SetupError {
    /// An action of that name is registered already.
    ActionAlreadyRegistered,
    /// The callbacks for the life of a transport are registered already.
    TransportCallbackAlreadyRegistered,
}

impl SetupError {
    pub open spec fn message_text(self) -> Seq<char> {
        match self {
            SetupError::ActionAlreadyRegistered => "Signalr action already registered"@,
            SetupError::TransportCallbackAlreadyRegistered =>
                "Transport callback is already registered"@,
        }
    }

    /// The error in words.
    pub fn message(&self) -> (text: &'static str)
        ensures
            text@ == self.message_text(),
    {
        match self {
            SetupError::ActionAlreadyRegistered => "Signalr action already registered",
            SetupError::TransportCallbackAlreadyRegistered =>
                "Transport callback is already registered",
        }
    }
}

/// The handlers of a hub: one of type `TAction` for each action, and at most
/// one of type `TTransport` for the life of a transport.
pub struct MySignalrActions<TAction, TTransport> {
    transport_callbacks: Option<TTransport>,
    actions: StringMap<TAction>,
}

impl<TAction, TTransport> MySignalrActions<TAction, TTransport> {
    /// The handlers, by the name of their action.
    pub closed spec fn actions(&self) -> Map<Seq<char>, TAction> {
        self.actions@
    }

    /// The callbacks for the life of a transport, where they are registered.
    pub closed spec fn transport_callbacks(&self) -> Option<TTransport> {
        self.transport_callbacks
    }

    pub closed spec fn wf(&self) -> bool {
        self.actions.wf()
    }

    pub fn new() -> (table: Self)
        ensures
            table.wf(),
            table.actions() == Map::<Seq<char>, TAction>::empty(),
            table.transport_callbacks() is None,
    {
        Self { actions: StringMap::new(), transport_callbacks: None }
    }

    /// Registers `callback` as the handler of `action`. A name is registered
    /// once: a second handler for it is refused and the table stays as it is.
    pub fn add_action(&mut self, action: String, callback: TAction) -> (added: Result<
        (),
        SetupError,
    >)
        requires
            old(self).wf(),
        ensures
            final(self).wf(),
            final(self).transport_callbacks() == old(self).transport_callbacks(),
            match added {
                Ok(_) => !old(self).actions().contains_key(action@) && final(self).actions()
                    == old(self).actions().insert(action@, callback),
                Err(error) => error == SetupError::ActionAlreadyRegistered && old(
                    self,
                ).actions().contains_key(action@) && final(self).actions() == old(self).actions(),
            },
    {
        if self.actions.contains_key(action.as_str()) {
            return Err(SetupError::ActionAlreadyRegistered);
        }
        self.actions.insert(action, callback);
        Ok(())
    }

    /// Registers the callbacks for the life of a transport. They are
    /// registered once: a second set is refused and the table stays as it is.
    pub fn set_transport_callbacks(&mut self, transport_callbacks: TTransport) -> (set: Result<
        (),
        SetupError,
    >)
        requires
            old(self).wf(),
        ensures
            final(self).wf(),
            final(self).actions() == old(self).actions(),
            match set {
                Ok(_) => old(self).transport_callbacks() is None && final(self).transport_callbacks() == Some(transport_callbacks),
                Err(error) => error == SetupError::TransportCallbackAlreadyRegistered && old(
                    self,
                ).transport_callbacks() is Some && final(self).transport_callbacks() == old(
                    self,
                ).transport_callbacks(),
            },
    {
        if self.transport_callbacks.is_some() {
            return Err(SetupError::TransportCallbackAlreadyRegistered);
        }
        self.transport_callbacks = Some(transport_callbacks);
        Ok(())
    }

    /// The callbacks for the life of a transport, where they are registered:
    /// they hear of a connection that is accepted, of one that has gone and
    /// of each ping.
    pub fn get_transport_callbacks(&self) -> (callbacks: Option<&TTransport>)
        ensures
            match callbacks {
                Some(callbacks) => self.transport_callbacks() == Some(*callbacks),
                None => self.transport_callbacks() is None,
            },
    {
        self.transport_callbacks.as_ref()
    }

    /// The handler of the action `action_name`. A name that is not registered
    /// has none, which is no error: the invocation is dropped.
    pub fn on(&self, action_name: &str) -> (handler: Option<&TAction>)
        requires
            self.wf(),
        ensures
            match handler {
                Some(handler) => self.actions().contains_key(action_name@) && *handler
                    == self.actions()[action_name@],
                None => !self.actions().contains_key(action_name@),
            },
    {
        self.actions.get(action_name)
    }
}

} // verus!
