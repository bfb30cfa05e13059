//! The registry of live connections together with their tags.

use crate::signal_r_connection::{kicked_message, MySignalrConnection};
use crate::signal_r_list::{
    indexes_agree, is_snapshot_of, lemma_unregistered_has_no_transport, lists_key,
    transports_after_attach, with_attached, with_transport_of, without_session,
    without_transport_of, ConnectionMap, RemovedConnection, SignalrList, TransportAttached,
    TransportMap,
};
use crate::tag_model::{string_views, tagged, tagged_with_value, without_connection, TagMap};
use crate::tags::Tags;
use vstd::prelude::*;

verus! {

/// No tag belongs to a connection that is not registered.
pub open spec fn tags_are_owned<TCtx>(tags: TagMap, connections: ConnectionMap<TCtx>) -> bool {
    forall|ck: (Seq<char>, Seq<char>)| #[trigger]
        tags.contains_key(ck) ==> connections.contains_key(ck.0)
}

pub struct SignalrConnectionsList<TCtx> {
    sockets: SignalrList<TCtx>,
    tags: Tags,
}

impl<TCtx> SignalrConnectionsList<TCtx> {
    /// The connections, by key.
    pub closed spec fn connections(&self) -> ConnectionMap<TCtx> {
        self.sockets.connections()
    }

    /// The transport sessions, each with the key of its connection.
    pub closed spec fn transports(&self) -> TransportMap {
        self.sockets.transports()
    }

    /// The tags: (key of the connection, tag key) to value.
    pub closed spec fn tags(&self) -> TagMap {
        self.tags@
    }

    pub closed spec fn wf(&self) -> bool {
        &&& self.sockets.wf()
        &&& self.tags.wf()
        &&& tags_are_owned(self.tags@, self.sockets.connections())
    }

    /// What `wf` says of the indexes and the tags.
    pub proof fn lemma_wf(&self)
        requires
            self.wf(),
        ensures
            indexes_agree(self.connections(), self.transports()),
            tags_are_owned(self.tags(), self.connections()),
    {
        self.sockets.lemma_wf();
    }

    pub fn new() -> (list: Self)
        ensures
            list.wf(),
            list.connections() == Map::<Seq<char>, MySignalrConnection<TCtx>>::empty(),
            list.transports() == Map::<i64, Seq<char>>::empty(),
            list.tags() == Map::<(Seq<char>, Seq<char>), Seq<char>>::empty(),
    {
        Self { sockets: SignalrList::new(), tags: Tags::new() }
    }

    /// Registers `signalr_connection` under its key, without tags. A
    /// connection that stood under that key before is displaced and handed
    /// back, and its tags are dropped.
    pub fn add_signalr_connection(&mut self, signalr_connection: MySignalrConnection<TCtx>) -> (displaced:
        Option<MySignalrConnection<TCtx>>)
        requires
            old(self).wf(),
            signalr_connection.connected,
        ensures
            final(self).wf(),
            final(self).connections() == old(self).connections().insert(
                signalr_connection.list_index(),
                signalr_connection,
            ),
            final(self).tags() == without_connection(
                old(self).tags(),
                signalr_connection.list_index(),
            ),
            match displaced {
                Some(before) => old(self).connections().contains_key(
                    signalr_connection.list_index(),
                ) && before == old(self).connections()[signalr_connection.list_index()]
                    && final(self).transports() == with_transport_of(
                    without_transport_of(
                        old(self).transports(),
                        before.web_socket,
                        signalr_connection.list_index(),
                    ),
                    signalr_connection.web_socket,
                    signalr_connection.list_index(),
                ),
                None => !old(self).connections().contains_key(signalr_connection.list_index())
                    && final(self).transports() == with_transport_of(
                    old(self).transports(),
                    signalr_connection.web_socket,
                    signalr_connection.list_index(),
                ),
            },
    {
        let key = signalr_connection.get_list_index().clone();
        self.tags.remove_connection(key.as_str());
        self.sockets.add_signalr_connection(signalr_connection)
    }

    /// Attaches the transport session `web_socket_id` to the connection under
    /// `connection_token`. A transport that the connection had before loses
    /// its place in both indexes. Without such a connection nothing changes.
    pub fn assign_web_socket(&mut self, connection_token: &str, web_socket_id: i64) -> (attached:
        Option<TransportAttached>)
        requires
            old(self).wf(),
        ensures
            final(self).wf(),
            final(self).tags() == old(self).tags(),
            match attached {
                Some(attached) => {
                    let before = old(self).connections()[connection_token@];
                    &&& old(self).connections().contains_key(connection_token@)
                    &&& final(self).connections() == with_attached(
                        old(self).connections(),
                        connection_token@,
                        web_socket_id,
                    )
                    &&& final(self).transports() == transports_after_attach(
                        old(self).connections(),
                        old(self).transports(),
                        connection_token@,
                        web_socket_id,
                    )
                    &&& match attached.kicked {
                        Some(notice) => before.web_socket == Some(notice.web_socket_id)
                            && notice.message@ == kicked_message(
                            notice.web_socket_id as int,
                            web_socket_id as int,
                        ),
                        None => before.web_socket is None,
                    }
                },
                None => {
                    &&& !old(self).connections().contains_key(connection_token@)
                    &&& final(self).connections() == old(self).connections()
                    &&& final(self).transports() == old(self).transports()
                },
            },
    {
        self.sockets.assign_web_socket(connection_token, web_socket_id)
    }

    pub fn get_by_connection_token(&self, connection_token: &str) -> (found: Option<
        &MySignalrConnection<TCtx>,
    >)
        requires
            self.wf(),
        ensures
            match found {
                Some(connection) => self.connections().contains_key(connection_token@)
                    && *connection == self.connections()[connection_token@],
                None => !self.connections().contains_key(connection_token@),
            },
    {
        self.sockets.get_by_connection_token(connection_token)
    }

    pub fn get_by_web_socket_id(&self, web_socket_id: i64) -> (found: Option<
        &MySignalrConnection<TCtx>,
    >)
        requires
            self.wf(),
        ensures
            match found {
                Some(connection) => self.transports().contains_key(web_socket_id) && *connection
                    == self.connections()[self.transports()[web_socket_id]],
                None => !self.transports().contains_key(web_socket_id),
            },
    {
        self.sockets.get_by_web_socket_id(web_socket_id)
    }

    /// Takes the connection under `connection_token` out of the registry with
    /// all its tags, disconnects it and drops the transport session that it
    /// held from the index. Without such a connection nothing changes.
    pub fn remove(&mut self, connection_token: &str) -> (removed: Option<RemovedConnection<TCtx>>)
        requires
            old(self).wf(),
        ensures
            final(self).wf(),
            !final(self).connections().contains_key(connection_token@),
            final(self).tags() == without_connection(old(self).tags(), connection_token@),
            match removed {
                Some(removed) => {
                    let before = old(self).connections()[connection_token@];
                    &&& old(self).connections().contains_key(connection_token@)
                    &&& final(self).connections() == old(self).connections().remove(
                        connection_token@,
                    )
                    &&& final(self).transports() == without_session(
                        old(self).transports(),
                        before.web_socket,
                    )
                    &&& removed.web_socket == before.web_socket
                    &&& removed.connection == (MySignalrConnection {
                        connected: false,
                        web_socket: None,
                        ..before
                    })
                },
                None => {
                    &&& !old(self).connections().contains_key(connection_token@)
                    &&& final(self).connections() == old(self).connections()
                    &&& final(self).transports() == old(self).transports()
                },
            },
    {
        self.tags.remove_connection(connection_token);
        self.sockets.remove(connection_token)
    }

    /// Gives the connection under `connection_token` the tag `key` =
    /// `value`, if it is registered. Without such a connection nothing
    /// changes.
    pub fn add_tag_to_connection(&mut self, connection_token: &str, key: &str, value: &str)
        requires
            old(self).wf(),
        ensures
            final(self).wf(),
            final(self).connections() == old(self).connections(),
            final(self).transports() == old(self).transports(),
            final(self).tags() == if old(self).connections().contains_key(connection_token@) {
                old(self).tags().insert((connection_token@, key@), value@)
            } else {
                old(self).tags()
            },
    {
        if self.sockets.get_by_connection_token(connection_token).is_some() {
            self.tags.add_tag(connection_token, key, value);
        }
    }

    /// Takes the tag `key` from the connection under `connection_token`, if
    /// it is registered. Without such a connection nothing changes.
    pub fn remove_tag_from_connection(&mut self, connection_token: &str, key: &str, value: &str)
        requires
            old(self).wf(),
        ensures
            final(self).wf(),
            final(self).connections() == old(self).connections(),
            final(self).transports() == old(self).transports(),
            final(self).tags() == old(self).tags().remove((connection_token@, key@)),
    {
        if self.sockets.get_by_connection_token(connection_token).is_some() {
            self.tags.remove_tag(connection_token, key, value);
        } else {
            proof {
                assert(self.tags().remove((connection_token@, key@)) =~= self.tags());
            }
        }
    }
}

impl<TCtx> SignalrConnectionsList<TCtx> {
    /// Every connection, each once, or `None` where there is none.
    pub fn get_all(&self) -> (all: Option<Vec<&MySignalrConnection<TCtx>>>)
        requires
            self.wf(),
        ensures
            match all {
                Some(all) => {
                    &&& all@.len() > 0
                    &&& is_snapshot_of(all@, self.connections())
                    &&& forall|key: Seq<char>| #[trigger]
                        self.connections().contains_key(key) ==> lists_key(all@, key)
                },
                None => self.connections() == Map::<Seq<char>, MySignalrConnection<TCtx>>::empty(),
            },
    {
        let all = self.sockets.get_all();
        if all.len() == 0 {
            proof {
                assert forall|key: Seq<char>| !self.connections().contains_key(key) by {
                    if self.connections().contains_key(key) {
                        assert(lists_key(all@, key));
                    }
                }
                assert(self.connections() =~= Map::empty());
            }
            None
        } else {
            Some(all)
        }
    }

    /// A connection that `filter` accepts, or `None` where it accepts none.
    pub fn find_first<TFn: Fn(&MySignalrConnection<TCtx>) -> bool>(&self, filter: TFn) -> (found:
        Option<&MySignalrConnection<TCtx>>)
        requires
            self.wf(),
            forall|connection: &MySignalrConnection<TCtx>| filter.requires((connection,)),
        ensures
            match found {
                Some(connection) => {
                    &&& self.connections().contains_key(connection.list_index())
                    &&& self.connections()[connection.list_index()] == *connection
                    &&& filter.ensures((connection,), true)
                },
                None => forall|key: Seq<char>| #[trigger]
                    self.connections().contains_key(key) ==> filter.ensures(
                        (&self.connections()[key],),
                        false,
                    ),
            },
    {
        self.sockets.find_first(filter)
    }

    /// The connections that `filter` accepts, each once, or `None` where it
    /// accepts none.
    pub fn filter<TFn: Fn(&MySignalrConnection<TCtx>) -> bool>(&self, filter: TFn) -> (accepted:
        Option<Vec<&MySignalrConnection<TCtx>>>)
        requires
            self.wf(),
            forall|connection: &MySignalrConnection<TCtx>| filter.requires((connection,)),
        ensures
            match accepted {
                Some(accepted) => {
                    &&& accepted@.len() > 0
                    &&& is_snapshot_of(accepted@, self.connections())
                    &&& forall|i: int|
                        0 <= i < accepted@.len() ==> filter.ensures(
                            (#[trigger] accepted@[i],),
                            true,
                        )
                    &&& forall|key: Seq<char>| #[trigger]
                        self.connections().contains_key(key) ==> lists_key(accepted@, key)
                            || filter.ensures((&self.connections()[key],), false)
                },
                None => forall|key: Seq<char>| #[trigger]
                    self.connections().contains_key(key) ==> filter.ensures(
                        (&self.connections()[key],),
                        false,
                    ),
            },
    {
        let accepted = self.sockets.filter(filter);
        if accepted.len() == 0 {
            proof {
                assert forall|key: Seq<char>| #[trigger]
                    self.connections().contains_key(key) implies filter.ensures(
                    (&self.connections()[key],),
                    false,
                ) by {
                    assert(!lists_key(accepted@, key));
                }
            }
            None
        } else {
            Some(accepted)
        }
    }

    /// The registered connections under the keys `ids`, in that order.
    fn collect(&self, ids: &Vec<String>) -> (list: Vec<&MySignalrConnection<TCtx>>)
        requires
            self.wf(),
            string_views(ids@).no_duplicates(),
            forall|i: int|
                0 <= i < ids@.len() ==> self.connections().contains_key(
                    #[trigger] string_views(ids@)[i],
                ),
        ensures
            list@.len() == ids@.len(),
            is_snapshot_of(list@, self.connections()),
            forall|key: Seq<char>|
                lists_key(list@, key) <==> string_views(ids@).to_set().contains(key),
    {
        let mut list: Vec<&MySignalrConnection<TCtx>> = Vec::new();
        let ghost views = string_views(ids@);
        let mut i: usize = 0;
        while i < ids.len()
            invariant
                self.wf(),
                views == string_views(ids@),
                i <= ids@.len(),
                list@.len() == i,
                forall|k: int| 0 <= k < ids@.len() ==> self.connections().contains_key(#[trigger] views[k]),
                forall|k: int|
                    0 <= k < i ==> (#[trigger] list@[k]).list_index() == views[k] && *list@[k]
                        == self.connections()[views[k]],
            decreases ids@.len() - i,
        {
            assert(self.connections().contains_key(views[i as int]));
            proof {
                self.lemma_wf();
            }
            if let Some(connection) = self.sockets.get_by_connection_token(ids[i].as_str()) {
                list.push(connection);
            }
            i += 1;
        }
        proof {
            assert forall|a: int, b: int|
                #![trigger list@[a], list@[b]]
                0 <= a < b < list@.len() implies list@[a].list_index() != list@[b].list_index() by {
                assert(views[a] != views[b]);
            }
            assert forall|key: Seq<char>| lists_key(list@, key) <==> views.to_set().contains(
                key,
            ) by {
                if lists_key(list@, key) {
                    let k = choose|k: int|
                        0 <= k < list@.len() && (#[trigger] list@[k]).list_index() == key;
                    assert(views[k] == key);
                }
                if views.contains(key) {
                    let k = choose|k: int| 0 <= k < views.len() && views[k] == key;
                    assert(list@[k].list_index() == key);
                }
            }
        }
        list
    }

    /// The connections that carry `key` with exactly `value`, each once, or
    /// `None` where there is none.
    pub fn get_tagged_connections_with_value(&self, key: &str, value: &str) -> (found: Option<
        Vec<&MySignalrConnection<TCtx>>,
    >)
        requires
            self.wf(),
        ensures
            match found {
                Some(list) => {
                    &&& list@.len() > 0
                    &&& is_snapshot_of(list@, self.connections())
                    &&& forall|id: Seq<char>|
                        lists_key(list@, id) <==> tagged_with_value(self.tags(), key@, value@).contains(
                            id,
                        )
                },
                None => tagged_with_value(self.tags(), key@, value@) == Set::<Seq<char>>::empty(),
            },
    {
        match self.tags.get_tagged_connections_with_value(key, value) {
            Some(ids) => {
                proof {
                    let views = string_views(ids@);
                    assert forall|i: int| 0 <= i < ids@.len() implies self.connections().contains_key(
                        #[trigger] views[i],
                    ) by {
                        assert(views.to_set().contains(views[i]));
                        assert(self.tags().contains_key((views[i], key@)));
                    }
                }
                Some(self.collect(&ids))
            },
            None => None,
        }
    }

    /// The connections that carry `key` with any value, each once, or `None`
    /// where there is none.
    pub fn get_tagged_connections(&self, key: &str) -> (found: Option<
        Vec<&MySignalrConnection<TCtx>>,
    >)
        requires
            self.wf(),
        ensures
            match found {
                Some(list) => {
                    &&& list@.len() > 0
                    &&& is_snapshot_of(list@, self.connections())
                    &&& forall|id: Seq<char>|
                        lists_key(list@, id) <==> tagged(self.tags(), key@).contains(id)
                },
                None => tagged(self.tags(), key@) == Set::<Seq<char>>::empty(),
            },
    {
        match self.tags.get_tagged_connections(key) {
            Some(ids) => {
                proof {
                    let views = string_views(ids@);
                    assert forall|i: int| 0 <= i < ids@.len() implies self.connections().contains_key(
                        #[trigger] views[i],
                    ) by {
                        assert(views.to_set().contains(views[i]));
                        assert(self.tags().contains_key((views[i], key@)));
                    }
                }
                Some(self.collect(&ids))
            },
            None => None,
        }
    }

    /// Records on the connection that holds the transport session
    /// `web_socket_id` that a frame came in at `now`. Says whether there is
    /// such a connection.
    pub fn update_incoming_activity(&mut self, web_socket_id: i64, now: i64) -> (found: bool)
        requires
            old(self).wf(),
        ensures
            final(self).wf(),
            final(self).transports() == old(self).transports(),
            final(self).tags() == old(self).tags(),
            found == old(self).transports().contains_key(web_socket_id),
            found ==> {
                let key = old(self).transports()[web_socket_id];
                final(self).connections() == old(self).connections().insert(
                    key,
                    MySignalrConnection { last_incoming_moment: now, ..old(self).connections()[key] },
                )
            },
            !found ==> final(self).connections() == old(self).connections(),
    {
        proof {
            self.lemma_wf();
        }
        self.sockets.update_incoming_activity(web_socket_id, now)
    }

    /// Marks the handshake of the connection that holds the transport session
    /// `web_socket_id` as accepted. Says whether there is such a connection.
    pub fn set_has_greeting(&mut self, web_socket_id: i64) -> (found: bool)
        requires
            old(self).wf(),
        ensures
            final(self).wf(),
            final(self).transports() == old(self).transports(),
            final(self).tags() == old(self).tags(),
            found == old(self).transports().contains_key(web_socket_id),
            found ==> {
                let key = old(self).transports()[web_socket_id];
                final(self).connections() == old(self).connections().insert(
                    key,
                    MySignalrConnection { has_greeting: true, ..old(self).connections()[key] },
                )
            },
            !found ==> final(self).connections() == old(self).connections(),
    {
        proof {
            self.lemma_wf();
        }
        self.sockets.set_has_greeting(web_socket_id)
    }
}

/// A connection that has left the registry is reached no more: not by its
/// key, not by a transport session, and by no tag.
pub proof fn lemma_unregistered_is_unreachable<TCtx>(
    list: SignalrConnectionsList<TCtx>,
    key: Seq<char>,
)
    requires
        list.wf(),
        !list.connections().contains_key(key),
    ensures
        forall|id: i64| #[trigger]
            list.transports().contains_key(id) ==> list.transports()[id] != key,
        forall|tag: Seq<char>| !(#[trigger] tagged(list.tags(), tag)).contains(key),
        forall|tag: Seq<char>, value: Seq<char>|
            !(#[trigger] tagged_with_value(list.tags(), tag, value)).contains(key),
{
    list.lemma_wf();
    lemma_unregistered_has_no_transport(list.connections(), list.transports(), key);
    assert forall|tag: Seq<char>| !(#[trigger] tagged(list.tags(), tag)).contains(key) by {
        if list.tags().contains_key((key, tag)) {
            assert(list.connections().contains_key(key));
        }
    }
    assert forall|tag: Seq<char>, value: Seq<char>|
        !(#[trigger] tagged_with_value(list.tags(), tag, value)).contains(key) by {
        if list.tags().contains_key((key, tag)) {
            assert(list.connections().contains_key(key));
        }
    }
}

} // verus!
