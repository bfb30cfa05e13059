//! The registry of live connections: one index by the connection's key (its
//! token, or its id where it has none) and one by transport session.

use crate::signal_r_connection::{kicked_message, KickNotice, MySignalrConnection};
use crate::string_map::StringMap;
use std::collections::HashMap;
use vstd::prelude::*;

verus! {

broadcast use vstd::std_specs::hash::group_hash_axioms;

/// The connections of a registry, by key.
pub type ConnectionMap<TCtx> = Map<Seq<char>, MySignalrConnection<TCtx>>;

/// The transport sessions of a registry, each with the key of the connection
/// it is attached to.
pub type TransportMap = Map<i64, Seq<char>>;

/// `transports` without the entry that leads from `web_socket` to `key`, if
/// there is one.
pub open spec fn without_transport_of(
    transports: TransportMap,
    web_socket: Option<i64>,
    key: Seq<char>,
) -> TransportMap {
    match web_socket {
        Some(id) => if transports.contains_key(id) && transports[id] == key {
            transports.remove(id)
        } else {
            transports
        },
        None => transports,
    }
}

/// `transports` with `web_socket`, if there is one, leading to `key`.
pub open spec fn with_transport_of(
    transports: TransportMap,
    web_socket: Option<i64>,
    key: Seq<char>,
) -> TransportMap {
    match web_socket {
        Some(id) => transports.insert(id, key),
        None => transports,
    }
}

/// `transports` without the session `web_socket`, whatever it leads to.
pub open spec fn without_session(transports: TransportMap, web_socket: Option<i64>) -> TransportMap {
    match web_socket {
        Some(id) => transports.remove(id),
        None => transports,
    }
}

/// `connections` with the transport session `web_socket_id` attached to the
/// connection under `key`.
pub open spec fn with_attached<TCtx>(
    connections: ConnectionMap<TCtx>,
    key: Seq<char>,
    web_socket_id: i64,
) -> ConnectionMap<TCtx> {
    connections.insert(
        key,
        MySignalrConnection { web_socket: Some(web_socket_id), ..connections[key] },
    )
}

/// `transports` once the transport session `web_socket_id` is attached to
/// the connection under `key`: the session that the connection held before
/// leads to it no more, and the new one does.
pub open spec fn transports_after_attach<TCtx>(
    connections: ConnectionMap<TCtx>,
    transports: TransportMap,
    key: Seq<char>,
    web_socket_id: i64,
) -> TransportMap {
    without_transport_of(transports, connections[key].web_socket, key).insert(web_socket_id, key)
}

/// The two indexes agree: every connection is live and stands under its own
/// key, and every transport session leads to a connection that is registered
/// and has that session attached.
pub open spec fn indexes_agree<TCtx>(
    connections: ConnectionMap<TCtx>,
    transports: TransportMap,
) -> bool {
    &&& forall|key: Seq<char>| #[trigger]
        connections.contains_key(key) ==> connections[key].list_index() == key
            && connections[key].connected
    &&& forall|id: i64| #[trigger]
        transports.contains_key(id) ==> connections.contains_key(transports[id])
            && connections[transports[id]].web_socket == Some(id)
}

/// What attaching a transport to a registered connection leaves to do.
pub struct TransportAttached {
    /// The notice for the transport that lost its place, if there was one:
    /// it gets the message and is then closed.
    pub kicked: Option<KickNotice>,
}

/// A connection that has left the registry.
pub struct RemovedConnection<TCtx> {
    /// The connection, disconnected.
    pub connection: MySignalrConnection<TCtx>,
    /// The transport session that it released, which is to be closed.
    pub web_socket: Option<i64>,
}

/// Each connection of `list` is registered as it stands in the list, and
/// none is listed twice.
pub open spec fn is_snapshot_of<TCtx>(
    list: Seq<&MySignalrConnection<TCtx>>,
    connections: ConnectionMap<TCtx>,
) -> bool {
    &&& forall|i: int|
        0 <= i < list.len() ==> connections.contains_key((#[trigger] list[i]).list_index())
            && connections[list[i].list_index()] == *list[i]
    &&& forall|i: int, j: int|
        #![trigger list[i], list[j]]
        0 <= i < j < list.len() ==> list[i].list_index() != list[j].list_index()
}

/// Whether the connection under `key` is in `list`.
pub open spec fn lists_key<TCtx>(list: Seq<&MySignalrConnection<TCtx>>, key: Seq<char>) -> bool {
    exists|i: int| 0 <= i < list.len() && (#[trigger] list[i]).list_index() == key
}

pub struct SignalrList<TCtx> {
    sockets_by_web_socket_id: HashMap<i64, String>,
    sockets_by_connection_token: StringMap<MySignalrConnection<TCtx>>,
}

impl<TCtx> SignalrList<TCtx> {
    /// The connections, by key.
    pub closed spec fn connections(&self) -> ConnectionMap<TCtx> {
        self.sockets_by_connection_token@
    }

    /// The transport sessions, each with the key of its connection.
    pub closed spec fn transports(&self) -> TransportMap {
        Map::new(
            |id: i64| self.sockets_by_web_socket_id@.contains_key(id),
            |id: i64| self.sockets_by_web_socket_id@[id]@,
        )
    }

    pub closed spec fn wf(&self) -> bool {
        &&& self.sockets_by_connection_token.wf()
        &&& indexes_agree(self.connections(), self.transports())
    }

    /// What `wf` says of the two indexes.
    pub proof fn lemma_wf(&self)
        requires
            self.wf(),
        ensures
            indexes_agree(self.connections(), self.transports()),
    {
    }

    pub fn new() -> (list: Self)
        ensures
            list.wf(),
            list.connections() == Map::<Seq<char>, MySignalrConnection<TCtx>>::empty(),
            list.transports() == Map::<i64, Seq<char>>::empty(),
    {
        let list = Self {
            sockets_by_web_socket_id: HashMap::new(),
            sockets_by_connection_token: StringMap::new(),
        };
        proof {
            assert(list.transports() =~= Map::empty());
        }
        list
    }

    /// Drops the entry that leads from `web_socket` to `key`, if there is one.
    fn drop_transport_of(&mut self, web_socket: Option<i64>, key: &String)
        ensures
            final(self).sockets_by_connection_token == old(self).sockets_by_connection_token,
            final(self).transports() == without_transport_of(
                old(self).transports(),
                web_socket,
                key@,
            ),
    {
        if let Some(id) = web_socket {
            let stale = match self.sockets_by_web_socket_id.get(&id) {
                Some(target) => *target == *key,
                None => false,
            };
            if stale {
                self.sockets_by_web_socket_id.remove(&id);
                proof {
                    assert(self.transports() =~= old(self).transports().remove(id));
                }
            }
        }
    }

    /// Registers `signalr_connection` under its key. A connection that stood
    /// under that key before is displaced and handed back.
    pub fn add_signalr_connection(&mut self, signalr_connection: MySignalrConnection<TCtx>) -> (displaced:
        Option<MySignalrConnection<TCtx>>)
        requires
            old(self).wf(),
            signalr_connection.connected,
        ensures
            final(self).wf(),
            final(self).connections() == old(self).connections().insert(
                signalr_connection.list_index(),
                signalr_connection,
            ),
            match displaced {
                Some(before) => old(self).connections().contains_key(
                    signalr_connection.list_index(),
                ) && before == old(self).connections()[signalr_connection.list_index()]
                    && final(self).transports() == with_transport_of(
                    without_transport_of(
                        old(self).transports(),
                        before.web_socket,
                        signalr_connection.list_index(),
                    ),
                    signalr_connection.web_socket,
                    signalr_connection.list_index(),
                ),
                None => !old(self).connections().contains_key(signalr_connection.list_index())
                    && final(self).transports() == with_transport_of(
                    old(self).transports(),
                    signalr_connection.web_socket,
                    signalr_connection.list_index(),
                ),
            },
    {
        let key = signalr_connection.get_list_index().clone();
        let web_socket = signalr_connection.get_web_socket();
        let displaced = self.sockets_by_connection_token.insert(key.clone(), signalr_connection);
        if let Some(before) = &displaced {
            self.drop_transport_of(before.web_socket, &key);
        }
        let ghost middle = self.transports();
        if let Some(id) = web_socket {
            self.sockets_by_web_socket_id.insert(id, key);
            proof {
                assert(self.transports() =~= middle.insert(id, key@));
            }
        }
        displaced
    }

    pub fn get_by_connection_token(&self, connection_token: &str) -> (found: Option<
        &MySignalrConnection<TCtx>,
    >)
        requires
            self.wf(),
        ensures
            match found {
                Some(connection) => self.connections().contains_key(connection_token@)
                    && *connection == self.connections()[connection_token@],
                None => !self.connections().contains_key(connection_token@),
            },
    {
        self.sockets_by_connection_token.get(connection_token)
    }

    pub fn get_by_web_socket_id(&self, web_socket_id: i64) -> (found: Option<
        &MySignalrConnection<TCtx>,
    >)
        requires
            self.wf(),
        ensures
            match found {
                Some(connection) => self.transports().contains_key(web_socket_id) && *connection
                    == self.connections()[self.transports()[web_socket_id]],
                None => !self.transports().contains_key(web_socket_id),
            },
    {
        match self.sockets_by_web_socket_id.get(&web_socket_id) {
            Some(key) => {
                assert(self.transports().contains_key(web_socket_id));
                self.sockets_by_connection_token.get(key.as_str())
            },
            None => None,
        }
    }
}

impl<TCtx> SignalrList<TCtx> {
    /// Puts `connection` back under the key that `before` was taken from.
    fn put_back(&mut self, connection: MySignalrConnection<TCtx>, Ghost(before): Ghost<Self>)
        requires
            before.wf(),
            before.connections().contains_key(connection.list_index()),
            old(self).sockets_by_connection_token.wf(),
            old(self).connections() == before.connections().remove(connection.list_index()),
            old(self).sockets_by_web_socket_id == before.sockets_by_web_socket_id,
            connection.connected,
            connection.web_socket == before.connections()[connection.list_index()].web_socket,
        ensures
            final(self).wf(),
            final(self).connections() == before.connections().insert(
                connection.list_index(),
                connection,
            ),
            final(self).transports() == before.transports(),
            final(self).sockets_by_web_socket_id == before.sockets_by_web_socket_id,
    {
        let key = connection.get_list_index().clone();
        self.sockets_by_connection_token.insert(key, connection);
        proof {
            assert(self.connections() =~= before.connections().insert(
                connection.list_index(),
                connection,
            ));
        }
    }

    /// Attaches the transport session `web_socket_id` to the connection under
    /// `connection_token`. A transport that the connection had before loses
    /// its place in both indexes. Without such a connection nothing changes.
    pub fn assign_web_socket(&mut self, connection_token: &str, web_socket_id: i64) -> (attached:
        Option<TransportAttached>)
        requires
            old(self).wf(),
        ensures
            final(self).wf(),
            match attached {
                Some(attached) => {
                    let before = old(self).connections()[connection_token@];
                    &&& old(self).connections().contains_key(connection_token@)
                    &&& final(self).connections() == with_attached(
                        old(self).connections(),
                        connection_token@,
                        web_socket_id,
                    )
                    &&& final(self).transports() == transports_after_attach(
                        old(self).connections(),
                        old(self).transports(),
                        connection_token@,
                        web_socket_id,
                    )
                    &&& match attached.kicked {
                        Some(notice) => before.web_socket == Some(notice.web_socket_id)
                            && notice.message@ == kicked_message(
                            notice.web_socket_id as int,
                            web_socket_id as int,
                        ),
                        None => before.web_socket is None,
                    }
                },
                None => {
                    &&& !old(self).connections().contains_key(connection_token@)
                    &&& final(self).connections() == old(self).connections()
                    &&& final(self).transports() == old(self).transports()
                },
            },
    {
        let ghost before = *self;
        match self.sockets_by_connection_token.remove(connection_token) {
            Some(found) => {
                let mut found = found;
                let key = found.get_list_index().clone();
                self.drop_transport_of(found.web_socket, &key);
                let ghost middle = self.transports();
                let kicked = found.add_web_socket(web_socket_id);
                self.sockets_by_web_socket_id.insert(web_socket_id, key.clone());
                self.sockets_by_connection_token.insert(key, found);
                proof {
                    assert(self.transports() =~= middle.insert(web_socket_id, connection_token@));
                    assert(self.connections() =~= before.connections().insert(
                        connection_token@,
                        found,
                    ));
                }
                Some(TransportAttached { kicked })
            },
            None => {
                proof {
                    assert(before.connections().remove(connection_token@) =~= before.connections());
                }
                None
            },
        }
    }

    /// Takes the connection under `connection_token` out of the registry,
    /// disconnects it and drops the transport session that it held from the
    /// index. Without such a connection nothing changes.
    pub fn remove(&mut self, connection_token: &str) -> (removed: Option<RemovedConnection<TCtx>>)
        requires
            old(self).wf(),
        ensures
            final(self).wf(),
            !final(self).connections().contains_key(connection_token@),
            match removed {
                Some(removed) => {
                    let before = old(self).connections()[connection_token@];
                    &&& old(self).connections().contains_key(connection_token@)
                    &&& final(self).connections() == old(self).connections().remove(
                        connection_token@,
                    )
                    &&& final(self).transports() == without_session(
                        old(self).transports(),
                        before.web_socket,
                    )
                    &&& removed.web_socket == before.web_socket
                    &&& removed.connection == (MySignalrConnection {
                        connected: false,
                        web_socket: None,
                        ..before
                    })
                },
                None => {
                    &&& !old(self).connections().contains_key(connection_token@)
                    &&& final(self).connections() == old(self).connections()
                    &&& final(self).transports() == old(self).transports()
                },
            },
    {
        let ghost before = *self;
        match self.sockets_by_connection_token.remove(connection_token) {
            Some(found) => {
                let mut connection = found;
                let web_socket = connection.disconnect();
                if let Some(id) = web_socket {
                    self.sockets_by_web_socket_id.remove(&id);
                    proof {
                        assert(self.transports() =~= before.transports().remove(id));
                    }
                }
                Some(RemovedConnection { connection, web_socket })
            },
            None => {
                proof {
                    assert(before.connections().remove(connection_token@) =~= before.connections());
                }
                None
            },
        }
    }

    /// Records on the connection that holds the transport session
    /// `web_socket_id` that a frame came in at `now`. Says whether there is
    /// such a connection.
    pub fn update_incoming_activity(&mut self, web_socket_id: i64, now: i64) -> (found: bool)
        requires
            old(self).wf(),
        ensures
            final(self).wf(),
            final(self).transports() == old(self).transports(),
            found == old(self).transports().contains_key(web_socket_id),
            found ==> {
                let key = old(self).transports()[web_socket_id];
                final(self).connections() == old(self).connections().insert(
                    key,
                    MySignalrConnection { last_incoming_moment: now, ..old(self).connections()[key] },
                )
            },
            !found ==> final(self).connections() == old(self).connections(),
    {
        let ghost before = *self;
        let key = match self.sockets_by_web_socket_id.get(&web_socket_id) {
            Some(key) => key.clone(),
            None => {
                return false;
            },
        };
        assert(self.transports().contains_key(web_socket_id));
        match self.sockets_by_connection_token.remove(key.as_str()) {
            Some(found) => {
                let mut connection = found;
                connection.update_incoming_activity(now);
                self.put_back(connection, Ghost(before));
                true
            },
            None => false,
        }
    }

    /// Marks the handshake of the connection that holds the transport session
    /// `web_socket_id` as accepted. Says whether there is such a connection.
    pub fn set_has_greeting(&mut self, web_socket_id: i64) -> (found: bool)
        requires
            old(self).wf(),
        ensures
            final(self).wf(),
            final(self).transports() == old(self).transports(),
            found == old(self).transports().contains_key(web_socket_id),
            found ==> {
                let key = old(self).transports()[web_socket_id];
                final(self).connections() == old(self).connections().insert(
                    key,
                    MySignalrConnection { has_greeting: true, ..old(self).connections()[key] },
                )
            },
            !found ==> final(self).connections() == old(self).connections(),
    {
        let ghost before = *self;
        let key = match self.sockets_by_web_socket_id.get(&web_socket_id) {
            Some(key) => key.clone(),
            None => {
                return false;
            },
        };
        assert(self.transports().contains_key(web_socket_id));
        match self.sockets_by_connection_token.remove(key.as_str()) {
            Some(found) => {
                let mut connection = found;
                connection.set_has_greeting();
                self.put_back(connection, Ghost(before));
                true
            },
            None => false,
        }
    }
}

impl<TCtx> SignalrList<TCtx> {
    /// The first `count` slots of the primary index, as a list.
    spec fn slots_prefix(&self, count: int) -> Seq<&MySignalrConnection<TCtx>> {
        Seq::new(
            count as nat,
            |i: int| &self.sockets_by_connection_token.spec_value_at(i),
        )
    }

    /// Every connection, each once.
    pub fn get_all(&self) -> (all: Vec<&MySignalrConnection<TCtx>>)
        requires
            self.wf(),
        ensures
            is_snapshot_of(all@, self.connections()),
            forall|key: Seq<char>| #[trigger]
                self.connections().contains_key(key) ==> lists_key(all@, key),
    {
        proof {
            self.sockets_by_connection_token.lemma_slots();
        }
        let mut all: Vec<&MySignalrConnection<TCtx>> = Vec::new();
        let mut i: usize = 0;
        while i < self.sockets_by_connection_token.len()
            invariant
                self.wf(),
                i <= self.sockets_by_connection_token.spec_len(),
                all@ == self.slots_prefix(i as int),
            decreases self.sockets_by_connection_token.spec_len() - i,
        {
            all.push(self.sockets_by_connection_token.value_at(i));
            proof {
                assert(all@ =~= self.slots_prefix(i + 1));
            }
            i += 1;
        }
        proof {
            let map = self.sockets_by_connection_token;
            assert forall|k: int| 0 <= k < all@.len() implies self.connections().contains_key(
                (#[trigger] all@[k]).list_index(),
            ) && self.connections()[all@[k].list_index()] == *all@[k] by {
                assert(self.connections().contains_key(map.spec_key_at(k)));
            }
            assert forall|a: int, b: int|
                #![trigger all@[a], all@[b]]
                0 <= a < b < all@.len() implies all@[a].list_index() != all@[b].list_index() by {
                assert(self.connections().contains_key(map.spec_key_at(a)));
                assert(self.connections().contains_key(map.spec_key_at(b)));
            }
            assert forall|key: Seq<char>| #[trigger]
                self.connections().contains_key(key) implies lists_key(all@, key) by {
                let k = choose|k: int| 0 <= k < map.spec_len() && #[trigger] map.spec_key_at(k) == key;
                assert(all@[k].list_index() == key);
            }
        }
        all
    }

    /// A connection that `filter` accepts, or `None` where it accepts none.
    pub fn find_first<TFn: Fn(&MySignalrConnection<TCtx>) -> bool>(&self, filter: TFn) -> (found:
        Option<&MySignalrConnection<TCtx>>)
        requires
            self.wf(),
            forall|connection: &MySignalrConnection<TCtx>| filter.requires((connection,)),
        ensures
            match found {
                Some(connection) => {
                    &&& self.connections().contains_key(connection.list_index())
                    &&& self.connections()[connection.list_index()] == *connection
                    &&& filter.ensures((connection,), true)
                },
                None => forall|key: Seq<char>| #[trigger]
                    self.connections().contains_key(key) ==> filter.ensures(
                        (&self.connections()[key],),
                        false,
                    ),
            },
    {
        proof {
            self.sockets_by_connection_token.lemma_slots();
        }
        let mut i: usize = 0;
        while i < self.sockets_by_connection_token.len()
            invariant
                self.wf(),
                i <= self.sockets_by_connection_token.spec_len(),
                forall|connection: &MySignalrConnection<TCtx>| filter.requires((connection,)),
                forall|k: int|
                    0 <= k < i ==> filter.ensures(
                        (&#[trigger] self.sockets_by_connection_token.spec_value_at(k),),
                        false,
                    ),
            decreases self.sockets_by_connection_token.spec_len() - i,
        {
            let connection = self.sockets_by_connection_token.value_at(i);
            if filter(connection) {
                proof {
                    let map = self.sockets_by_connection_token;
                    map.lemma_slots();
                    assert(self.connections().contains_key(map.spec_key_at(i as int)));
                }
                return Some(connection);
            }
            i += 1;
        }
        proof {
            let map = self.sockets_by_connection_token;
            assert forall|key: Seq<char>| #[trigger]
                self.connections().contains_key(key) implies filter.ensures(
                (&self.connections()[key],),
                false,
            ) by {
                let k = choose|k: int| 0 <= k < map.spec_len() && #[trigger] map.spec_key_at(k) == key;
                assert(filter.ensures((&map.spec_value_at(k),), false));
            }
        }
        None
    }

    /// The connections that `filter` accepts, each once.
    pub fn filter<TFn: Fn(&MySignalrConnection<TCtx>) -> bool>(&self, filter: TFn) -> (accepted:
        Vec<&MySignalrConnection<TCtx>>)
        requires
            self.wf(),
            forall|connection: &MySignalrConnection<TCtx>| filter.requires((connection,)),
        ensures
            is_snapshot_of(accepted@, self.connections()),
            forall|i: int|
                0 <= i < accepted@.len() ==> filter.ensures((#[trigger] accepted@[i],), true),
            forall|key: Seq<char>| #[trigger]
                self.connections().contains_key(key) ==> lists_key(accepted@, key)
                    || filter.ensures((&self.connections()[key],), false),
    {
        proof {
            self.sockets_by_connection_token.lemma_slots();
        }
        let ghost map = self.sockets_by_connection_token;
        let mut accepted: Vec<&MySignalrConnection<TCtx>> = Vec::new();
        let ghost mut origin: Seq<int> = Seq::empty();
        let mut i: usize = 0;
        while i < self.sockets_by_connection_token.len()
            invariant
                self.wf(),
                map == self.sockets_by_connection_token,
                i <= map.spec_len(),
                forall|connection: &MySignalrConnection<TCtx>| filter.requires((connection,)),
                origin.len() == accepted@.len(),
                forall|a: int|
                    0 <= a < origin.len() ==> 0 <= #[trigger] origin[a] < i && *accepted@[a]
                        == map.spec_value_at(origin[a]),
                forall|a: int, b: int|
                    0 <= a < b < origin.len() ==> #[trigger] origin[a] < #[trigger] origin[b],
                forall|a: int|
                    0 <= a < accepted@.len() ==> filter.ensures((#[trigger] accepted@[a],), true),
                forall|k: int|
                    0 <= k < i ==> lists_key(accepted@, #[trigger] map.spec_key_at(k))
                        || filter.ensures((&map.spec_value_at(k),), false),
            decreases map.spec_len() - i,
        {
            let connection = self.sockets_by_connection_token.value_at(i);
            let ghost before = accepted@;
            if filter(connection) {
                accepted.push(connection);
                proof {
                    origin = origin.push(i as int);
                    map.lemma_slots();
                    assert(self.connections().contains_key(map.spec_key_at(i as int)));
                    assert(accepted@[before.len() as int].list_index() == map.spec_key_at(i as int));
                }
            }
            proof {
                assert forall|k: int| 0 <= k < i + 1 implies lists_key(
                    accepted@,
                    #[trigger] map.spec_key_at(k),
                ) || filter.ensures((&map.spec_value_at(k),), false) by {
                    if k < i && lists_key(before, map.spec_key_at(k)) {
                        let a = choose|a: int|
                            0 <= a < before.len() && (#[trigger] before[a]).list_index()
                                == map.spec_key_at(k);
                        assert(accepted@[a] == before[a]);
                    }
                }
            }
            i += 1;
        }
        proof {
            assert forall|a: int| 0 <= a < accepted@.len() implies self.connections().contains_key(
                (#[trigger] accepted@[a]).list_index(),
            ) && self.connections()[accepted@[a].list_index()] == *accepted@[a] by {
                assert(self.connections().contains_key(map.spec_key_at(origin[a])));
            }
            assert forall|a: int, b: int|
                #![trigger accepted@[a], accepted@[b]]
                0 <= a < b < accepted@.len() implies accepted@[a].list_index()
                != accepted@[b].list_index() by {
                assert(origin[a] < origin[b]);
                assert(self.connections().contains_key(map.spec_key_at(origin[a])));
                assert(self.connections().contains_key(map.spec_key_at(origin[b])));
            }
            assert forall|key: Seq<char>| #[trigger]
                self.connections().contains_key(key) implies lists_key(accepted@, key)
                || filter.ensures((&self.connections()[key],), false) by {
                let k = choose|k: int| 0 <= k < map.spec_len() && #[trigger] map.spec_key_at(k) == key;
                assert(lists_key(accepted@, map.spec_key_at(k)) || filter.ensures(
                    (&map.spec_value_at(k),),
                    false,
                ));
            }
        }
        accepted
    }
}

/// A second transport for one connection evicts the first. After the
/// sessions `first` and then `second` were attached to the connection under
/// `key`, the connection holds `second` alone: what it sends goes there, the
/// session `second` leads to it, and the session `first` leads nowhere.
pub proof fn lemma_second_transport_evicts_first<TCtx>(
    connections: ConnectionMap<TCtx>,
    transports: TransportMap,
    key: Seq<char>,
    first: i64,
    second: i64,
)
    requires
        indexes_agree(connections, transports),
        connections.contains_key(key),
    ensures
        ({
            let connections_1 = with_attached(connections, key, first);
            let transports_1 = transports_after_attach(connections, transports, key, first);
            let connections_2 = with_attached(connections_1, key, second);
            let transports_2 = transports_after_attach(connections_1, transports_1, key, second);
            &&& connections_1[key].web_socket == Some(first)
            &&& indexes_agree(connections_1, transports_1)
            &&& connections_2[key].web_socket == Some(second)
            &&& transports_2.contains_key(second) && transports_2[second] == key
            &&& first != second ==> !transports_2.contains_key(first)
            &&& indexes_agree(connections_2, transports_2)
        }),
{
}

/// A key under which no connection stands is reached by no transport
/// session: once a connection is removed, no session leads to it.
pub proof fn lemma_unregistered_has_no_transport<TCtx>(
    connections: ConnectionMap<TCtx>,
    transports: TransportMap,
    key: Seq<char>,
)
    requires
        indexes_agree(connections, transports),
        !connections.contains_key(key),
    ensures
        forall|id: i64| #[trigger] transports.contains_key(id) ==> transports[id] != key,
{
}

} // verus!
