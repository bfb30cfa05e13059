//! The departure of a connection.

use crate::signal_r_connection::MySignalrConnection;
use crate::signal_r_connections_list::SignalrConnectionsList;
use crate::signal_r_list::{without_session, RemovedConnection};
use crate::tag_model::without_connection;
use vstd::prelude::*;

verus! {

/// Takes the connection under `list_index` out of the registry. Where there
/// was one it is handed back, disconnected, so that its departure can be
/// announced: this happens once, since afterwards nothing stands under the
/// key.
pub fn process_disconnect<TCtx>(
    sockets_list: &mut SignalrConnectionsList<TCtx>,
    list_index: &str,
) -> (removed: Option<RemovedConnection<TCtx>>)
    requires
        old(sockets_list).wf(),
    ensures
        final(sockets_list).wf(),
        !final(sockets_list).connections().contains_key(list_index@),
        removed is Some <==> old(sockets_list).connections().contains_key(list_index@),
        final(sockets_list).tags() == without_connection(old(sockets_list).tags(), list_index@),
        match removed {
            Some(removed) => {
                let before = old(sockets_list).connections()[list_index@];
                &&& old(sockets_list).connections().contains_key(list_index@)
                &&& final(sockets_list).connections() == old(sockets_list).connections().remove(
                    list_index@,
                )
                &&& final(sockets_list).transports() == without_session(
                    old(sockets_list).transports(),
                    before.web_socket,
                )
                &&& removed.web_socket == before.web_socket
                &&& removed.connection == (MySignalrConnection {
                    connected: false,
                    web_socket: None,
                    ..before
                })
            },
            None => {
                &&& !old(sockets_list).connections().contains_key(list_index@)
                &&& final(sockets_list).connections() == old(sockets_list).connections()
                &&& final(sockets_list).transports() == old(sockets_list).transports()
            },
        },
{
    sockets_list.remove(list_index)
}

} // verus!
