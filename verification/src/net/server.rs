//! The server's side of the protocol: accepting and refusing clients, heartbeats, time-outs
//! and data.
//!
//! The server decides; its caller owns the socket and the clock, sends the messages that the
//! server hands out, and reports back what was sent.

use vstd::prelude::*;
use crate::network::messages::{
    ClientId, ConnectionRejectReason, DataPayload, Message, MessagePayload, ConnectionAccept,
    ConnectionReject, DisconnectNotice, Heartbeat, Data, decode_message, is_message_of, data_message_built,
};
use crate::network::serialization::{Serialize, bytes_to_words_spec};
use crate::bits::words_bits;
use crate::net::connection::{
    ConnectionHeartbeat, NetError, PeerAddr, ServerError, elapsed, NET_RETRY_INTERVAL,
    NET_TIMEOUT_INTERVAL,
};

verus! {

/// What a server reports.
#[derive(Copy, Clone, Debug)]
pub enum ServerEvent {
    ClientHeartbeat(ClientId),
    ClientConnect(ClientId),
    ClientReject(ClientId, PeerAddr),
    ClientDisconnect(ClientId),
    ClientTimeOut(ClientId),
    SentHeartbeat(ClientId),
    Data(ClientId, DataPayload),
}

/// A connected client.
#[derive(Copy, Clone, Debug, PartialEq, Eq, Structural)]
pub struct ClientConnection {
    pub client_id: ClientId,
    pub client_addr: PeerAddr,
    pub heartbeat: ConnectionHeartbeat,
}

impl ClientConnection {
    pub fn client_id(&self) -> (r: ClientId)
        ensures
            r == self.client_id,
    {
        self.client_id
    }

    pub fn addr(&self) -> (r: PeerAddr)
        ensures
            r == self.client_addr,
    {
        self.client_addr
    }

    pub fn heartbeat(&self) -> (r: &ConnectionHeartbeat)
        ensures
            *r == self.heartbeat,
    {
        &self.heartbeat
    }
}

/// What a server does about a message.
#[derive(Copy, Clone, Debug)]
pub enum ServerReply {
    /// Nothing: the message does not concern the server.
    Ignore,
    /// Report the event.
    Event(ServerEvent),
    /// Send the refusal to `addr`, then report `ClientReject`.
    Reject { client_id: ClientId, addr: PeerAddr, message: Message },
    /// The client was added: send it the acceptance, report the send with `sent`, then report
    /// `ClientConnect`.
    Accept { client_id: ClientId, addr: PeerAddr, message: Message },
    /// The client leaves: send it the notice, then `remove_client` and report
    /// `ClientDisconnect`.
    Disconnect { client_id: ClientId, addr: PeerAddr, message: Message },
}

/// What a server's clock asks of it.
#[derive(Copy, Clone, Debug)]
pub enum ServerTick {
    Idle,
    /// The client timed out: send it the notice, then `remove_client` and report
    /// `ClientTimeOut`.
    TimedOut { client_id: ClientId, addr: PeerAddr, message: Message },
    /// Send the client a heartbeat, report the send with `sent`, then report `SentHeartbeat`.
    Heartbeat { client_id: ClientId, addr: PeerAddr, message: Message },
}

/// A server: its address, its clients, and the client its clock looks at.
pub struct Server {
    listen_addr: PeerAddr,
    connections: Vec<ClientConnection>,
    client_event_index: usize,
}

/// Where the client at address `addr` stands in `cs`, if anywhere.
pub open spec fn position_of_addr(cs: Seq<ClientConnection>, addr: PeerAddr) -> Option<int> {
    if exists|i: int| 0 <= i < cs.len() && cs[i].client_addr == addr {
        Some(choose|i: int| 0 <= i < cs.len() && cs[i].client_addr == addr)
    } else {
        None
    }
}

impl Server {
    pub closed spec fn listen(&self) -> PeerAddr {
        self.listen_addr
    }

    pub closed spec fn clients(&self) -> Seq<ClientConnection> {
        self.connections@
    }

    pub closed spec fn event_index(&self) -> usize {
        self.client_event_index
    }

    /// The server's invariant: no two clients share an id or an address.
    pub open spec fn wf(&self) -> bool {
        forall|i: int, j: int| 0 <= i < j < self.clients().len() ==> {
            &&& (#[trigger] self.clients()[i]).client_id != (#[trigger] self.clients()[j]).client_id
            &&& self.clients()[i].client_addr != self.clients()[j].client_addr
        }
    }

    /// A server on `listen_addr` with no client.
    pub fn new(listen_addr: PeerAddr) -> (r: Self)
        ensures
            r.wf(),
            r.listen() == listen_addr,
            r.clients() == Seq::<ClientConnection>::empty(),
            r.event_index() == 0,
    {
        Server { listen_addr, connections: Vec::new(), client_event_index: 0 }
    }

    pub fn addr(&self) -> (r: PeerAddr)
        ensures
            r == self.listen(),
    {
        self.listen_addr
    }

    pub fn connections(&self) -> (r: &Vec<ClientConnection>)
        ensures
            r@ == self.clients(),
    {
        &self.connections
    }

    /// Where the client with id `id` stands.
    fn find_id(&self, id: ClientId) -> (r: Option<usize>)
        ensures
            match r {
                Some(i) => i < self.clients().len() && self.clients()[i as int].client_id == id,
                None => forall|i: int| 0 <= i < self.clients().len() ==> #[trigger] self.clients()[i].client_id != id,
            },
    {
        let mut i: usize = 0;
        while i < self.connections.len()
            invariant
                i <= self.connections@.len(),
                forall|k: int| 0 <= k < i ==> #[trigger] self.connections@[k].client_id != id,
            decreases self.connections@.len() - i,
        {
            if self.connections[i].client_id == id {
                return Some(i);
            }
            i = i + 1;
        }
        None
    }

    /// Where the client at `addr` stands.
    fn find_addr(&self, addr: PeerAddr) -> (r: Option<usize>)
        ensures
            match r {
                Some(i) => i < self.clients().len() && self.clients()[i as int].client_addr == addr,
                None => forall|i: int| 0 <= i < self.clients().len() ==> #[trigger] self.clients()[i].client_addr != addr,
            },
    {
        let mut i: usize = 0;
        while i < self.connections.len()
            invariant
                i <= self.connections@.len(),
                forall|k: int| 0 <= k < i ==> #[trigger] self.connections@[k].client_addr != addr,
            decreases self.connections@.len() - i,
        {
            if self.connections[i].client_addr == addr {
                return Some(i);
            }
            i = i + 1;
        }
        None
    }

    /// The notice to send to the client with id `id` to disconnect it, and where. Refused for an
    /// unknown id.
    pub fn disconnect_client(&self, client_id: ClientId) -> (r: Result<(Message, PeerAddr), ServerError>)
        ensures
            match r {
                Ok((m, to)) => exists|i: int| 0 <= i < self.clients().len() && #[trigger] self.clients()[i].client_id == client_id
                    && to == self.clients()[i].client_addr && is_message_of(m, MessagePayload::DisconnectNotice(client_id)),
                Err(e) => e == ServerError::PacketNotFromConnectedClient
                    && forall|i: int| 0 <= i < self.clients().len() ==> #[trigger] self.clients()[i].client_id != client_id,
            },
    {
        match self.find_id(client_id) {
            Some(i) => Ok((DisconnectNotice::build_message(client_id), self.connections[i].client_addr)),
            None => Err(ServerError::PacketNotFromConnectedClient),
        }
    }

    /// Whether `remove_client(client_id)` can move the index the clock looks at without going
    /// below zero.
    pub fn removal_in_range(&self, client_id: ClientId) -> (r: bool)
        requires
            self.wf(),
        ensures
            r == forall|i: int| 0 <= i < self.clients().len() && #[trigger] self.clients()[i].client_id == client_id
                && i > self.event_index() ==> self.event_index() > 0,
    {
        match self.find_id(client_id) {
            Some(index) => {
                proof {
                    assert forall|i: int| 0 <= i < self.clients().len() && #[trigger] self.clients()[i].client_id == client_id
                        implies i == index by {
                        if i < index {
                            assert(self.clients()[i].client_id != self.clients()[index as int].client_id);
                        } else if i > index {
                            assert(self.clients()[index as int].client_id != self.clients()[i].client_id);
                        }
                    }
                }
                index <= self.client_event_index || self.client_event_index > 0
            },
            None => true,
        }
    }

    /// Removes the client with id `id`, keeping the others in order. The index the clock looks
    /// at moves down by one when a client after it leaves; `requires` rules out that move
    /// when the index is zero.
    pub fn remove_client(&mut self, client_id: ClientId) -> (r: Result<(), ServerError>)
        requires
            old(self).wf(),
            forall|i: int| 0 <= i < old(self).clients().len() && #[trigger] old(self).clients()[i].client_id == client_id
                && i > old(self).event_index() ==> old(self).event_index() > 0,
        ensures
            final(self).wf(),
            final(self).listen() == old(self).listen(),
            match r {
                Ok(()) => exists|i: int| 0 <= i < old(self).clients().len() && #[trigger] old(self).clients()[i].client_id == client_id && {
                    &&& final(self).clients() == old(self).clients().remove(i)
                    &&& final(self).event_index() == if i > old(self).event_index() {
                        (old(self).event_index() - 1) as usize
                    } else {
                        old(self).event_index()
                    }
                },
                Err(e) => e == ServerError::PacketNotFromConnectedClient && *final(self) == *old(self)
                    && forall|i: int| 0 <= i < old(self).clients().len() ==> #[trigger] old(self).clients()[i].client_id != client_id,
            },
    {
        match self.find_id(client_id) {
            Some(index) => {
                let ghost before = self.connections@;
                self.connections.remove(index);
                if index > self.client_event_index {
                    self.client_event_index = self.client_event_index - 1;
                }
                proof {
                    assert forall|i: int, j: int| 0 <= i < j < self.clients().len() implies {
                        &&& (#[trigger] self.clients()[i]).client_id != (#[trigger] self.clients()[j]).client_id
                        &&& self.clients()[i].client_addr != self.clients()[j].client_addr
                    } by {
                        let ii = if i < index { i } else { i + 1 };
                        let jj = if j < index { j } else { j + 1 };
                        assert(self.clients()[i] == before[ii]);
                        assert(self.clients()[j] == before[jj]);
                    }
                }
                Ok(())
            },
            None => Err(ServerError::PacketNotFromConnectedClient),
        }
    }

    /// Records a successful send at `now` to the client with id `id`, if it is connected.
    pub fn sent(&mut self, client_id: ClientId, now: u64)
        requires
            old(self).wf(),
        ensures
            final(self).wf(),
            final(self).listen() == old(self).listen(),
            final(self).event_index() == old(self).event_index(),
            final(self).clients().len() == old(self).clients().len(),
            forall|i: int| 0 <= i < old(self).clients().len() ==> #[trigger] final(self).clients()[i] == if old(self).clients()[i].client_id == client_id {
                ClientConnection {
                    client_id,
                    client_addr: old(self).clients()[i].client_addr,
                    heartbeat: old(self).clients()[i].heartbeat.with_sent(now),
                }
            } else {
                old(self).clients()[i]
            },
    {
        if let Some(i) = self.find_id(client_id) {
            let conn = self.connections[i];
            let mut heartbeat = conn.heartbeat;
            heartbeat.update_sent(now);
            self.connections.set(i, ClientConnection { client_id, client_addr: conn.client_addr, heartbeat });
            proof {
                assert forall|k: int| 0 <= k < old(self).clients().len() && k != i implies old(self).clients()[k].client_id != client_id by {
                    if k < i {
                        assert(old(self).clients()[k].client_id != old(self).clients()[i as int].client_id);
                    } else {
                        assert(old(self).clients()[i as int].client_id != old(self).clients()[k].client_id);
                    }
                }
            }
        }
    }

    /// What handling message `m` from `addr` at `now` does (see `handle_message`).
    pub open spec fn message_handled(before: Server, after: Server, addr: PeerAddr, m: Message, now: u64, r: Result<ServerReply, ServerError>) -> bool {
            match m.payload {
                MessagePayload::ConnectionRequest(id) => if exists|i: int| 0 <= i < before.clients().len()
                    && (#[trigger] before.clients()[i].client_addr == addr || before.clients()[i].client_id == id) {
                    &&& after.clients() == before.clients()
                    &&& r matches Ok(ServerReply::Reject { client_id, addr: to, message }) && client_id == id && to == addr
                        && is_message_of(message, MessagePayload::ConnectionReject(ConnectionRejectReason::AlreadyConnected))
                } else {
                    &&& after.clients() == before.clients().push(
                        ClientConnection { client_id: id, client_addr: addr, heartbeat: ConnectionHeartbeat::new_spec(now) },
                    )
                    &&& r matches Ok(ServerReply::Accept { client_id, addr: to, message }) && client_id == id && to == addr
                        && is_message_of(message, MessagePayload::ConnectionAccept)
                },
                MessagePayload::DisconnectNotice(id) => {
                    &&& after.clients() == before.clients()
                    &&& match position_of_addr(before.clients(), addr) {
                        None => r == Err::<ServerReply, ServerError>(ServerError::PacketNotFromConnectedClient),
                        Some(i) => if before.clients()[i].client_id == id {
                            r matches Ok(ServerReply::Disconnect { client_id, addr: to, message }) && client_id == id && to == addr
                                && is_message_of(message, MessagePayload::DisconnectNotice(id))
                        } else {
                            r matches Ok(ServerReply::Ignore)
                        },
                    }
                },
                MessagePayload::Heartbeat => match position_of_addr(before.clients(), addr) {
                    None => r == Err::<ServerReply, ServerError>(ServerError::PacketNotFromConnectedClient)
                        && after.clients() == before.clients(),
                    Some(i) => {
                        let c = before.clients()[i];
                        &&& after.clients() == before.clients().update(
                            i,
                            ClientConnection { client_id: c.client_id, client_addr: c.client_addr, heartbeat: c.heartbeat.with_recv(now) },
                        )
                        &&& r matches Ok(ServerReply::Event(ServerEvent::ClientHeartbeat(id))) && id == c.client_id
                    },
                },
                MessagePayload::Data(p) => {
                    &&& after.clients() == before.clients()
                    &&& match position_of_addr(before.clients(), addr) {
                        None => r == Err::<ServerReply, ServerError>(ServerError::PacketNotFromConnectedClient),
                        Some(i) => r matches Ok(ServerReply::Event(ServerEvent::Data(id, q))) && id == before.clients()[i].client_id && q == p,
                    }
                },
                _ => after.clients() == before.clients() && r matches Ok(ServerReply::Ignore),
            }
    }

    /// A heartbeat from a client's address is a receipt at `now` for that client and no other,
    /// reported with its id; a heartbeat, data or disconnect notice from an address no client
    /// has is refused and changes no client.
    pub proof fn lemma_heartbeat_is_receipt(
        before: Server,
        after: Server,
        addr: PeerAddr,
        m: Message,
        now: u64,
        r: Result<ServerReply, ServerError>,
    )
        requires
            before.wf(),
            Server::message_handled(before, after, addr, m, now, r),
        ensures
            forall|i: int| 0 <= i < before.clients().len() && (#[trigger] before.clients()[i]).client_addr == addr
                && m.payload is Heartbeat ==> {
                &&& after.clients().len() == before.clients().len()
                &&& after.clients()[i].client_id == before.clients()[i].client_id
                &&& after.clients()[i].client_addr == addr
                &&& after.clients()[i].heartbeat.received_at() == now
                &&& after.clients()[i].heartbeat.sent_at() == before.clients()[i].heartbeat.sent_at()
                &&& forall|j: int| 0 <= j < before.clients().len() && j != i
                    ==> #[trigger] after.clients()[j] == before.clients()[j]
                &&& r == Ok::<ServerReply, ServerError>(ServerReply::Event(ServerEvent::ClientHeartbeat(before.clients()[i].client_id)))
            },
            (forall|i: int| 0 <= i < before.clients().len() ==> (#[trigger] before.clients()[i]).client_addr != addr)
                && (m.payload is Heartbeat || m.payload is Data || m.payload is DisconnectNotice)
                ==> after.clients() == before.clients()
                && r == Err::<ServerReply, ServerError>(ServerError::PacketNotFromConnectedClient),
    {
        before.lemma_unique_addr();
        if let Some(i) = position_of_addr(before.clients(), addr) {
            crate::net::connection::lemma_receipt(before.clients()[i].heartbeat, now);
        }
    }

    /// Handles a message from `addr` received at `now`. A connection request from an address
    /// or an id already connected is refused; any other is accepted and the client added. A
    /// disconnect notice, heartbeat or data from an address that is not a client's is an
    /// error; a notice that names the sender's own id disconnects it, a heartbeat counts as a
    /// receipt, and data is reported. Other messages are ignored.
    pub fn handle_message(&mut self, addr: PeerAddr, m: Message, now: u64) -> (r: Result<ServerReply, ServerError>)
        requires
            old(self).wf(),
        ensures
            final(self).wf(),
            final(self).listen() == old(self).listen(),
            final(self).event_index() == old(self).event_index(),
            Server::message_handled(*old(self), *final(self), addr, m, now, r),
            // A heartbeat from a client's address is a receipt at `now` for that client alone.
            forall|i: int| 0 <= i < old(self).clients().len() && (#[trigger] old(self).clients()[i]).client_addr == addr
                && m.payload is Heartbeat ==> {
                &&& final(self).clients().len() == old(self).clients().len()
                &&& final(self).clients()[i].client_id == old(self).clients()[i].client_id
                &&& final(self).clients()[i].client_addr == addr
                &&& final(self).clients()[i].heartbeat.received_at() == now
                &&& final(self).clients()[i].heartbeat.sent_at() == old(self).clients()[i].heartbeat.sent_at()
                &&& forall|j: int| 0 <= j < old(self).clients().len() && j != i
                    ==> #[trigger] final(self).clients()[j] == old(self).clients()[j]
                &&& r == Ok::<ServerReply, ServerError>(ServerReply::Event(ServerEvent::ClientHeartbeat(old(self).clients()[i].client_id)))
            },
            // Data from a client's address is reported with the client's id.
            forall|i: int| 0 <= i < old(self).clients().len() && (#[trigger] old(self).clients()[i]).client_addr == addr
                && m.payload is Data ==> final(self).clients() == old(self).clients()
                && r == Ok::<ServerReply, ServerError>(ServerReply::Event(ServerEvent::Data(old(self).clients()[i].client_id, m.payload->Data_0))),
            // A heartbeat, data or disconnect notice from an address no client has is refused.
            (forall|i: int| 0 <= i < old(self).clients().len() ==> (#[trigger] old(self).clients()[i]).client_addr != addr)
                && (m.payload is Heartbeat || m.payload is Data || m.payload is DisconnectNotice)
                ==> final(self).clients() == old(self).clients()
                && r == Err::<ServerReply, ServerError>(ServerError::PacketNotFromConnectedClient),
            // A request from a new address with a new id adds the client, received and sent at `now`.
            (forall|i: int| 0 <= i < old(self).clients().len() ==> (#[trigger] old(self).clients()[i]).client_addr != addr
                && old(self).clients()[i].client_id != m.payload->ConnectionRequest_0)
                && m.payload is ConnectionRequest
                ==> final(self).clients().len() == old(self).clients().len() + 1
                && final(self).clients().take(old(self).clients().len() as int) == old(self).clients()
                && final(self).clients().last().client_id == m.payload->ConnectionRequest_0
                && final(self).clients().last().client_addr == addr
                && final(self).clients().last().heartbeat.received_at() == now
                && final(self).clients().last().heartbeat.sent_at() == now
                && (r matches Ok(ServerReply::Accept { client_id, addr: to, .. }) && client_id == m.payload->ConnectionRequest_0 && to == addr),
            // A request from an address or with an id already connected is refused.
            (exists|i: int| 0 <= i < old(self).clients().len() && ((#[trigger] old(self).clients()[i]).client_addr == addr
                || old(self).clients()[i].client_id == m.payload->ConnectionRequest_0))
                && m.payload is ConnectionRequest
                ==> final(self).clients() == old(self).clients()
                && (r matches Ok(ServerReply::Reject { client_id, addr: to, .. }) && client_id == m.payload->ConnectionRequest_0 && to == addr),
            // A notice naming another id than its sender's is ignored.
            forall|i: int| 0 <= i < old(self).clients().len() && (#[trigger] old(self).clients()[i]).client_addr == addr
                && m.payload is DisconnectNotice && m.payload->DisconnectNotice_0 != old(self).clients()[i].client_id
                ==> final(self).clients() == old(self).clients() && r matches Ok(ServerReply::Ignore),
            // Other messages are ignored.
            !(m.payload is ConnectionRequest) && !(m.payload is DisconnectNotice) && !(m.payload is Heartbeat)
                && !(m.payload is Data) ==> final(self).clients() == old(self).clients() && r matches Ok(ServerReply::Ignore),
            // A notice naming its sender's own id disconnects that client.
            forall|i: int| 0 <= i < old(self).clients().len() && (#[trigger] old(self).clients()[i]).client_addr == addr
                && m.payload == MessagePayload::DisconnectNotice(old(self).clients()[i].client_id)
                ==> final(self).clients() == old(self).clients()
                && (r matches Ok(ServerReply::Disconnect { client_id, addr: to, .. }) && client_id == old(self).clients()[i].client_id && to == addr),
    {
        proof {
            self.lemma_unique_addr();
            crate::net::connection::lemma_receipt(ConnectionHeartbeat::new_spec(now), now);
            if m.payload is Heartbeat {
                if let Some(i) = position_of_addr(old(self).clients(), addr) {
                    crate::net::connection::lemma_receipt(old(self).clients()[i].heartbeat, now);
                }
            }
        }
        match m.payload {
            MessagePayload::ConnectionRequest(client_id) => {
                let mut i: usize = 0;
                while i < self.connections.len()
                    invariant
                        *self == *old(self),
                        old(self).wf(),
                        self.wf(),
                        self.listen() == old(self).listen(),
                        self.event_index() == old(self).event_index(),
                        self.clients() == old(self).clients(),
                        m.payload == MessagePayload::ConnectionRequest(client_id),
                        i <= self.connections@.len(),
                        forall|k: int| 0 <= k < i ==> #[trigger] self.connections@[k].client_addr != addr
                            && self.connections@[k].client_id != client_id,
                    decreases self.connections@.len() - i,
                {
                    if self.connections[i].client_addr == addr || self.connections[i].client_id == client_id {
                        proof {
                            assert(old(self).clients()[i as int].client_addr == addr || old(self).clients()[i as int].client_id == client_id);
                        }
                        return Ok(ServerReply::Reject {
                            client_id,
                            addr,
                            message: ConnectionReject::build_message(ConnectionRejectReason::AlreadyConnected),
                        });
                    }
                    i = i + 1;
                }
                let ghost before = self.connections@;
                self.connections.push(ClientConnection { client_id, client_addr: addr, heartbeat: ConnectionHeartbeat::new(now) });
                proof {
                    assert forall|a: int, c: int| 0 <= a < c < self.clients().len() implies {
                        &&& (#[trigger] self.clients()[a]).client_id != (#[trigger] self.clients()[c]).client_id
                        &&& self.clients()[a].client_addr != self.clients()[c].client_addr
                    } by {
                        if c == before.len() {
                            assert(self.clients()[a] == before[a]);
                        } else {
                            assert(self.clients()[a] == before[a]);
                            assert(self.clients()[c] == before[c]);
                        }
                    }
                }
                Ok(ServerReply::Accept { client_id, addr, message: ConnectionAccept::build_message() })
            },
            MessagePayload::DisconnectNotice(client_id) => {
                match self.find_addr(addr) {
                    None => Err(ServerError::PacketNotFromConnectedClient),
                    Some(i) => {
                        if self.connections[i].client_id == client_id {
                            Ok(ServerReply::Disconnect { client_id, addr, message: DisconnectNotice::build_message(client_id) })
                        } else {
                            Ok(ServerReply::Ignore)
                        }
                    },
                }
            },
            MessagePayload::Heartbeat => {
                match self.find_addr(addr) {
                    None => Err(ServerError::PacketNotFromConnectedClient),
                    Some(i) => {
                        let conn = self.connections[i];
                        let mut heartbeat = conn.heartbeat;
                        heartbeat.update_recv(now);
                        self.connections.set(i, ClientConnection { client_id: conn.client_id, client_addr: conn.client_addr, heartbeat });
                        Ok(ServerReply::Event(ServerEvent::ClientHeartbeat(conn.client_id)))
                    },
                }
            },
            MessagePayload::Data(p) => {
                match self.find_addr(addr) {
                    None => Err(ServerError::PacketNotFromConnectedClient),
                    Some(i) => Ok(ServerReply::Event(ServerEvent::Data(self.connections[i].client_id, p))),
                }
            },
            _ => Ok(ServerReply::Ignore),
        }
    }

    /// Each address names at most one client, found by `position_of_addr`.
    proof fn lemma_unique_addr(&self)
        requires
            self.wf(),
        ensures
            forall|i: int| 0 <= i < self.clients().len() ==> position_of_addr(self.clients(), #[trigger] self.clients()[i].client_addr) == Some(i),
            forall|a: PeerAddr| position_of_addr(self.clients(), a) is None <==> forall|i: int| 0 <= i < self.clients().len() ==> #[trigger] self.clients()[i].client_addr != a,
    {
        let cs = self.clients();
        assert forall|i: int| 0 <= i < cs.len() implies position_of_addr(cs, #[trigger] cs[i].client_addr) == Some(i) by {
            let j = choose|j: int| 0 <= j < cs.len() && cs[j].client_addr == cs[i].client_addr;
            if j < i {
                assert(cs[j].client_addr != cs[i].client_addr);
            } else if i < j {
                assert(cs[i].client_addr != cs[j].client_addr);
            }
        }
    }

    /// Handles a packet from `addr` received at `now`: a packet that does not read as a message
    /// is refused with the read's error and changes nothing; otherwise as `handle_message`.
    pub fn handle_packet(&mut self, addr: PeerAddr, data: &[u8], now: u64) -> (r: Result<ServerReply, NetError>)
        requires
            old(self).wf(),
        ensures
            final(self).wf(),
            final(self).listen() == old(self).listen(),
            final(self).event_index() == old(self).event_index(),
            match decode_message(words_bits(bytes_to_words_spec(data@))) {
                Err(e) => r matches Err(NetError::SerializationError(f)) && f == e && final(self).clients() == old(self).clients(),
                Ok(view) => exists|m: Message| #[trigger] m.view() == view && m.zero_padded() && Server::message_handled(
                    *old(self),
                    *final(self),
                    addr,
                    m,
                    now,
                    match r {
                        Ok(x) => Ok(x),
                        Err(NetError::ServerError(e)) => Err(e),
                        Err(_) => Err(ServerError::ClientNotConnected),
                    },
                ) && !(r matches Err(NetError::SerializationError(_))),
            },
    {
        let m = match Message::parse(data) {
            Ok(m) => m,
            Err(e) => {
                return Err(NetError::SerializationError(e));
            },
        };
        match self.handle_message(addr, m, now) {
            Ok(reply) => Ok(reply),
            Err(e) => Err(NetError::ServerError(e)),
        }
    }

    /// What the clock asks at `now`. The server looks at one client: the one at its event
    /// index, which goes back to the first client once past the end. That client times out
    /// after `NET_TIMEOUT_INTERVAL` without a packet, and gets a heartbeat `NET_RETRY_INTERVAL`
    /// after the last send to it.
    pub fn tick(&mut self, now: u64) -> (r: ServerTick)
        requires
            old(self).wf(),
        ensures
            final(self).wf(),
            final(self).listen() == old(self).listen(),
            final(self).clients() == old(self).clients(),
            if old(self).clients().len() == 0 {
                r matches ServerTick::Idle && final(self).event_index() == old(self).event_index()
            } else {
                let i = if old(self).event_index() >= old(self).clients().len() { 0 } else { old(self).event_index() as int };
                let c = old(self).clients()[i];
                &&& final(self).event_index() == i
                &&& if elapsed(c.heartbeat.received_at(), now) >= NET_TIMEOUT_INTERVAL {
                    r matches ServerTick::TimedOut { client_id, addr, message } && client_id == c.client_id
                        && addr == c.client_addr && is_message_of(message, MessagePayload::DisconnectNotice(c.client_id))
                } else if elapsed(c.heartbeat.sent_at(), now) >= NET_RETRY_INTERVAL {
                    r matches ServerTick::Heartbeat { client_id, addr, message } && client_id == c.client_id
                        && addr == c.client_addr && is_message_of(message, MessagePayload::Heartbeat)
                } else {
                    r matches ServerTick::Idle
                }
            },
    {
        let len = self.connections.len();
        if len == 0 {
            return ServerTick::Idle;
        }
        if self.client_event_index >= len {
            self.client_event_index = 0;
        }
        let conn = self.connections[self.client_event_index];
        if conn.heartbeat.has_timed_out(now, NET_TIMEOUT_INTERVAL) {
            ServerTick::TimedOut {
                client_id: conn.client_id,
                addr: conn.client_addr,
                message: DisconnectNotice::build_message(conn.client_id),
            }
        } else if conn.heartbeat.should_retry_send(now, NET_RETRY_INTERVAL) {
            ServerTick::Heartbeat { client_id: conn.client_id, addr: conn.client_addr, message: Heartbeat::build_message() }
        } else {
            ServerTick::Idle
        }
    }

    /// The data message for the client with id `client_id`, and where to send it. Refused for
    /// an unknown id, or where the data cannot be made a message.
    pub fn send<S: Serialize>(&self, client_id: ClientId, data: S) -> (r: Result<(Message, PeerAddr), NetError>)
        ensures
            match r {
                Ok((m, to)) => exists|i: int| 0 <= i < self.clients().len() && #[trigger] self.clients()[i].client_id == client_id
                    && to == self.clients()[i].client_addr && data_message_built(data, Ok(m)),
                Err(NetError::ServerError(e)) => e == ServerError::ClientNotConnected
                    && forall|i: int| 0 <= i < self.clients().len() ==> #[trigger] self.clients()[i].client_id != client_id,
                Err(NetError::SerializationError(e)) => (exists|i: int| 0 <= i < self.clients().len()
                    && #[trigger] self.clients()[i].client_id == client_id) && data_message_built(data, Err(e)),
                Err(_) => false,
            },
    {
        let i = match self.find_id(client_id) {
            Some(i) => i,
            None => {
                return Err(NetError::ServerError(ServerError::ClientNotConnected));
            },
        };
        match Data::build_message(data) {
            Ok(m) => Ok((m, self.connections[i].client_addr)),
            Err(e) => Err(NetError::SerializationError(e)),
        }
    }

    /// The data message for every client, and their addresses in order. Refused where the data
    /// cannot be made a message.
    pub fn broadcast<S: Serialize>(&self, data: S) -> (r: Result<(Message, Vec<PeerAddr>), NetError>)
        ensures
            match r {
                Ok((m, to)) => data_message_built(data, Ok(m)) && to@ == self.clients().map_values(|c: ClientConnection| c.client_addr),
                Err(NetError::SerializationError(e)) => data_message_built(data, Err(e)),
                Err(_) => false,
            },
    {
        let m = match Data::build_message(data) {
            Ok(m) => m,
            Err(e) => {
                return Err(NetError::SerializationError(e));
            },
        };
        let mut to: Vec<PeerAddr> = Vec::new();
        let mut i: usize = 0;
        while i < self.connections.len()
            invariant
                i <= self.connections@.len(),
                to@ == self.clients().take(i as int).map_values(|c: ClientConnection| c.client_addr),
            decreases self.connections@.len() - i,
        {
            to.push(self.connections[i].client_addr);
            i = i + 1;
            proof {
                assert(to@ =~= self.clients().take(i as int).map_values(|c: ClientConnection| c.client_addr));
            }
        }
        proof {
            assert(self.clients().take(i as int) =~= self.clients());
        }
        Ok((m, to))
    }

    /// Drops every client, and gives the notice to send to each, in order.
    pub fn disconnect_all(&mut self) -> (r: Vec<(Message, PeerAddr)>)
        requires
            old(self).wf(),
        ensures
            final(self).wf(),
            final(self).listen() == old(self).listen(),
            final(self).event_index() == old(self).event_index(),
            final(self).clients() == Seq::<ClientConnection>::empty(),
            r@.len() == old(self).clients().len(),
            forall|i: int| 0 <= i < r@.len() ==> (#[trigger] r@[i]).1 == old(self).clients()[i].client_addr
                && is_message_of(r@[i].0, MessagePayload::DisconnectNotice(old(self).clients()[i].client_id)),
    {
        let mut out: Vec<(Message, PeerAddr)> = Vec::new();
        let mut i: usize = 0;
        while i < self.connections.len()
            invariant
                i <= self.connections@.len(),
                out@.len() == i,
                forall|k: int| 0 <= k < i ==> (#[trigger] out@[k]).1 == self.connections@[k].client_addr
                    && is_message_of(out@[k].0, MessagePayload::DisconnectNotice(self.connections@[k].client_id)),
            decreases self.connections@.len() - i,
        {
            let c = self.connections[i];
            out.push((DisconnectNotice::build_message(c.client_id), c.client_addr));
            i = i + 1;
        }
        self.connections = Vec::new();
        out
    }
}

} // verus!
