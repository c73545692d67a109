//! The client's side of the protocol: connecting, heartbeats, time-outs and data.
//!
//! The client decides; its caller owns the socket and the clock. A call that yields a message
//! leaves the sending to the caller, which reports a successful send back where the
//! connection's heartbeat records it.

use vstd::prelude::*;
use crate::network::messages::{
    ClientId, ConnectionRejectReason, DataPayload, Message, MessagePayload, ConnectionRequest,
    DisconnectNotice, Heartbeat, Data, decode_message, is_message_of, data_message_built,
};
use crate::network::serialization::{SerializationError, Serialize};
use crate::bits::words_bits;
use crate::network::serialization::bytes_to_words_spec;
use crate::net::connection::{
    ClientError, ConnectionHeartbeat, NetError, PeerAddr, elapsed, NET_CONNECT_RETRY_INTERVAL,
    NET_CONNECT_TIMEOUT_INTERVAL, NET_RETRY_INTERVAL, NET_TIMEOUT_INTERVAL,
};

verus! {

/// What a client reports.
#[derive(Copy, Clone, Debug)]
pub enum ClientEvent {
    ServerHeartbeat,
    ServerConnectionAccept,
    ServerConnectionReject(ConnectionRejectReason),
    ServerTimedOut,
    DisconnectedByServer,
    SentHeartbeat,
    SentConnectionRetry,
    Data(DataPayload),
}

/// The server a client talks to.
#[derive(Copy, Clone, Debug, PartialEq, Eq, Structural)]
pub struct ServerConnection {
    pub server_addr: PeerAddr,
    pub heartbeat: ConnectionHeartbeat,
}

impl ServerConnection {
    pub fn server_addr(&self) -> (r: PeerAddr)
        ensures
            r == self.server_addr,
    {
        self.server_addr
    }

    pub fn heartbeat(&self) -> (r: &ConnectionHeartbeat)
        ensures
            *r == self.heartbeat,
    {
        &self.heartbeat
    }
}

/// How far a connection attempt has gone.
#[derive(Copy, Clone, Debug, PartialEq, Eq, Structural)]
pub enum ConnectStep {
    SentRequest,
    SentChallengeResponse,
}

/// Whether and how a client is connected.
#[derive(Copy, Clone, Debug, PartialEq, Eq, Structural)]
pub enum ClientState {
    NotConnected,
    Connecting(ServerConnection, ConnectStep),
    Connected(ServerConnection),
}

/// What a client's clock asks of it.
#[derive(Copy, Clone, Debug)]
pub enum ClientTick {
    /// Nothing to do.
    Idle,
    /// The server has not answered in time: the client gives up.
    TimedOut,
    /// Send the connection request again, then report `connection_request_resent`.
    RetryConnect(Message),
    /// Send a heartbeat, then report `sent`.
    Heartbeat(Message),
}

/// A client: its id, its own address and its state.
pub struct Client {
    id: ClientId,
    addr: PeerAddr,
    state: ClientState,
}

impl Client {
    pub closed spec fn client_id(&self) -> ClientId {
        self.id
    }

    pub closed spec fn own_addr(&self) -> PeerAddr {
        self.addr
    }

    pub closed spec fn current(&self) -> ClientState {
        self.state
    }

    /// The client's invariant: a connection attempt never reaches the challenge step, which
    /// nothing in the protocol sets.
    pub open spec fn wf(&self) -> bool {
        !(self.current() matches ClientState::Connecting(_, ConnectStep::SentChallengeResponse))
    }

    /// A client with id `id` on address `addr`, not connected.
    pub fn new(id: ClientId, addr: PeerAddr) -> (r: Self)
        ensures
            r.wf(),
            r.client_id() == id,
            r.own_addr() == addr,
            r.current() == ClientState::NotConnected,
    {
        Client { id, addr, state: ClientState::NotConnected }
    }

    pub fn id(&self) -> (r: ClientId)
        ensures
            r == self.client_id(),
    {
        self.id
    }

    pub fn addr(&self) -> (r: PeerAddr)
        ensures
            r == self.own_addr(),
    {
        self.addr
    }

    pub fn state(&self) -> (r: &ClientState)
        ensures
            *r == self.current(),
    {
        &self.state
    }

    /// The connection request to send to start connecting; refused while connected.
    pub fn connect_request(&self) -> (r: Result<Message, ClientError>)
        ensures
            match r {
                Ok(m) => !(self.current() is Connected) && is_message_of(m, MessagePayload::ConnectionRequest(self.client_id())),
                Err(e) => self.current() is Connected && e == ClientError::ClientAlreadyConnected,
            },
    {
        if let ClientState::Connected(_) = self.state {
            return Err(ClientError::ClientAlreadyConnected);
        }
        Ok(ConnectionRequest::build_message(self.id))
    }

    /// Records that the connection request went to `server_addr` at `now`: the client is
    /// connecting.
    pub fn connect_sent(&mut self, server_addr: PeerAddr, now: u64)
        ensures
            final(self).wf(),
            final(self).client_id() == old(self).client_id(),
            final(self).own_addr() == old(self).own_addr(),
            final(self).current() == ClientState::Connecting(
                ServerConnection { server_addr, heartbeat: ConnectionHeartbeat::new_spec(now) },
                ConnectStep::SentRequest,
            ),
    {
        let heartbeat = ConnectionHeartbeat::new(now);
        self.state = ClientState::Connecting(ServerConnection { server_addr, heartbeat }, ConnectStep::SentRequest);
    }

    /// Leaves the server: the client is not connected any more, and gives the notice to send
    /// to the server. Refused when not connected.
    pub fn disconnect(&mut self) -> (r: Result<(Message, PeerAddr), ClientError>)
        ensures
            final(self).wf(),
            final(self).client_id() == old(self).client_id(),
            final(self).own_addr() == old(self).own_addr(),
            final(self).current() == ClientState::NotConnected,
            match r {
                Ok((m, to)) => {
                    &&& is_message_of(m, MessagePayload::DisconnectNotice(old(self).client_id()))
                    &&& match old(self).current() {
                        ClientState::Connecting(conn, _) => to == conn.server_addr,
                        ClientState::Connected(conn) => to == conn.server_addr,
                        ClientState::NotConnected => false,
                    }
                },
                Err(e) => old(self).current() is NotConnected && e == ClientError::ClientNotConnected,
            },
    {
        let state = self.state;
        self.state = ClientState::NotConnected;
        let conn = match state {
            ClientState::Connecting(conn, _) => conn,
            ClientState::Connected(conn) => conn,
            ClientState::NotConnected => {
                return Err(ClientError::ClientNotConnected);
            },
        };
        Ok((DisconnectNotice::build_message(self.id), conn.server_addr))
    }

    /// The data message to send to the server, and where. Refused when not connected, or where
    /// the data cannot be made a message.
    pub fn send<S: Serialize>(&self, data: S) -> (r: Result<(Message, PeerAddr), NetError>)
        ensures
            match self.current() {
                ClientState::Connected(conn) => match r {
                    Ok((m, to)) => to == conn.server_addr && data_message_built(data, Ok(m)),
                    Err(NetError::SerializationError(e)) => data_message_built(data, Err(e)),
                    Err(_) => false,
                },
                _ => r matches Err(NetError::ClientError(ClientError::ClientNotConnected)),
            },
    {
        let conn = match self.state {
            ClientState::Connected(conn) => conn,
            _ => {
                return Err(NetError::ClientError(ClientError::ClientNotConnected));
            },
        };
        match Data::build_message(data) {
            Ok(m) => Ok((m, conn.server_addr)),
            Err(e) => Err(NetError::SerializationError(e)),
        }
    }

    /// Records a successful send at `now` in the connection's heartbeat.
    pub fn sent(&mut self, now: u64)
        ensures
            final(self).wf() == old(self).wf(),
            final(self).client_id() == old(self).client_id(),
            final(self).own_addr() == old(self).own_addr(),
            final(self).current() == match old(self).current() {
                ClientState::Connecting(conn, step) => ClientState::Connecting(
                    ServerConnection { server_addr: conn.server_addr, heartbeat: conn.heartbeat.with_sent(now) },
                    step,
                ),
                ClientState::Connected(conn) => ClientState::Connected(
                    ServerConnection { server_addr: conn.server_addr, heartbeat: conn.heartbeat.with_sent(now) },
                ),
                ClientState::NotConnected => ClientState::NotConnected,
            },
    {
        match self.state {
            ClientState::Connecting(conn, step) => {
                let mut heartbeat = conn.heartbeat;
                heartbeat.update_sent(now);
                self.state = ClientState::Connecting(ServerConnection { server_addr: conn.server_addr, heartbeat }, step);
            },
            ClientState::Connected(conn) => {
                let mut heartbeat = conn.heartbeat;
                heartbeat.update_sent(now);
                self.state = ClientState::Connected(ServerConnection { server_addr: conn.server_addr, heartbeat });
            },
            ClientState::NotConnected => {},
        }
    }

    /// What the clock asks at `now`: a connecting client gives up after
    /// `NET_CONNECT_TIMEOUT_INTERVAL` without an answer and asks again after
    /// `NET_CONNECT_RETRY_INTERVAL`; a connected client gives up after `NET_TIMEOUT_INTERVAL`
    /// without a packet and sends a heartbeat `NET_RETRY_INTERVAL` after its last send.
    pub fn tick(&self, now: u64) -> (r: Result<ClientTick, ClientError>)
        ensures
            match self.current() {
                ClientState::NotConnected => r == Err::<ClientTick, ClientError>(ClientError::ClientNotConnected),
                ClientState::Connecting(conn, _) => match r {
                    Ok(ClientTick::TimedOut) => elapsed(conn.heartbeat.received_at(), now) >= NET_CONNECT_TIMEOUT_INTERVAL,
                    Ok(ClientTick::RetryConnect(m)) => elapsed(conn.heartbeat.received_at(), now) < NET_CONNECT_TIMEOUT_INTERVAL
                        && elapsed(conn.heartbeat.sent_at(), now) >= NET_CONNECT_RETRY_INTERVAL
                        && is_message_of(m, MessagePayload::ConnectionRequest(self.client_id())),
                    Ok(ClientTick::Idle) => elapsed(conn.heartbeat.received_at(), now) < NET_CONNECT_TIMEOUT_INTERVAL
                        && elapsed(conn.heartbeat.sent_at(), now) < NET_CONNECT_RETRY_INTERVAL,
                    _ => false,
                },
                ClientState::Connected(conn) => match r {
                    Ok(ClientTick::TimedOut) => elapsed(conn.heartbeat.received_at(), now) >= NET_TIMEOUT_INTERVAL,
                    Ok(ClientTick::Heartbeat(m)) => elapsed(conn.heartbeat.received_at(), now) < NET_TIMEOUT_INTERVAL
                        && elapsed(conn.heartbeat.sent_at(), now) >= NET_RETRY_INTERVAL
                        && is_message_of(m, MessagePayload::Heartbeat),
                    Ok(ClientTick::Idle) => elapsed(conn.heartbeat.received_at(), now) < NET_TIMEOUT_INTERVAL
                        && elapsed(conn.heartbeat.sent_at(), now) < NET_RETRY_INTERVAL,
                    _ => false,
                },
            },
    {
        match self.state {
            ClientState::NotConnected => Err(ClientError::ClientNotConnected),
            ClientState::Connecting(conn, _) => {
                if conn.heartbeat.has_timed_out(now, NET_CONNECT_TIMEOUT_INTERVAL) {
                    Ok(ClientTick::TimedOut)
                } else if conn.heartbeat.should_retry_send(now, NET_CONNECT_RETRY_INTERVAL) {
                    Ok(ClientTick::RetryConnect(ConnectionRequest::build_message(self.id)))
                } else {
                    Ok(ClientTick::Idle)
                }
            },
            ClientState::Connected(conn) => {
                if conn.heartbeat.has_timed_out(now, NET_TIMEOUT_INTERVAL) {
                    Ok(ClientTick::TimedOut)
                } else if conn.heartbeat.should_retry_send(now, NET_RETRY_INTERVAL) {
                    Ok(ClientTick::Heartbeat(Heartbeat::build_message()))
                } else {
                    Ok(ClientTick::Idle)
                }
            },
        }
    }

    /// The server timed out: the client is not connected.
    pub fn timed_out(&mut self)
        ensures
            final(self).wf(),
            final(self).client_id() == old(self).client_id(),
            final(self).own_addr() == old(self).own_addr(),
            final(self).current() == ClientState::NotConnected,
    {
        self.state = ClientState::NotConnected;
    }

    /// Records that the connection request went again at `now`: the attempt starts over from
    /// the request.
    pub fn connection_request_resent(&mut self, now: u64)
        ensures
            final(self).wf(),
            final(self).client_id() == old(self).client_id(),
            final(self).own_addr() == old(self).own_addr(),
            final(self).current() == match old(self).current() {
                ClientState::Connecting(conn, _) => ClientState::Connecting(
                    ServerConnection { server_addr: conn.server_addr, heartbeat: conn.heartbeat.with_sent(now) },
                    ConnectStep::SentRequest,
                ),
                s => s,
            },
    {
        if let ClientState::Connecting(conn, _) = self.state {
            let mut heartbeat = conn.heartbeat;
            heartbeat.update_sent(now);
            self.state = ClientState::Connecting(ServerConnection { server_addr: conn.server_addr, heartbeat }, ConnectStep::SentRequest);
        }
    }

    /// What a message from `addr` at `now` does to a connecting or connected client. While
    /// connecting, only the server's accept or reject counts, and the heartbeat is left alone;
    /// while connected, every packet from the server counts as a receipt.
    pub open spec fn after_message(&self, addr: PeerAddr, m: Message, now: u64) -> (ClientState, Result<Option<ClientEvent>, ClientError>) {
        match self.current() {
            ClientState::Connecting(conn, step) => if addr != conn.server_addr {
                (self.current(), Err(ClientError::PacketNotFromServer))
            } else {
                match m.payload {
                    MessagePayload::ConnectionAccept => (ClientState::Connected(conn), Ok(Some(ClientEvent::ServerConnectionAccept))),
                    MessagePayload::ConnectionReject(reason) => (ClientState::NotConnected, Ok(Some(ClientEvent::ServerConnectionReject(reason)))),
                    _ => (self.current(), Ok(None)),
                }
            },
            ClientState::Connected(conn) => if addr != conn.server_addr {
                (self.current(), Err(ClientError::PacketNotFromServer))
            } else {
                let received = ClientState::Connected(
                    ServerConnection { server_addr: conn.server_addr, heartbeat: conn.heartbeat.with_recv(now) },
                );
                match m.payload {
                    MessagePayload::Heartbeat => (received, Ok(Some(ClientEvent::ServerHeartbeat))),
                    MessagePayload::DisconnectNotice(id) => if id == self.client_id() {
                        (ClientState::NotConnected, Ok(Some(ClientEvent::DisconnectedByServer)))
                    } else {
                        (received, Ok(None))
                    },
                    MessagePayload::Data(p) => (received, Ok(Some(ClientEvent::Data(p)))),
                    _ => (received, Ok(None)),
                }
            },
            ClientState::NotConnected => (self.current(), Err(ClientError::ClientNotConnected)),
        }
    }

    /// How a client answers its server: while connecting, the server's accept connects it and
    /// its reject ends the attempt with the reason; while connected, the server's disconnect
    /// notice naming the client disconnects it, and any other packet from the server is a
    /// receipt at `now`; a packet from any other address is refused and changes nothing.
    pub proof fn lemma_server_answers(&self, addr: PeerAddr, m: Message, now: u64)
        ensures
            ({
                let (st, r) = self.after_message(addr, m, now);
                &&& self.current() is Connecting && addr == self.current()->Connecting_0.server_addr
                    && m.payload is ConnectionAccept
                    ==> st == ClientState::Connected(self.current()->Connecting_0)
                    && r == Ok::<Option<ClientEvent>, ClientError>(Some(ClientEvent::ServerConnectionAccept))
                &&& self.current() is Connecting && addr == self.current()->Connecting_0.server_addr
                    && m.payload is ConnectionReject
                    ==> st == ClientState::NotConnected && r == Ok::<Option<ClientEvent>, ClientError>(
                        Some(ClientEvent::ServerConnectionReject(m.payload->ConnectionReject_0)),
                    )
                &&& self.current() is Connected && addr == self.current()->Connected_0.server_addr
                    && m.payload == MessagePayload::DisconnectNotice(self.client_id())
                    ==> st == ClientState::NotConnected
                    && r == Ok::<Option<ClientEvent>, ClientError>(Some(ClientEvent::DisconnectedByServer))
                &&& self.current() is Connected && addr == self.current()->Connected_0.server_addr
                    && m.payload != MessagePayload::DisconnectNotice(self.client_id())
                    ==> st is Connected && st->Connected_0.server_addr == self.current()->Connected_0.server_addr
                    && st->Connected_0.heartbeat.received_at() == now
                    && st->Connected_0.heartbeat.sent_at() == self.current()->Connected_0.heartbeat.sent_at()
                &&& (self.current() is Connecting && addr != self.current()->Connecting_0.server_addr)
                    || (self.current() is Connected && addr != self.current()->Connected_0.server_addr)
                    ==> st == self.current() && r == Err::<Option<ClientEvent>, ClientError>(ClientError::PacketNotFromServer)
            }),
    {
        crate::net::connection::lemma_receipt(self.current()->Connected_0.heartbeat, now);
    }

    /// Handles a message from `addr` received at `now` (see `after_message`); `requires`
    /// asks that the client be connecting or connected.
    pub fn handle_message(&mut self, addr: PeerAddr, m: Message, now: u64) -> (r: Result<Option<ClientEvent>, ClientError>)
        requires
            old(self).wf(),
            !(old(self).current() is NotConnected),
        ensures
            final(self).wf(),
            final(self).client_id() == old(self).client_id(),
            final(self).own_addr() == old(self).own_addr(),
            (final(self).current(), r) == old(self).after_message(addr, m, now),
            // A connecting client: its server's accept connects it, its reject ends the attempt.
            old(self).current() is Connecting && addr == old(self).current()->Connecting_0.server_addr
                && m.payload is ConnectionAccept
                ==> final(self).current() == ClientState::Connected(old(self).current()->Connecting_0)
                && r == Ok::<Option<ClientEvent>, ClientError>(Some(ClientEvent::ServerConnectionAccept)),
            old(self).current() is Connecting && addr == old(self).current()->Connecting_0.server_addr
                && m.payload is ConnectionReject
                ==> final(self).current() == ClientState::NotConnected
                && r == Ok::<Option<ClientEvent>, ClientError>(
                    Some(ClientEvent::ServerConnectionReject(m.payload->ConnectionReject_0)),
                ),
            // A connected client: its server's notice naming it disconnects it.
            old(self).current() is Connected && addr == old(self).current()->Connected_0.server_addr
                && m.payload == MessagePayload::DisconnectNotice(old(self).client_id())
                ==> final(self).current() == ClientState::NotConnected
                && r == Ok::<Option<ClientEvent>, ClientError>(Some(ClientEvent::DisconnectedByServer)),
            // Anything else from its server is a receipt at `now`, and a heartbeat is reported.
            old(self).current() is Connected && addr == old(self).current()->Connected_0.server_addr
                && m.payload != MessagePayload::DisconnectNotice(old(self).client_id())
                ==> final(self).current() is Connected
                && final(self).current()->Connected_0.server_addr == old(self).current()->Connected_0.server_addr
                && final(self).current()->Connected_0.heartbeat.received_at() == now
                && final(self).current()->Connected_0.heartbeat.sent_at() == old(self).current()->Connected_0.heartbeat.sent_at(),
            old(self).current() is Connected && addr == old(self).current()->Connected_0.server_addr
                && m.payload is Heartbeat
                ==> r == Ok::<Option<ClientEvent>, ClientError>(Some(ClientEvent::ServerHeartbeat)),
            old(self).current() is Connected && addr == old(self).current()->Connected_0.server_addr
                && m.payload is Data
                ==> r == Ok::<Option<ClientEvent>, ClientError>(Some(ClientEvent::Data(m.payload->Data_0))),
            old(self).current() is Connected && addr == old(self).current()->Connected_0.server_addr
                && !(m.payload is Heartbeat) && !(m.payload is Data)
                && m.payload != MessagePayload::DisconnectNotice(old(self).client_id())
                ==> r == Ok::<Option<ClientEvent>, ClientError>(None),
            // While connecting, anything from the server but an accept or a reject is ignored.
            old(self).current() is Connecting && addr == old(self).current()->Connecting_0.server_addr
                && !(m.payload is ConnectionAccept) && !(m.payload is ConnectionReject)
                ==> final(self).current() == old(self).current() && r == Ok::<Option<ClientEvent>, ClientError>(None),
            // A packet from another address is refused and changes nothing.
            (old(self).current() is Connecting && addr != old(self).current()->Connecting_0.server_addr)
                || (old(self).current() is Connected && addr != old(self).current()->Connected_0.server_addr)
                ==> final(self).current() == old(self).current()
                && r == Err::<Option<ClientEvent>, ClientError>(ClientError::PacketNotFromServer),
    {
        match self.state {
            ClientState::Connecting(conn, _) => {
                if addr != conn.server_addr {
                    return Err(ClientError::PacketNotFromServer);
                }
                match m.payload {
                    MessagePayload::ConnectionAccept => {
                        self.state = ClientState::Connected(conn);
                        Ok(Some(ClientEvent::ServerConnectionAccept))
                    },
                    MessagePayload::ConnectionReject(reason) => {
                        self.state = ClientState::NotConnected;
                        Ok(Some(ClientEvent::ServerConnectionReject(reason)))
                    },
                    _ => Ok(None),
                }
            },
            ClientState::Connected(conn) => {
                if addr != conn.server_addr {
                    return Err(ClientError::PacketNotFromServer);
                }
                let mut heartbeat = conn.heartbeat;
                heartbeat.update_recv(now);
                self.state = ClientState::Connected(ServerConnection { server_addr: conn.server_addr, heartbeat });
                match m.payload {
                    MessagePayload::Heartbeat => Ok(Some(ClientEvent::ServerHeartbeat)),
                    MessagePayload::DisconnectNotice(id) => {
                        if id == self.id {
                            self.state = ClientState::NotConnected;
                            Ok(Some(ClientEvent::DisconnectedByServer))
                        } else {
                            Ok(None)
                        }
                    },
                    MessagePayload::Data(p) => Ok(Some(ClientEvent::Data(p))),
                    _ => Ok(None),
                }
            },
            ClientState::NotConnected => Err(ClientError::ClientNotConnected),
        }
    }

    /// Handles a packet from `addr` received at `now`: a packet that does not read as a message
    /// is refused with the read's error and changes nothing; otherwise as `handle_message`.
    pub fn handle_packet(&mut self, addr: PeerAddr, data: &[u8], now: u64) -> (r: Result<Option<ClientEvent>, NetError>)
        requires
            old(self).wf(),
            !(old(self).current() is NotConnected),
        ensures
            final(self).wf(),
            final(self).client_id() == old(self).client_id(),
            final(self).own_addr() == old(self).own_addr(),
            match decode_message(words_bits(bytes_to_words_spec(data@))) {
                Err(e) => r matches Err(NetError::SerializationError(f)) && f == e && final(self).current() == old(self).current(),
                Ok(view) => exists|m: Message| #[trigger] m.view() == view && m.zero_padded() && {
                    let (state, result) = old(self).after_message(addr, m, now);
                    &&& final(self).current() == state
                    &&& match result {
                        Ok(e) => r matches Ok(f) && f == e,
                        Err(e) => r matches Err(NetError::ClientError(f)) && f == e,
                    }
                },
            },
    {
        let m = match Message::parse(data) {
            Ok(m) => m,
            Err(e) => {
                return Err(NetError::SerializationError(e));
            },
        };
        match self.handle_message(addr, m, now) {
            Ok(e) => Ok(e),
            Err(e) => Err(NetError::ClientError(e)),
        }
    }
}

} // verus!
