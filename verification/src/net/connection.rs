//! What the client and the server share: peer addresses, connection heartbeats, timing
//! constants and errors.
//!
//! Times are microseconds on a clock that the caller reads; the library never reads a clock.

use vstd::prelude::*;
use crate::network::serialization::SerializationError;

verus! {

/// std's `io::Error`, carried opaquely in `NetError::IoError`.
#[verifier::external_type_specification]
#[verifier::external_body]
pub struct ExIoError(std::io::Error);

/// How long after a send a connected peer sends a heartbeat.
pub const NET_RETRY_INTERVAL: u64 = 100_000;

/// How long without a packet a connected peer waits before giving up.
pub const NET_TIMEOUT_INTERVAL: u64 = 1_000_000;

/// How long after a connection request a client sends it again.
pub const NET_CONNECT_RETRY_INTERVAL: u64 = 500_000;

/// How long a client waits for an answer to its connection request.
pub const NET_CONNECT_TIMEOUT_INTERVAL: u64 = 5_000_000;

/// A socket address: an IPv6 address (IPv4 addresses mapped into it, with `v4` set) and a port.
#[derive(Copy, Clone, Debug, PartialEq, Eq, Structural)]
pub struct PeerAddr {
    pub ip: u128,
    pub port: u16,
    pub v4: bool,
}

/// When a connection last sent and last received a packet.
#[derive(Copy, Clone, Debug, PartialEq, Eq, Structural)]
pub struct ConnectionHeartbeat {
    last_sent: u64,
    last_recv: u64,
}

/// The time from `then` to `now`, or zero for a `now` before `then`.
pub open spec fn elapsed(then: u64, now: u64) -> int {
    if now >= then {
        now - then
    } else {
        0
    }
}

/// A receipt at `now` sets the time of the last receipt to `now` and keeps that of the last
/// send; a send at `now` does the reverse.
pub proof fn lemma_receipt(h: ConnectionHeartbeat, now: u64)
    ensures
        h.with_recv(now).received_at() == now,
        h.with_recv(now).sent_at() == h.sent_at(),
        h.with_sent(now).sent_at() == now,
        h.with_sent(now).received_at() == h.received_at(),
        ConnectionHeartbeat::new_spec(now).sent_at() == now,
        ConnectionHeartbeat::new_spec(now).received_at() == now,
{
}

impl ConnectionHeartbeat {
    pub closed spec fn sent_at(&self) -> u64 {
        self.last_sent
    }

    pub closed spec fn received_at(&self) -> u64 {
        self.last_recv
    }

    /// The heartbeat of a connection made at `now`.
    pub closed spec fn new_spec(now: u64) -> Self {
        ConnectionHeartbeat { last_sent: now, last_recv: now }
    }

    /// This heartbeat after a send at `now`.
    pub closed spec fn with_sent(self, now: u64) -> Self {
        ConnectionHeartbeat { last_sent: now, last_recv: self.last_recv }
    }

    /// This heartbeat after a receipt at `now`.
    pub closed spec fn with_recv(self, now: u64) -> Self {
        ConnectionHeartbeat { last_sent: self.last_sent, last_recv: now }
    }

    /// A heartbeat that sent and received at `now`.
    pub fn new(now: u64) -> (r: Self)
        ensures
            r == Self::new_spec(now),
            r.sent_at() == now,
            r.received_at() == now,
    {
        ConnectionHeartbeat { last_sent: now, last_recv: now }
    }

    /// Records a send at `now`.
    pub fn update_sent(&mut self, now: u64)
        ensures
            *final(self) == old(self).with_sent(now),
            final(self).sent_at() == now,
            final(self).received_at() == old(self).received_at(),
    {
        self.last_sent = now;
    }

    /// Records a receipt at `now`.
    pub fn update_recv(&mut self, now: u64)
        ensures
            *final(self) == old(self).with_recv(now),
            final(self).received_at() == now,
            final(self).sent_at() == old(self).sent_at(),
    {
        self.last_recv = now;
    }

    /// Whether `interval` has passed since the last send.
    pub fn should_retry_send(&self, now: u64, interval: u64) -> (r: bool)
        ensures
            r == (elapsed(self.sent_at(), now) >= interval),
    {
        now.saturating_sub(self.last_sent) >= interval
    }

    /// Whether `interval` has passed since the last receipt.
    pub fn has_timed_out(&self, now: u64, interval: u64) -> (r: bool)
        ensures
            r == (elapsed(self.received_at(), now) >= interval),
    {
        now.saturating_sub(self.last_recv) >= interval
    }

    /// When the connection last sent.
    pub fn last_sent(&self) -> (r: u64)
        ensures
            r == self.sent_at(),
    {
        self.last_sent
    }

    /// When the connection last received.
    pub fn last_recv(&self) -> (r: u64)
        ensures
            r == self.received_at(),
    {
        self.last_recv
    }
}

/// The errors of a client.
#[derive(Copy, Clone, Debug, PartialEq, Eq, Structural)]
pub enum ClientError {
    ClientNotConnected,
    ClientAlreadyConnected,
    PacketNotFromServer,
}

/// The errors of a server.
#[derive(Copy, Clone, Debug, PartialEq, Eq, Structural)]
pub enum ServerError {
    PacketNotFromConnectedClient,
    ClientNotConnected,
}

/// The errors of the network layer.
#[derive(Debug)]
pub enum NetError {
    InvalidAddress,
    IoError(std::io::Error),
    SerializationError(SerializationError),
    ServerError(ServerError),
    ClientError(ClientError),
}

impl ClientError {
    /// The name of the error, as a `Display` would print it.
    pub fn to_string(&self) -> (r: String)
        ensures
            r@ == match *self {
                ClientError::ClientNotConnected => "ClientNotConnected"@,
                ClientError::ClientAlreadyConnected => "ClientAlreadyConnected"@,
                ClientError::PacketNotFromServer => "PacketNotFromServer"@,
            },
    {
        match self {
            ClientError::ClientNotConnected => "ClientNotConnected".to_string(),
            ClientError::ClientAlreadyConnected => "ClientAlreadyConnected".to_string(),
            ClientError::PacketNotFromServer => "PacketNotFromServer".to_string(),
        }
    }
}

impl ServerError {
    /// The name of the error, as a `Display` would print it.
    pub fn to_string(&self) -> (r: String)
        ensures
            r@ == match *self {
                ServerError::PacketNotFromConnectedClient => "PacketNotFromConnectedClient"@,
                ServerError::ClientNotConnected => "ClientNotConnected"@,
            },
    {
        match self {
            ServerError::PacketNotFromConnectedClient => "PacketNotFromConnectedClient".to_string(),
            ServerError::ClientNotConnected => "ClientNotConnected".to_string(),
        }
    }
}

} // verus!
