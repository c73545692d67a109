use engine::net::client::{Client, ClientEvent, ClientState, ClientTick, ConnectStep};
use engine::net::connection::{ClientError, ConnectionHeartbeat, NetError, PeerAddr, ServerError};
use engine::net::server::{Server, ServerEvent, ServerReply, ServerTick};
use engine::network::messages::{ConnectionRejectReason, Message, MessagePayload};

fn peer(port: u16) -> PeerAddr {
    PeerAddr { ip: 0x7f00_0001, port, v4: true }
}

fn packet(m: &Message) -> Vec<u8> {
    let (p, n) = m.create_packet().unwrap();
    p[..n].to_vec()
}

#[test]
fn heartbeat_times() {
    let mut h = ConnectionHeartbeat::new(10);
    assert!(!h.should_retry_send(50, 100));
    assert!(h.should_retry_send(110, 100));
    assert!(!h.has_timed_out(5, 1));
    h.update_recv(200);
    h.update_sent(150);
    assert_eq!(h.last_recv(), 200);
    assert_eq!(h.last_sent(), 150);
}

#[test]
fn client_server_normal_flow() {
    let server_addr = peer(42069);
    let client_addr = peer(5000);
    let mut server = Server::new(server_addr);
    let mut client = Client::new(1, client_addr);
    assert!(matches!(client.state(), ClientState::NotConnected));
    assert!(matches!(client.tick(0), Err(ClientError::ClientNotConnected)));

    // Connect.
    let request = client.connect_request().unwrap();
    client.connect_sent(server_addr, 0);
    match client.state() {
        ClientState::Connecting(conn, ConnectStep::SentRequest) => assert_eq!(conn.server_addr(), server_addr),
        _ => panic!("not connecting"),
    }
    let accept = match server.handle_packet(client_addr, &packet(&request), 10).unwrap() {
        ServerReply::Accept { client_id, addr, message } => {
            assert_eq!(client_id, 1);
            assert_eq!(addr, client_addr);
            message
        },
        _ => panic!("not accepted"),
    };
    server.sent(1, 10);
    assert_eq!(server.connections().len(), 1);
    match client.handle_packet(server_addr, &packet(&accept), 20).unwrap() {
        Some(ClientEvent::ServerConnectionAccept) => {},
        _ => panic!("no accept"),
    }
    assert!(matches!(client.state(), ClientState::Connected(_)));
    assert!(matches!(client.connect_request(), Err(ClientError::ClientAlreadyConnected)));

    // A second request from the same address is refused.
    match server.handle_packet(client_addr, &packet(&request), 30).unwrap() {
        ServerReply::Reject { client_id, message, .. } => {
            assert_eq!(client_id, 1);
            assert!(matches!(message.payload, MessagePayload::ConnectionReject(ConnectionRejectReason::AlreadyConnected)));
        },
        _ => panic!("not refused"),
    }

    // Heartbeats after the retry interval.
    let beat = match client.tick(100_000) {
        Ok(ClientTick::Heartbeat(m)) => m,
        _ => panic!("no heartbeat"),
    };
    client.sent(100_000);
    assert!(matches!(client.tick(100_001), Ok(ClientTick::Idle)));
    match server.handle_packet(client_addr, &packet(&beat), 100_010).unwrap() {
        ServerReply::Event(ServerEvent::ClientHeartbeat(1)) => {},
        _ => panic!("no client heartbeat"),
    }
    match server.tick(100_010) {
        ServerTick::Heartbeat { client_id: 1, addr, .. } => assert_eq!(addr, client_addr),
        _ => panic!("no server heartbeat"),
    }

    // Data both ways.
    let (m, to) = client.send((7i32, 8u32)).unwrap();
    assert_eq!(to, server_addr);
    match server.handle_packet(client_addr, &packet(&m), 100_020).unwrap() {
        ServerReply::Event(ServerEvent::Data(1, p)) => assert_eq!(p.data(), &[7, 0, 0, 0, 8, 0, 0, 0]),
        _ => panic!("no data"),
    }
    let (m, to) = server.send(1, (-43i32, 43u32)).unwrap();
    assert_eq!(to, client_addr);
    match client.handle_packet(server_addr, &packet(&m), 100_030).unwrap() {
        Some(ClientEvent::Data(p)) => assert_eq!(p.byte_count, 8),
        _ => panic!("no data"),
    }
    assert!(matches!(server.send(2, 1u8), Err(NetError::ServerError(ServerError::ClientNotConnected))));

    // A packet from elsewhere is refused.
    assert!(matches!(
        client.handle_packet(peer(1), &packet(&m), 100_040),
        Err(NetError::ClientError(ClientError::PacketNotFromServer))
    ));

    // Disconnect.
    let (notice, to) = client.disconnect().unwrap();
    assert_eq!(to, server_addr);
    assert!(matches!(client.state(), ClientState::NotConnected));
    match server.handle_packet(client_addr, &packet(&notice), 100_050).unwrap() {
        ServerReply::Disconnect { client_id: 1, .. } => {},
        _ => panic!("no disconnect"),
    }
    server.remove_client(1).unwrap();
    assert_eq!(server.connections().len(), 0);
    assert!(matches!(client.disconnect(), Err(ClientError::ClientNotConnected)));
}

#[test]
fn client_gives_up_on_a_silent_server() {
    let mut client = Client::new(1, peer(5000));
    client.connect_request().unwrap();
    client.connect_sent(peer(42069), 0);
    assert!(matches!(client.tick(400_000), Ok(ClientTick::Idle)));
    match client.tick(500_000) {
        Ok(ClientTick::RetryConnect(m)) => assert!(matches!(m.payload, MessagePayload::ConnectionRequest(1))),
        _ => panic!("no retry"),
    }
    client.connection_request_resent(500_000);
    assert!(matches!(client.tick(5_000_000), Ok(ClientTick::TimedOut)));
    client.timed_out();
    assert!(matches!(client.state(), ClientState::NotConnected));
}

#[test]
fn server_times_out_and_drops_clients() {
    let mut server = Server::new(peer(1));
    let request = engine::network::messages::ConnectionRequest::build_message(9);
    assert!(matches!(server.handle_packet(peer(2), &packet(&request), 0).unwrap(), ServerReply::Accept { .. }));
    match server.tick(1_000_000) {
        ServerTick::TimedOut { client_id: 9, .. } => {},
        _ => panic!("no time-out"),
    }
    server.remove_client(9).unwrap();
    assert!(matches!(server.tick(2_000_000), ServerTick::Idle));
    assert!(matches!(server.remove_client(9), Err(ServerError::PacketNotFromConnectedClient)));
    let heartbeat = engine::network::messages::Heartbeat::build_message();
    assert!(matches!(
        server.handle_packet(peer(2), &packet(&heartbeat), 0),
        Err(NetError::ServerError(ServerError::PacketNotFromConnectedClient))
    ));
    assert!(matches!(server.handle_packet(peer(2), &[1, 2, 3], 0), Err(NetError::SerializationError(_))));
}

#[test]
fn disconnect_all_notifies_every_client() {
    let mut server = Server::new(peer(1));
    for (id, port) in [(1u64, 2u16), (2, 3)] {
        let request = engine::network::messages::ConnectionRequest::build_message(id);
        server.handle_packet(peer(port), &packet(&request), 0).unwrap();
    }
    let notices = server.disconnect_all();
    assert_eq!(notices.len(), 2);
    assert_eq!(notices[1].1, peer(3));
    assert!(matches!(notices[1].0.payload, MessagePayload::DisconnectNotice(2)));
    assert_eq!(server.connections().len(), 0);
}
