//! The byte codecs: Ethernet frames, TCP headers, and WebSocket frames.

use rustai_os::api::websocket::WebSocketOpCode;
use rustai_os::api::websocket::WebSocketServer;
use rustai_os::network::ethernet::EthernetFrame;
use rustai_os::network::ethernet::ETHERTYPE_IPV4;
use rustai_os::network::tcp::TcpFlags;
use rustai_os::network::tcp::TcpHeader;

#[test]
fn ethernet_frame_round_trips() {
    let frame = EthernetFrame::new(
        [1, 2, 3, 4, 5, 6],
        [7, 8, 9, 10, 11, 12],
        ETHERTYPE_IPV4,
        vec![0xde, 0xad, 0xbe, 0xef],
    );
    let bytes = frame.to_bytes();
    assert_eq!(
        bytes,
        vec![1, 2, 3, 4, 5, 6, 7, 8, 9, 10, 11, 12, 0x08, 0x00, 0xde, 0xad, 0xbe, 0xef]
    );
    let parsed = EthernetFrame::from_bytes(&bytes).expect("a complete frame parses");
    assert_eq!(parsed.get_destination(), [1, 2, 3, 4, 5, 6]);
    assert_eq!(parsed.get_source(), [7, 8, 9, 10, 11, 12]);
    assert_eq!(parsed.get_ethertype(), ETHERTYPE_IPV4);
    assert_eq!(parsed.get_payload(), &[0xde, 0xad, 0xbe, 0xef]);
}

#[test]
fn ethernet_frame_too_short_is_absence() {
    assert!(EthernetFrame::from_bytes(&[0; 13]).is_none());
    assert!(EthernetFrame::from_bytes(&[]).is_none());
}

#[test]
fn tcp_header_serializes_exactly() {
    let flags = TcpFlags { fin: false, syn: true, rst: false, psh: false, ack: true, urg: false };
    let header = TcpHeader::new(0x1234, 0x0050, 0x01020304, 0x0A0B0C0D, flags, 0x7110);
    let bytes = header.to_bytes();
    assert_eq!(
        bytes,
        vec![
            0x12, 0x34, // source port
            0x00, 0x50, // destination port
            0x01, 0x02, 0x03, 0x04, // sequence number
            0x0A, 0x0B, 0x0C, 0x0D, // acknowledgment number
            0x50, // data offset 5, in the high nibble
            0x12, // ACK and SYN
            0x71, 0x10, // window size
            0x00, 0x00, // checksum
            0x00, 0x00, // urgent pointer
        ]
    );
}

#[test]
fn websocket_text_frame_unmasked_round_trips() {
    let bytes = WebSocketServer::create_text_frame("hello", false);
    assert_eq!(bytes, vec![0x81, 5, b'h', b'e', b'l', b'l', b'o']);
    let frame = WebSocketServer::parse_frame(&bytes).expect("the frame parses");
    assert!(frame.fin);
    assert!(matches!(frame.opcode, WebSocketOpCode::Text));
    assert!(!frame.mask);
    assert_eq!(frame.payload_length, 5);
    assert_eq!(frame.mask_key, None);
    assert_eq!(frame.payload, b"hello".to_vec());
}

#[test]
fn websocket_text_frame_masked_round_trips() {
    let bytes = WebSocketServer::create_text_frame("masked payload", true);
    let frame = WebSocketServer::parse_frame(&bytes).expect("the frame parses");
    assert!(frame.mask);
    assert_eq!(frame.mask_key, Some([0x12, 0x34, 0x56, 0x78]));
    assert_eq!(frame.payload, b"masked payload".to_vec());
}

#[test]
fn websocket_two_byte_length_form() {
    let text: String = std::iter::repeat('x').take(300).collect();
    let bytes = WebSocketServer::create_text_frame(&text, false);
    assert_eq!(bytes[1], 126);
    assert_eq!(bytes[2], 1);
    assert_eq!(bytes[3], 44);
    let frame = WebSocketServer::parse_frame(&bytes).expect("the frame parses");
    assert_eq!(frame.payload_length, 300);
    assert_eq!(frame.payload.len(), 300);
}

#[test]
fn websocket_eight_byte_length_form() {
    let text: String = std::iter::repeat('y').take(70_000).collect();
    let bytes = WebSocketServer::create_text_frame(&text, false);
    assert_eq!(bytes[1], 127);
    // Only the two low-order length bytes are filled in: 70000 = 0x11170,
    // so the announced length wraps to 0x1170.
    assert_eq!(&bytes[2..10], &[0, 0, 0, 0, 0, 0, 0x11, 0x70]);
    let frame = WebSocketServer::parse_frame(&bytes).expect("the frame parses");
    assert_eq!(frame.payload_length, 0x1170);
}

#[test]
fn websocket_rejects_short_or_unknown_frames() {
    assert!(WebSocketServer::parse_frame(&[]).is_none());
    assert!(WebSocketServer::parse_frame(&[0x81]).is_none());
    // Opcode 3 is reserved.
    assert!(WebSocketServer::parse_frame(&[0x83, 0]).is_none());
    // Announced payload longer than the data.
    assert!(WebSocketServer::parse_frame(&[0x81, 5, b'h', b'i']).is_none());
}

#[test]
fn websocket_server_stop_closes_every_connection() {
    let mut server = WebSocketServer::new("0.0.0.0", 9001);
    server.start().unwrap();
    assert!(server.is_running());
    server.add_connection(1);
    server.add_connection(2);
    server.stop();
    assert!(!server.is_running());
    assert!(server.connections.iter().all(|c| !c.is_connected()));
}

#[test]
fn websocket_connection_lifecycle() {
    let mut server = WebSocketServer::new("127.0.0.1", 9001);
    assert!(!server.is_running());
    let added = server.add_connection(7);
    assert_eq!(added.id, 7);
    assert!(added.is_connected());
    assert_eq!(server.connections.len(), 1);
    assert!(server.connections[0].is_connected());
    server.connections[0].close();
    assert!(!server.connections[0].is_connected());
    assert_eq!(server.connections[0].id, 7);
}
