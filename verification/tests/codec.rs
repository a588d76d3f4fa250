//! Decoder and request-builder behaviour on fabricated byte buffers.

use netlink_packet_core::{NetlinkMessage, NLM_F_DUMP, NLM_F_REQUEST};
use netlink_packet_sock_diag::inet::{ExtensionFlags, InetRequest, SocketId, StateFlags};
use netlink_packet_sock_diag::SockDiagMessage;
use netlink_ports::wire::{decode_frames, Frame};
use netlink_ports::request::build_dump_request;
use netlink_ports::{Protocol, ScanError};

/// A complete inet socket-diagnostics response frame reporting `port`.
fn entry_frame(port: u16) -> Vec<u8> {
    let mut v = vec![0u8; 88];
    v[0] = 88; // total length, little-endian
    v[4] = 20; // inet socket-diagnostics message type
    v[16] = 2; // AF_INET
    v[20] = (port >> 8) as u8; // source port, big-endian
    v[21] = (port & 0xff) as u8;
    v
}

/// A terminal `Done` frame as the kernel sends it (4-byte payload).
fn done_frame() -> Vec<u8> {
    let mut v = vec![0u8; 20];
    v[0] = 20;
    v[4] = 3;
    v
}

/// An explicit kernel error frame carrying `code`.
fn error_frame(code: i32) -> Vec<u8> {
    let mut v = vec![0u8; 20];
    v[0] = 20;
    v[4] = 2;
    v[16..20].copy_from_slice(&code.to_le_bytes());
    v
}

#[test]
fn done_only_yields_no_entries() {
    let frames = decode_frames(&done_frame()).unwrap();
    assert_eq!(frames, vec![Frame::Done]);
    assert!(frames.iter().all(|f| !matches!(f, Frame::Entry(_))));
}

#[test]
fn empty_buffer_yields_no_frames() {
    assert_eq!(decode_frames(&[]).unwrap(), vec![]);
}

#[test]
fn entries_then_done() {
    let mut buf = entry_frame(22);
    buf.extend_from_slice(&entry_frame(80));
    buf.extend_from_slice(&done_frame());
    assert_eq!(
        decode_frames(&buf).unwrap(),
        vec![Frame::Entry(22), Frame::Entry(80), Frame::Done]
    );
}

#[test]
fn wildcard_port_is_filtered() {
    let mut buf = entry_frame(0);
    buf.extend_from_slice(&done_frame());
    assert_eq!(decode_frames(&buf).unwrap(), vec![Frame::Done]);
}

#[test]
fn largest_port_is_kept() {
    let mut buf = entry_frame(65535);
    buf.extend_from_slice(&done_frame());
    assert_eq!(decode_frames(&buf).unwrap(), vec![Frame::Entry(65535), Frame::Done]);
}

#[test]
fn unknown_kind_is_skipped() {
    let mut odd = vec![0u8; 24];
    odd[0] = 24;
    odd[4] = 99; // unknown message type
    odd.extend_from_slice(&entry_frame(443));
    odd.extend_from_slice(&done_frame());
    assert_eq!(decode_frames(&odd).unwrap(), vec![Frame::Entry(443), Frame::Done]);
}

#[test]
fn decoding_stops_after_done() {
    let mut buf = done_frame();
    buf.extend_from_slice(&entry_frame(22));
    assert_eq!(decode_frames(&buf).unwrap(), vec![Frame::Done]);
}

#[test]
fn error_frame_carries_kernel_code() {
    let frames = decode_frames(&error_frame(-13)).unwrap();
    assert_eq!(frames, vec![Frame::ProtocolError(-13)]);
}

#[test]
fn truncated_header_is_a_decode_error() {
    let buf = vec![0u8; 10];
    assert_eq!(decode_frames(&buf), Err(ScanError::Decode));
}

#[test]
fn declared_length_too_large_is_a_decode_error() {
    let mut buf = done_frame();
    buf[0] = 200; // declares more bytes than the buffer holds
    assert_eq!(decode_frames(&buf), Err(ScanError::Decode));
}

#[test]
fn declared_length_below_header_is_a_decode_error() {
    let mut buf = done_frame();
    buf[0] = 8; // shorter than a frame header
    assert_eq!(decode_frames(&buf), Err(ScanError::Decode));
}

#[test]
fn short_entry_payload_is_a_decode_error() {
    let mut buf = vec![0u8; 32];
    buf[0] = 32; // inet response frame with a 16-byte payload
    buf[4] = 20;
    assert_eq!(decode_frames(&buf), Err(ScanError::Decode));
}

#[test]
fn split_and_concatenated_buffers_decode_alike() {
    let first = entry_frame(22);
    let second = done_frame();
    let mut whole = first.clone();
    whole.extend_from_slice(&second);
    let mut separate = decode_frames(&first).unwrap();
    separate.extend(decode_frames(&second).unwrap());
    assert_eq!(separate, decode_frames(&whole).unwrap());
    assert_eq!(separate, vec![Frame::Entry(22), Frame::Done]);
}

#[test]
fn request_has_expected_header_fields() {
    let buf = build_dump_request(Protocol::Udp);
    assert_eq!(buf.len(), 72);
    // netlink header: length, type, flags, sequence number
    assert_eq!(u32::from_le_bytes(buf[0..4].try_into().unwrap()), 72);
    assert_eq!(u16::from_le_bytes(buf[4..6].try_into().unwrap()), 20);
    assert_eq!(u16::from_le_bytes(buf[6..8].try_into().unwrap()), 0x0301);
    assert_eq!(u32::from_le_bytes(buf[8..12].try_into().unwrap()), 1);
    // payload: family IPv4, UDP protocol id, LISTEN-only state filter
    assert_eq!(buf[16], libc::AF_INET as u8);
    assert_eq!(buf[17], libc::IPPROTO_UDP as u8);
    assert_eq!(buf[18], 0);
    assert_eq!(u32::from_le_bytes(buf[20..24].try_into().unwrap()), 1 << 10);
    // wildcard socket id
    assert!(buf[24..72].iter().all(|b| *b == 0));
}

#[test]
fn request_tcp_differs_only_in_protocol_byte() {
    let tcp = build_dump_request(Protocol::Tcp);
    let udp = build_dump_request(Protocol::Udp);
    assert_eq!(tcp[17], libc::IPPROTO_TCP as u8);
    for i in 0..72 {
        if i == 17 {
            assert_ne!(tcp[i], udp[i]);
        } else {
            assert_eq!(tcp[i], udp[i]);
        }
    }
}

#[test]
fn request_matches_reference_serializer() {
    for (protocol, proto_id) in [
        (Protocol::Tcp, libc::IPPROTO_TCP as u8),
        (Protocol::Udp, libc::IPPROTO_UDP as u8),
    ] {
        let mut packet = NetlinkMessage::from(SockDiagMessage::InetRequest(InetRequest {
            family: libc::AF_INET as u8,
            protocol: proto_id,
            extensions: ExtensionFlags::empty(),
            states: StateFlags::LISTEN,
            socket_id: SocketId::new_v4(),
        }));
        packet.header.flags = NLM_F_REQUEST | NLM_F_DUMP;
        packet.header.sequence_number = 1;
        packet.finalize();
        let mut reference = vec![0; packet.header.length as usize];
        packet.serialize(&mut reference[..]);

        assert_eq!(build_dump_request(protocol), reference);
    }
}

#[test]
fn protocol_ids_and_labels() {
    assert_eq!(Protocol::Tcp.id(), libc::IPPROTO_TCP as u8);
    assert_eq!(Protocol::Udp.id(), libc::IPPROTO_UDP as u8);
    assert_eq!(Protocol::Tcp.label(), "tcp");
    assert_eq!(Protocol::Udp.label(), "udp");
}
