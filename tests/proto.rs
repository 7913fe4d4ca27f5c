use udp_tunnel::proto::{
    classify, connect_ack, connect_request, data_payload, frame_data, peer_role, write_data_header,
    TunnelPacket, PACKET_CONNECT, PACKET_CONN_ACK, PACKET_DATA, PROTO_VERSION, TYPE_CLIENT,
    TYPE_SERVER,
};

#[test]
fn framing_round_trip() {
    let payload = b"hi".to_vec();
    let framed = frame_data(7, &payload);
    assert_eq!(framed, vec![PACKET_DATA, 7, b'h', b'i']);
    assert_eq!(classify(&framed), TunnelPacket::Data { cid: 7 });
    assert_eq!(data_payload(&framed), &payload[..]);
}

#[test]
fn framing_empty_payload() {
    let framed = frame_data(0, &[]);
    assert_eq!(framed, vec![0x10, 0x00]);
    assert_eq!(classify(&framed), TunnelPacket::Data { cid: 0 });
    assert!(data_payload(&framed).is_empty());
}

#[test]
fn header_written_in_reserved_bytes() {
    let bufsize = 8;
    let mut buf = vec![0u8; bufsize];
    let payload = [1u8, 2, 3, 4, 5, 6];
    buf[2..2 + payload.len()].copy_from_slice(&payload);
    write_data_header(&mut buf, 200);
    let sent = &buf[..payload.len() + 2];
    assert_eq!(sent, &[0x10, 200, 1, 2, 3, 4, 5, 6]);
    assert_eq!(classify(sent), TunnelPacket::Data { cid: 200 });
    assert_eq!(data_payload(sent), &payload[..]);
}

#[test]
fn classify_each_kind() {
    assert_eq!(classify(&[]), TunnelPacket::Empty);
    assert_eq!(classify(&[PACKET_CONNECT]), TunnelPacket::Connect);
    assert_eq!(classify(&[PACKET_DATA]), TunnelPacket::ShortData);
    assert_eq!(classify(&[0x42, 0x00]), TunnelPacket::Invalid { kind: 0x42 });
    assert_eq!(classify(&[PACKET_CONN_ACK, 0, 1]), TunnelPacket::Invalid { kind: 0x01 });
}

#[test]
fn handshake_bytes() {
    assert_eq!(connect_request(), vec![0x00]);
    assert_eq!(connect_ack(TYPE_CLIENT), vec![0x01, 0x01, 0x01]);
    assert_eq!(connect_ack(TYPE_SERVER), vec![0x01, 0x00, PROTO_VERSION]);
    assert_eq!(peer_role(TYPE_CLIENT), TYPE_SERVER);
    assert_eq!(peer_role(TYPE_SERVER), TYPE_CLIENT);
}
