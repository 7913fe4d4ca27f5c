use vstd::prelude::*;

verus! {

/// Version byte carried in a connect acknowledgement.
pub const PROTO_VERSION: u8 = 0x01;

/// Packet type: request to open the tunnel.
pub const PACKET_CONNECT: u8 = 0x00;
/// Packet type: answer to a connect request.
pub const PACKET_CONN_ACK: u8 = 0x01;
/// Packet type: a payload for one connection.
pub const PACKET_DATA: u8 = 0x10;

/// Role tag of the target side.
pub const TYPE_SERVER: u8 = 0x00;
/// Role tag of the entry side.
pub const TYPE_CLIENT: u8 = 0x01;

/// What a datagram received on the tunnel asks for.
#[derive(Clone, Copy, Debug, PartialEq, Eq, Structural)]
pub enum TunnelPacket {
    /// A zero-length datagram.
    Empty,
    /// A connect request.
    Connect,
    /// A data packet for connection `cid`; the payload starts at byte 2.
    Data { cid: u8 },
    /// A data packet too short to hold a connection id.
    ShortData,
    /// A packet whose type byte is unknown.
    Invalid { kind: u8 },
}

/// How a tunnel datagram is read.
pub open spec fn classify_spec(p: Seq<u8>) -> TunnelPacket {
    if p.len() == 0 {
        TunnelPacket::Empty
    } else if p[0] == PACKET_CONNECT {
        TunnelPacket::Connect
    } else if p[0] == PACKET_DATA {
        if p.len() < 2 {
            TunnelPacket::ShortData
        } else {
            TunnelPacket::Data { cid: p[1] }
        }
    } else {
        TunnelPacket::Invalid { kind: p[0] }
    }
}

/// The data packet for connection `id` carrying `payload`.
pub open spec fn framed(id: u8, payload: Seq<u8>) -> Seq<u8> {
    seq![PACKET_DATA, id] + payload
}

/// The acknowledgement that a side with role `role` sends.
pub open spec fn conn_ack(role: u8) -> Seq<u8> {
    seq![PACKET_CONN_ACK, role, PROTO_VERSION]
}

/// The role a side expects of its peer: the complement of its own.
pub open spec fn peer_role_spec(own: u8) -> u8 {
    if own == TYPE_SERVER {
        TYPE_CLIENT
    } else {
        TYPE_SERVER
    }
}

/// Reads the type of a datagram received on the tunnel.
pub fn classify(p: &[u8]) -> (r: TunnelPacket)
    ensures
        r == classify_spec(p@),
{
    if p.len() == 0 {
        TunnelPacket::Empty
    } else if p[0] == PACKET_CONNECT {
        TunnelPacket::Connect
    } else if p[0] == PACKET_DATA {
        if p.len() < 2 {
            TunnelPacket::ShortData
        } else {
            TunnelPacket::Data { cid: p[1] }
        }
    } else {
        TunnelPacket::Invalid { kind: p[0] }
    }
}

/// Builds the data packet `{DATA, id} ++ payload`.
pub fn frame_data(id: u8, payload: &[u8]) -> (r: Vec<u8>)
    requires
        payload@.len() + 2 <= usize::MAX,
    ensures
        r@ == framed(id, payload@),
{
    let mut r: Vec<u8> = Vec::with_capacity(payload.len() + 2);
    r.push(PACKET_DATA);
    r.push(id);
    let mut i: usize = 0;
    while i < payload.len()
        invariant
            i <= payload@.len(),
            r@ == framed(id, payload@.subrange(0, i as int)),
        decreases payload@.len() - i,
    {
        r.push(payload[i]);
        i += 1;
        assert(payload@.subrange(0, i as int) == payload@.subrange(0, i - 1) + seq![payload@[i - 1]]);
    }
    assert(payload@.subrange(0, payload@.len() as int) == payload@);
    r
}

/// Writes the data header for connection `id` into the two bytes that a
/// receive buffer keeps free in front of the payload.
pub fn write_data_header(buf: &mut Vec<u8>, id: u8)
    requires
        old(buf)@.len() >= 2,
    ensures
        final(buf)@ == framed(id, old(buf)@.subrange(2, old(buf)@.len() as int)),
{
    buf.set(0, PACKET_DATA);
    buf.set(1, id);
    assert(buf@ =~= framed(id, old(buf)@.subrange(2, old(buf)@.len() as int)));
}

/// The payload of a data packet: everything after the type and id bytes.
pub fn data_payload(p: &[u8]) -> (r: &[u8])
    requires
        p@.len() >= 2,
    ensures
        r@ == p@.subrange(2, p@.len() as int),
{
    &p[2..p.len()]
}

/// The role a side expects its peer to announce.
pub fn peer_role(own: u8) -> (r: u8)
    ensures
        r == peer_role_spec(own),
{
    if own == TYPE_SERVER {
        TYPE_CLIENT
    } else {
        TYPE_SERVER
    }
}

/// The connect request: one type byte.
pub fn connect_request() -> (r: Vec<u8>)
    ensures
        r@ == seq![PACKET_CONNECT],
{
    let mut r: Vec<u8> = Vec::new();
    r.push(PACKET_CONNECT);
    r
}

/// The acknowledgement that a side with role `role` answers a connect with.
pub fn connect_ack(role: u8) -> (r: Vec<u8>)
    ensures
        r@ == conn_ack(role),
{
    let mut r: Vec<u8> = Vec::new();
    r.push(PACKET_CONN_ACK);
    r.push(role);
    r.push(PROTO_VERSION);
    assert(r@ =~= conn_ack(role));
    r
}

/// A data packet strips back to its payload, and its type byte and id read
/// back as they were framed.
pub proof fn lemma_frame_round_trip(id: u8, payload: Seq<u8>)
    ensures
        classify_spec(framed(id, payload)) == (TunnelPacket::Data { cid: id }),
        framed(id, payload).subrange(2, framed(id, payload).len() as int) == payload,
{
    assert(framed(id, payload).subrange(2, framed(id, payload).len() as int) =~= payload);
}

/// A payload of `size` bytes received behind the two reserved bytes of a
/// buffer of `buf.len()` bytes (so `size <= buf.len() - 2`) goes out, once
/// the header is written, as `{DATA, id} ++ payload` in the first `size + 2`
/// bytes, which the peer reads as data for `id` and strips back to the
/// payload.
pub proof fn lemma_buffer_round_trip(buf: Seq<u8>, id: u8, size: int)
    requires
        0 <= size,
        size + 2 <= buf.len(),
    ensures
        ({
            let sent = framed(id, buf.subrange(2, buf.len() as int)).subrange(0, size + 2);
            &&& sent == framed(id, buf.subrange(2, size + 2))
            &&& classify_spec(sent) == (TunnelPacket::Data { cid: id })
            &&& sent.subrange(2, sent.len() as int) == buf.subrange(2, size + 2)
        }),
{
    let sent = framed(id, buf.subrange(2, buf.len() as int)).subrange(0, size + 2);
    assert(sent =~= framed(id, buf.subrange(2, size + 2)));
    lemma_frame_round_trip(id, buf.subrange(2, size + 2));
}

} // verus!
