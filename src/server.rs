//! Target-side decisions: the key of a flow, and what to do with a
//! datagram from the tunnel or from a flow's socket.

use vstd::prelude::*;

use crate::addr::PeerAddr;
use crate::common::push_char;
use crate::output::{
    arrow, decimal_spec, maybe_text, push_arrow, push_decimal, push_maybe, push_str, Alignment,
    Column,
};
use crate::proto::{classify, classify_spec, framed, write_data_header, TunnelPacket};

verus! {

/// A flow seen by the target: the tunnel peer it came from and its
/// connection id.
#[derive(Copy, Clone, Debug, Eq, PartialEq, Structural, Hash)]
pub struct ConnId {
    pub from: PeerAddr,
    pub cid: u8,
}

impl ConnId {
    pub fn new(from: PeerAddr, cid: u8) -> (r: ConnId)
        ensures
            r == (ConnId { from, cid }),
    {
        ConnId { from, cid }
    }
}

/// What the target does with a datagram received on the tunnel.
#[derive(Debug, Clone, Copy, PartialEq, Eq, Structural)]
pub enum TunnelAction {
    /// Drop it silently: it was empty.
    Ignore,
    /// Answer the connect request of its sender.
    RespondConnect,
    /// Send the payload (bytes 2 on) on the socket of this flow, opening
    /// one if there is none.
    Forward { id: ConnId },
    /// Data too short to carry an id: log and drop.
    ShortData,
    /// Unknown packet type: log and drop.
    InvalidType { kind: u8 },
}

/// The target's answer to a tunnel datagram `p` from `sender`.
pub open spec fn from_tunnel_spec(p: Seq<u8>, sender: PeerAddr) -> TunnelAction {
    match classify_spec(p) {
        TunnelPacket::Empty => TunnelAction::Ignore,
        TunnelPacket::Connect => TunnelAction::RespondConnect,
        TunnelPacket::ShortData => TunnelAction::ShortData,
        TunnelPacket::Invalid { kind } => TunnelAction::InvalidType { kind },
        TunnelPacket::Data { cid } => TunnelAction::Forward { id: ConnId { from: sender, cid } },
    }
}

/// Decides what to do with a tunnel datagram from `sender`.
pub fn from_tunnel(packet: &[u8], sender: PeerAddr) -> (r: TunnelAction)
    ensures
        r == from_tunnel_spec(packet@, sender),
{
    match classify(packet) {
        TunnelPacket::Empty => TunnelAction::Ignore,
        TunnelPacket::Connect => TunnelAction::RespondConnect,
        TunnelPacket::ShortData => TunnelAction::ShortData,
        TunnelPacket::Invalid { kind } => TunnelAction::InvalidType { kind },
        TunnelPacket::Data { cid } => TunnelAction::Forward { id: ConnId { from: sender, cid } },
    }
}

/// Frames a datagram that the real server sent on the socket of flow `id`,
/// whose payload sits in `buf[2..]`.
pub fn into_tunnel(id: ConnId, buf: &mut Vec<u8>)
    requires
        old(buf)@.len() >= 2,
    ensures
        final(buf)@ == framed(id.cid, old(buf)@.subrange(2, old(buf)@.len() as int)),
{
    write_data_header(buf, id.cid);
}

/// One datagram as the target logs it.
pub struct DataPacketInfo {
    pub to_tunnel: bool,
    /// The flow's connection id.
    pub cid: u8,
    /// The flow's tunnel peer, as text.
    pub peer: String,
    /// The local address of the flow's socket, as text, where known.
    pub tunnel_socket: Option<String>,
    pub data_len: usize,
}

/// The columns of the target's log lines.
#[derive(Debug, Eq, PartialEq, Copy, Clone, Structural)]
pub enum OutputColumn {
    Direction,
    RevDirection,
    Client,
    ClientId,
    Peer,
    TunnelSocket,
    DataLen,
}

impl OutputColumn {
    /// The text of column `self` for `data`.
    pub open spec fn text(&self, data: &DataPacketInfo) -> Seq<char> {
        match self {
            OutputColumn::Direction => arrow(data.to_tunnel),
            OutputColumn::RevDirection => arrow(!data.to_tunnel),
            OutputColumn::Client => decimal_spec(data.cid as nat) + seq!['@'] + data.peer@,
            OutputColumn::ClientId => decimal_spec(data.cid as nat),
            OutputColumn::Peer => data.peer@,
            OutputColumn::TunnelSocket => maybe_text(data.tunnel_socket),
            OutputColumn::DataLen => decimal_spec(data.data_len as nat),
        }
    }
}

impl Column for OutputColumn {
    type Data = DataPacketInfo;

    open spec fn spec_by_char(ch: char) -> Option<Self> {
        if ch == 'd' {
            Some(OutputColumn::Direction)
        } else if ch == 'D' {
            Some(OutputColumn::RevDirection)
        } else if ch == 'c' {
            Some(OutputColumn::Client)
        } else if ch == 'i' {
            Some(OutputColumn::ClientId)
        } else if ch == 'p' {
            Some(OutputColumn::Peer)
        } else if ch == 'a' {
            Some(OutputColumn::TunnelSocket)
        } else if ch == 'l' {
            Some(OutputColumn::DataLen)
        } else {
            None
        }
    }

    open spec fn spec_to_string(&self, data: &DataPacketInfo) -> Seq<char> {
        self.text(data)
    }

    open spec fn spec_constant_size(&self) -> bool {
        *self == OutputColumn::Direction
    }

    open spec fn spec_alignment(&self) -> Alignment {
        match self {
            OutputColumn::ClientId | OutputColumn::DataLen => Alignment::Right,
            _ => Alignment::Left,
        }
    }

    fn by_char(ch: char) -> (r: Option<Self>) {
        match ch {
            'd' => Some(OutputColumn::Direction),
            'D' => Some(OutputColumn::RevDirection),
            'c' => Some(OutputColumn::Client),
            'i' => Some(OutputColumn::ClientId),
            'p' => Some(OutputColumn::Peer),
            'a' => Some(OutputColumn::TunnelSocket),
            'l' => Some(OutputColumn::DataLen),
            _ => None,
        }
    }

    fn to_string(&self, data: &DataPacketInfo) -> (r: String) {
        let mut out = String::new();
        match self {
            OutputColumn::Direction => push_arrow(&mut out, data.to_tunnel),
            OutputColumn::RevDirection => push_arrow(&mut out, !data.to_tunnel),
            OutputColumn::Client => {
                push_decimal(&mut out, data.cid as u64);
                push_char(&mut out, '@');
                push_str(&mut out, data.peer.as_str());
            },
            OutputColumn::ClientId => push_decimal(&mut out, data.cid as u64),
            OutputColumn::Peer => push_str(&mut out, data.peer.as_str()),
            OutputColumn::TunnelSocket => push_maybe(&mut out, &data.tunnel_socket),
            OutputColumn::DataLen => push_decimal(&mut out, data.data_len as u64),
        }
        assert(out@ =~= self.text(data));
        out
    }

    fn constant_size(&self) -> (r: bool) {
        match self {
            OutputColumn::Direction => true,
            _ => false,
        }
    }

    fn alignment(&self) -> (r: Alignment) {
        match self {
            OutputColumn::ClientId | OutputColumn::DataLen => Alignment::Right,
            _ => Alignment::Left,
        }
    }
}

/// The log line used when the operator gives no format.
pub const DEFAULT_FORMAT: &'static str = "[%d tunnel] client: %c lsock: %a dbuf: %l";

} // verus!
