//! Entry-side decisions: what to do with a datagram from the tunnel or from
//! an external peer.

use vstd::prelude::*;

use crate::addr::PeerAddr;
use crate::cache::{Cache, CacheState, Error};
use crate::common::{now_micros, push_char};
use crate::output::{
    arrow, decimal_spec, maybe_text, push_arrow, push_decimal, push_maybe, push_str, Alignment,
    Column,
};
use crate::proto::{classify, classify_spec, framed, write_data_header, TunnelPacket};

verus! {

/// What the entry does with a datagram received on the tunnel.
#[derive(Debug, Clone, Copy, PartialEq, Eq, Structural)]
pub enum TunnelAction {
    /// Drop it silently: it was empty.
    Ignore,
    /// Answer the connect request of its sender.
    RespondConnect,
    /// Send the payload (bytes 2 on) to this external peer.
    ToPeer { addr: PeerAddr },
    /// Data for an id that is not live: log and drop.
    UnknownId { id: u8 },
    /// Data too short to carry an id: log and drop.
    ShortData,
    /// Unknown packet type: log and drop.
    InvalidType { kind: u8 },
}

/// The entry's answer to a tunnel datagram `p` at time `now`.
pub open spec fn from_tunnel_spec(s: CacheState, p: Seq<u8>, now: int) -> (CacheState, TunnelAction) {
    match classify_spec(p) {
        TunnelPacket::Empty => (s, TunnelAction::Ignore),
        TunnelPacket::Connect => (s, TunnelAction::RespondConnect),
        TunnelPacket::ShortData => (s, TunnelAction::ShortData),
        TunnelPacket::Invalid { kind } => (s, TunnelAction::InvalidType { kind }),
        TunnelPacket::Data { cid } => {
            let (s2, r) = s.lookup_id(cid, now);
            match r {
                Some(x) => (s2, TunnelAction::ToPeer { addr: x.addr }),
                None => (s2, TunnelAction::UnknownId { id: cid }),
            }
        },
    }
}

/// Decides what to do with a tunnel datagram at time `now`; a data packet
/// looks its id up.
pub fn from_tunnel_at(cache: &mut Cache, packet: &[u8], now: i64) -> (r: TunnelAction)
    requires
        old(cache).wf(),
    ensures
        final(cache).wf(),
        (final(cache)@, r) == from_tunnel_spec(old(cache)@, packet@, now as int),
{
    match classify(packet) {
        TunnelPacket::Empty => TunnelAction::Ignore,
        TunnelPacket::Connect => TunnelAction::RespondConnect,
        TunnelPacket::ShortData => TunnelAction::ShortData,
        TunnelPacket::Invalid { kind } => TunnelAction::InvalidType { kind },
        TunnelPacket::Data { cid } => match cache.get_by_id_at(cid, now) {
            Some(x) => TunnelAction::ToPeer { addr: x.addr },
            None => TunnelAction::UnknownId { id: cid },
        },
    }
}

/// Decides what to do with a tunnel datagram at the current time.
pub fn from_tunnel(cache: &mut Cache, packet: &[u8]) -> (r: TunnelAction)
    requires
        old(cache).wf(),
    ensures
        final(cache).wf(),
        exists|now: i64| (final(cache)@, r) == #[trigger] from_tunnel_spec(old(cache)@, packet@, now as int),
{
    let now = now_micros();
    from_tunnel_at(cache, packet, now)
}

/// Takes a datagram from external peer `sender` whose payload sits in
/// `buf[2..]`: finds or allocates its id at time `now` and writes the data
/// header in front. On failure the buffer is left as it was.
pub fn into_tunnel_at(cache: &mut Cache, sender: PeerAddr, buf: &mut Vec<u8>, now: i64) -> (r: Result<u8, Error>)
    requires
        old(cache).wf(),
        old(buf)@.len() >= 2,
    ensures
        final(cache).wf(),
        final(cache)@ == old(cache)@.get_or_insert_spec(sender, now as int).0,
        match old(cache)@.get_or_insert_spec(sender, now as int).1 {
            Ok(x) => r == Ok::<u8, Error>(x.id) && final(buf)@ == framed(
                x.id,
                old(buf)@.subrange(2, old(buf)@.len() as int),
            ),
            Err(e) => r == Err::<u8, Error>(e) && final(buf)@ == old(buf)@,
        },
{
    match cache.get_or_insert_by_addr_at(sender, now) {
        Ok(x) => {
            write_data_header(buf, x.id);
            Ok(x.id)
        },
        Err(e) => Err(e),
    }
}

/// Takes a datagram from an external peer at the current time.
pub fn into_tunnel(cache: &mut Cache, sender: PeerAddr, buf: &mut Vec<u8>) -> (r: Result<u8, Error>)
    requires
        old(cache).wf(),
        old(buf)@.len() >= 2,
    ensures
        final(cache).wf(),
        exists|now: i64|
            {
                let (s, x) = #[trigger] old(cache)@.get_or_insert_spec(sender, now as int);
                &&& final(cache)@ == s
                &&& match x {
                    Ok(x) => r == Ok::<u8, Error>(x.id) && final(buf)@ == framed(
                        x.id,
                        old(buf)@.subrange(2, old(buf)@.len() as int),
                    ),
                    Err(e) => r == Err::<u8, Error>(e) && final(buf)@ == old(buf)@,
                }
            },
{
    let now = now_micros();
    into_tunnel_at(cache, sender, buf, now)
}

/// One datagram as the entry logs it.
pub struct DataPacketInfo {
    pub to_tunnel: bool,
    /// The external peer's address, as text.
    pub client: String,
    pub cid: u8,
    /// The tunnel socket's local address, as text, where known.
    pub tunnel: Option<String>,
    pub data_len: usize,
}

/// The columns of the entry's log lines.
#[derive(Debug, Eq, PartialEq, Copy, Clone, Structural)]
pub enum OutputColumn {
    Direction,
    RevDirection,
    Client,
    ClientId,
    ClientAddr,
    TunnelAddr,
    DataLen,
}

impl OutputColumn {
    /// The text of column `self` for `data`.
    pub open spec fn text(&self, data: &DataPacketInfo) -> Seq<char> {
        match self {
            OutputColumn::Direction => arrow(data.to_tunnel),
            OutputColumn::RevDirection => arrow(!data.to_tunnel),
            OutputColumn::Client => decimal_spec(data.cid as nat) + seq!['@'] + maybe_text(data.tunnel),
            OutputColumn::ClientId => decimal_spec(data.cid as nat),
            OutputColumn::ClientAddr => data.client@,
            OutputColumn::TunnelAddr => maybe_text(data.tunnel),
            OutputColumn::DataLen => decimal_spec(data.data_len as nat),
        }
    }
}

impl Column for OutputColumn {
    type Data = DataPacketInfo;

    open spec fn spec_by_char(ch: char) -> Option<Self> {
        if ch == 'd' {
            Some(OutputColumn::Direction)
        } else if ch == 'D' {
            Some(OutputColumn::RevDirection)
        } else if ch == 'c' {
            Some(OutputColumn::Client)
        } else if ch == 'i' {
            Some(OutputColumn::ClientId)
        } else if ch == 'C' {
            Some(OutputColumn::ClientAddr)
        } else if ch == 't' {
            Some(OutputColumn::TunnelAddr)
        } else if ch == 'l' {
            Some(OutputColumn::DataLen)
        } else {
            None
        }
    }

    open spec fn spec_to_string(&self, data: &DataPacketInfo) -> Seq<char> {
        self.text(data)
    }

    open spec fn spec_constant_size(&self) -> bool {
        *self == OutputColumn::Direction
    }

    open spec fn spec_alignment(&self) -> Alignment {
        match self {
            OutputColumn::ClientId | OutputColumn::DataLen => Alignment::Right,
            _ => Alignment::Left,
        }
    }

    fn by_char(ch: char) -> (r: Option<Self>) {
        match ch {
            'd' => Some(OutputColumn::Direction),
            'D' => Some(OutputColumn::RevDirection),
            'c' => Some(OutputColumn::Client),
            'i' => Some(OutputColumn::ClientId),
            'C' => Some(OutputColumn::ClientAddr),
            't' => Some(OutputColumn::TunnelAddr),
            'l' => Some(OutputColumn::DataLen),
            _ => None,
        }
    }

    fn to_string(&self, data: &DataPacketInfo) -> (r: String) {
        let mut out = String::new();
        match self {
            OutputColumn::Direction => push_arrow(&mut out, data.to_tunnel),
            OutputColumn::RevDirection => push_arrow(&mut out, !data.to_tunnel),
            OutputColumn::Client => {
                push_decimal(&mut out, data.cid as u64);
                push_char(&mut out, '@');
                push_maybe(&mut out, &data.tunnel);
            },
            OutputColumn::ClientId => push_decimal(&mut out, data.cid as u64),
            OutputColumn::ClientAddr => push_str(&mut out, data.client.as_str()),
            OutputColumn::TunnelAddr => push_maybe(&mut out, &data.tunnel),
            OutputColumn::DataLen => push_decimal(&mut out, data.data_len as u64),
        }
        assert(out@ =~= self.text(data));
        out
    }

    fn constant_size(&self) -> (r: bool) {
        match self {
            OutputColumn::Direction => true,
            _ => false,
        }
    }

    fn alignment(&self) -> (r: Alignment) {
        match self {
            OutputColumn::ClientId | OutputColumn::DataLen => Alignment::Right,
            _ => Alignment::Left,
        }
    }
}

/// The log line used when the operator gives no format.
pub const DEFAULT_FORMAT: &'static str = "[tunnel %D] client: %C cid: %i dbuf: %l";

} // verus!
