use udp_tunnel::addr::PeerAddr;
use udp_tunnel::cache::{Cache, Error, SocketId};
use udp_tunnel::client;
use udp_tunnel::poll::poll_order;
use udp_tunnel::server::{self, ConnId};

const TIMEOUT: i64 = 60_000_000;

#[test]
fn entry_frames_external_datagrams() {
    let mut c = Cache::new(TIMEOUT);
    let a = PeerAddr::V4 { ip: 1, port: 10000 };
    let mut buf = vec![0, 0, b'h', b'i'];
    assert_eq!(client::into_tunnel_at(&mut c, a, &mut buf, 0), Ok(0));
    assert_eq!(buf, vec![0x10, 0, b'h', b'i']);
    let mut back = buf.clone();
    assert_eq!(client::from_tunnel_at(&mut c, &back, 1), client::TunnelAction::ToPeer { addr: a });
    back[1] = 3;
    assert_eq!(client::from_tunnel_at(&mut c, &back, 1), client::TunnelAction::UnknownId { id: 3 });
}

#[test]
fn entry_drops_when_full() {
    let mut c = Cache::new(TIMEOUT);
    for n in 0..256u32 {
        c.insert_at(None, PeerAddr::V4 { ip: n, port: 1 }, 0).unwrap();
    }
    let mut buf = vec![7, 7, 1];
    let r = client::into_tunnel_at(&mut c, PeerAddr::V4 { ip: 999, port: 1 }, &mut buf, 1);
    assert_eq!(r, Err(Error::NoFreeSlots));
    assert_eq!(buf, vec![7, 7, 1]);
}

#[test]
fn malformed_tunnel_datagram_leaves_cache() {
    let mut c = Cache::new(TIMEOUT);
    let a = PeerAddr::V4 { ip: 1, port: 10000 };
    c.insert_at(None, a, 0).unwrap();
    assert_eq!(
        client::from_tunnel_at(&mut c, &[0x42, 0x00], 1),
        client::TunnelAction::InvalidType { kind: 0x42 }
    );
    assert_eq!(client::from_tunnel_at(&mut c, &[], 1), client::TunnelAction::Ignore);
    assert_eq!(client::from_tunnel_at(&mut c, &[0x10], 1), client::TunnelAction::ShortData);
    assert_eq!(client::from_tunnel_at(&mut c, &[0x00], 1), client::TunnelAction::RespondConnect);
    assert_eq!(c.get_by_id_at(0, 2), Some(SocketId { id: 0, addr: a }));
    assert_eq!(client::from_tunnel(&mut c, &[0x42]), client::TunnelAction::InvalidType { kind: 0x42 });
}

#[test]
fn target_dispatch() {
    let peer = PeerAddr::V4 { ip: 2, port: 9000 };
    assert_eq!(
        server::from_tunnel(&[0x10, 4, 1, 2], peer),
        server::TunnelAction::Forward { id: ConnId { from: peer, cid: 4 } }
    );
    assert_eq!(server::from_tunnel(&[0x10], peer), server::TunnelAction::ShortData);
    assert_eq!(server::from_tunnel(&[0x42, 0x00], peer), server::TunnelAction::InvalidType { kind: 0x42 });
    assert_eq!(server::from_tunnel(&[], peer), server::TunnelAction::Ignore);
    assert_eq!(server::from_tunnel(&[0x00], peer), server::TunnelAction::RespondConnect);
    let mut buf = vec![0, 0, 9, 9];
    server::into_tunnel(ConnId::new(peer, 4), &mut buf);
    assert_eq!(buf, vec![0x10, 4, 9, 9]);
}

#[test]
fn entry_clock_variant() {
    let mut c = Cache::new(TIMEOUT);
    let mut buf = vec![0, 0];
    assert_eq!(client::into_tunnel(&mut c, PeerAddr::V4 { ip: 5, port: 5 }, &mut buf), Ok(0));
    assert_eq!(buf, vec![0x10, 0]);
}

#[test]
fn poll_order_is_a_permutation() {
    for n in [0usize, 1, 2, 7] {
        let mut o = poll_order(n);
        o.sort();
        assert_eq!(o, (0..n).collect::<Vec<_>>());
    }
}

#[test]
fn poll_order_is_fair() {
    let k = 4;
    let n = 8000;
    let mut first = vec![0usize; k];
    for _ in 0..n {
        first[poll_order(k)[0]] += 1;
    }
    for count in first {
        assert!(count > n / k - 300 && count < n / k + 300, "skewed: {}", count);
    }
}
