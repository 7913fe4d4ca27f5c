use udp_tunnel::addr::PeerAddr;
use udp_tunnel::cache::{Cache, Error, SocketId};

const SEC: i64 = 1_000_000;
const TIMEOUT: i64 = 60 * SEC;

fn peer(n: u32, port: u16) -> PeerAddr {
    PeerAddr::V4 { ip: 0x0A00_0000 + n, port }
}

#[test]
fn single_client_gets_id_zero() {
    let mut c = Cache::new(TIMEOUT);
    let a = peer(1, 10000);
    assert_eq!(c.get_or_insert_by_addr_at(a, 0), Ok(SocketId { id: 0, addr: a }));
    assert_eq!(c.get_by_id_at(0, SEC), Some(SocketId { id: 0, addr: a }));
    assert_eq!(c.get_by_addr_at(a, SEC), Some(SocketId { id: 0, addr: a }));
    assert_eq!(c.get_by_id_at(1, SEC), None);
    assert_eq!(c.get_or_insert_by_addr_at(a, 2 * SEC), Ok(SocketId { id: 0, addr: a }));
}

#[test]
fn two_clients_distinct_ids() {
    let mut c = Cache::new(TIMEOUT);
    let a = peer(1, 10000);
    let b = peer(2, 10001);
    assert_eq!(c.get_or_insert_by_addr_at(a, 0).unwrap().id, 0);
    assert_eq!(c.get_or_insert_by_addr_at(b, SEC).unwrap().id, 1);
    assert_eq!(c.get_by_id_at(0, 2 * SEC).unwrap().addr, a);
    assert_eq!(c.get_by_id_at(1, 2 * SEC).unwrap().addr, b);
}

#[test]
fn id_reused_after_expiry() {
    let mut c = Cache::new(TIMEOUT);
    let a = peer(1, 10000);
    let b = peer(2, 10001);
    assert_eq!(c.get_or_insert_by_addr_at(a, 0).unwrap().id, 0);
    let later = TIMEOUT + SEC;
    assert_eq!(c.get_or_insert_by_addr_at(b, later), Ok(SocketId { id: 0, addr: b }));
    assert_eq!(c.get_by_addr_at(a, later), None);
    assert_eq!(c.get_by_id_at(0, later), Some(SocketId { id: 0, addr: b }));
}

#[test]
fn full_table_refuses_more() {
    let mut c = Cache::new(TIMEOUT);
    for n in 0..256u32 {
        let r = c.get_or_insert_by_addr_at(peer(n, 20000), n as i64);
        assert_eq!(r.unwrap().id as u32, n);
    }
    assert_eq!(c.get_or_insert_by_addr_at(peer(999, 20000), 300), Err(Error::NoFreeSlots));
    assert_eq!(c.get_by_id_at(5, 400), Some(SocketId { id: 5, addr: peer(5, 20000) }));
    assert_eq!(c.get_by_addr_at(peer(255, 20000), 400).unwrap().id, 255);
}

#[test]
fn expired_entry_is_not_revived() {
    let mut c = Cache::new(TIMEOUT);
    let a = peer(1, 10000);
    c.insert_at(None, a, 0).unwrap();
    assert_eq!(c.get_by_id_at(0, TIMEOUT + 1), None);
    assert_eq!(c.get_by_addr_at(a, TIMEOUT + 2), None);
    assert_eq!(c.get_by_id_at(0, 10), None);
    c.cleanup();
    assert_eq!(c.get_by_id_at(0, 10), None);
}

#[test]
fn entry_exactly_at_timeout_is_live() {
    let mut c = Cache::new(TIMEOUT);
    let a = peer(1, 10000);
    c.insert_at(None, a, 0).unwrap();
    assert_eq!(c.get_by_id_at(0, TIMEOUT), Some(SocketId { id: 0, addr: a }));
}

#[test]
fn lookup_renews_last_access() {
    let mut c = Cache::new(TIMEOUT);
    let a = peer(1, 10000);
    c.insert_at(None, a, 0).unwrap();
    assert!(c.get_by_addr_at(a, 50 * SEC).is_some());
    assert!(c.get_by_id_at(0, 100 * SEC).is_some());
    assert!(c.get_by_id_at(0, 161 * SEC).is_none());
}

#[test]
fn lookups_by_id_and_address_agree() {
    let mut c = Cache::new(TIMEOUT);
    let peers = [peer(1, 1), peer(2, 2), peer(3, 3)];
    for p in peers {
        c.get_or_insert_by_addr_at(p, 0).unwrap();
    }
    for (i, p) in peers.iter().enumerate() {
        let by_id = c.get_by_id_at(i as u8, SEC).unwrap();
        let by_addr = c.get_by_addr_at(*p, SEC).unwrap();
        assert_eq!(by_id, by_addr);
        assert_eq!(by_id.addr, *p);
    }
}

#[test]
fn lowest_free_id_after_expirations() {
    let mut c = Cache::new(TIMEOUT);
    let (a, b, d) = (peer(1, 1), peer(2, 2), peer(3, 3));
    assert_eq!(c.get_or_insert_by_addr_at(a, 0).unwrap().id, 0);
    assert_eq!(c.get_or_insert_by_addr_at(b, 10 * SEC).unwrap().id, 1);
    assert_eq!(c.get_or_insert_by_addr_at(d, 20 * SEC).unwrap().id, 2);
    assert_eq!(c.get_or_insert_by_addr_at(peer(4, 4), 65 * SEC).unwrap().id, 0);
    assert_eq!(c.get_or_insert_by_addr_at(peer(5, 5), 75 * SEC).unwrap().id, 1);
    assert_eq!(c.get_or_insert_by_addr_at(peer(6, 6), 76 * SEC).unwrap().id, 3);
}

#[test]
fn explicit_id_replaces_holders() {
    let mut c = Cache::new(TIMEOUT);
    let (a, b) = (peer(1, 1), peer(2, 2));
    c.insert_at(None, a, 0).unwrap();
    c.insert_at(None, b, 0).unwrap();
    assert_eq!(c.insert_at(Some(0), b, SEC), Ok(SocketId { id: 0, addr: b }));
    assert_eq!(c.get_by_id_at(0, 2 * SEC).unwrap().addr, b);
    assert_eq!(c.get_by_id_at(1, 2 * SEC), None);
    assert_eq!(c.get_by_addr_at(a, 2 * SEC), None);
    assert_eq!(c.get_by_addr_at(b, 2 * SEC).unwrap().id, 0);
}

#[test]
fn clock_reading_variants() {
    let mut c = Cache::new(TIMEOUT);
    let a = peer(1, 10000);
    assert_eq!(c.get_or_insert_by_addr(a), Ok(SocketId { id: 0, addr: a }));
    assert_eq!(c.get_by_id(0), Some(SocketId { id: 0, addr: a }));
    assert_eq!(c.get_by_addr(a), Some(SocketId { id: 0, addr: a }));
    assert_eq!(c.insert(None, peer(2, 2)).unwrap().id, 1);
}
