use udp_tunnel::addr::PeerAddr;
use udp_tunnel::server::ConnId;
use udp_tunnel::server_cache::Cache;

const SEC: i64 = 1_000_000;
const TIMEOUT: i64 = 60 * SEC;

fn runtime() -> tokio::runtime::Runtime {
    tokio::runtime::Builder::new_current_thread().enable_all().build().unwrap()
}

fn socket(rt: &tokio::runtime::Runtime) -> tokio::net::UdpSocket {
    rt.block_on(tokio::net::UdpSocket::bind("127.0.0.1:0")).unwrap()
}

fn flow(cid: u8) -> ConnId {
    ConnId::new(PeerAddr::V4 { ip: 0x7F00_0001, port: 9000 }, cid)
}

#[test]
fn flows_get_their_own_sockets() {
    let rt = runtime();
    let mut c = Cache::new(TIMEOUT);
    let s0 = socket(&rt);
    let s1 = socket(&rt);
    let a0 = s0.local_addr().unwrap();
    let a1 = s1.local_addr().unwrap();
    assert_ne!(a0, a1);
    assert_eq!(c.insert_at(flow(0), s0, 0).id, flow(0));
    assert_eq!(c.insert_at(flow(1), s1, 0).id, flow(1));
    assert_eq!(c.len_max(), 2);
    let e0 = c.get_by_id_mut_at(flow(0), SEC).unwrap();
    assert_eq!(e0.socket.local_addr().unwrap(), a0);
    let e1 = c.get_by_id_mut_at(flow(1), SEC).unwrap();
    assert_eq!(e1.socket.local_addr().unwrap(), a1);
    assert!(c.get_by_id_mut_at(flow(2), SEC).is_none());
}

#[test]
fn expired_flow_is_dropped_at_next_insert() {
    let rt = runtime();
    let mut c = Cache::new(TIMEOUT);
    c.insert_at(flow(0), socket(&rt), 0);
    assert!(c.get_by_id_mut_at(flow(0), TIMEOUT + 1).is_none());
    assert!(c.get_by_id_mut_at(flow(0), 5).is_none());
    assert_eq!(c.len_max(), 1);
    c.insert_at(flow(1), socket(&rt), TIMEOUT + 2);
    assert_eq!(c.len_max(), 1);
    assert!(c.get_by_id_mut_at(flow(0), TIMEOUT + 3).is_none());
}

#[test]
fn iteration_lists_live_flows_once() {
    let rt = runtime();
    let mut c = Cache::new(TIMEOUT);
    c.insert_at(flow(0), socket(&rt), 0);
    c.insert_at(flow(1), socket(&rt), 30 * SEC);
    c.insert_at(flow(2), socket(&rt), 40 * SEC);
    let mut ids: Vec<u8> = c.iter_at(70 * SEC).iter().map(|e| e.id.cid).collect();
    ids.sort();
    assert_eq!(ids, vec![1, 2]);
    c.cleanup();
    assert_eq!(c.len_max(), 2);
    assert!(c.get_by_id_mut_at(flow(1), 70 * SEC).is_some());
}

#[test]
fn reinsert_replaces_socket() {
    let rt = runtime();
    let mut c = Cache::new(TIMEOUT);
    c.insert_at(flow(3), socket(&rt), 0);
    let fresh = socket(&rt);
    let addr = fresh.local_addr().unwrap();
    c.insert_at(flow(3), fresh, SEC);
    assert_eq!(c.len_max(), 1);
    assert_eq!(c.get_by_id_mut_at(flow(3), 2 * SEC).unwrap().socket.local_addr().unwrap(), addr);
}

#[test]
fn clock_reading_flow_variants() {
    let rt = runtime();
    let mut c = Cache::new(TIMEOUT);
    assert_eq!(c.insert(flow(9), socket(&rt)).id, flow(9));
    assert!(c.get_by_id_mut(flow(9)).is_some());
    assert_eq!(c.iter().len(), 1);
}

#[test]
fn idle_flow_swept_by_insert() {
    let rt = runtime();
    let mut c = Cache::new(TIMEOUT);
    c.insert_at(flow(0), socket(&rt), 0);
    c.insert_at(flow(1), socket(&rt), 30 * SEC);
    c.insert_at(flow(2), socket(&rt), TIMEOUT + SEC);
    assert_eq!(c.len_max(), 2);
    assert!(c.get_by_id_mut_at(flow(0), TIMEOUT + SEC).is_none());
    assert!(c.get_by_id_mut_at(flow(1), TIMEOUT + SEC).is_some());
}

#[test]
fn iteration_renews_live_flows() {
    let rt = runtime();
    let mut c = Cache::new(TIMEOUT);
    c.insert_at(flow(0), socket(&rt), 0);
    assert_eq!(c.iter_at(50 * SEC).len(), 1);
    assert!(c.get_by_id_mut_at(flow(0), 100 * SEC).is_some());
    c.insert_at(flow(1), socket(&rt), 100 * SEC);
    assert_eq!(c.iter_at(150 * SEC).len(), 2);
    assert_eq!(c.iter_at(205 * SEC).len(), 2);
    assert_eq!(c.iter_at(266 * SEC).len(), 0);
}
