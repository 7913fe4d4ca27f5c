use udp_tunnel::addr::PeerAddr;
use udp_tunnel::common::{
    check_connect_response, default_listen_ip, hex_string, Error, Format, HexFormat, IpMode,
};
use udp_tunnel::proto::{TYPE_CLIENT, TYPE_SERVER};

#[test]
fn handshake_accepts_expected_ack() {
    assert!(check_connect_response(&[0x01, 0x00, 0x01], TYPE_SERVER).is_ok());
    assert!(check_connect_response(&[0x01, 0x01, 0x01], TYPE_CLIENT).is_ok());
}

#[test]
fn handshake_wrong_version() {
    match check_connect_response(&[0x01, 0x01, 0x02], TYPE_CLIENT) {
        Err(Error::ConnectResponse { response, expected }) => {
            assert_eq!(response.to_string(), "01 01 02");
            assert_eq!(expected.to_string(), "01 01 01");
            assert_eq!(response.into_inner(), vec![1, 1, 2]);
        }
        _ => panic!("expected a response mismatch"),
    }
}

#[test]
fn handshake_wrong_role() {
    assert!(matches!(
        check_connect_response(&[0x01, 0x00, 0x01], TYPE_CLIENT),
        Err(Error::ConnectResponse { .. })
    ));
}

#[test]
fn handshake_wrong_length() {
    assert!(check_connect_response(&[0x01, 0x00], TYPE_SERVER).is_err());
    assert!(check_connect_response(&[0x01, 0x00, 0x01, 0x00], TYPE_SERVER).is_err());
    assert!(check_connect_response(&[], TYPE_SERVER).is_err());
}

#[test]
fn hex_formatting() {
    assert_eq!(hex_string(&[]), "");
    assert_eq!(hex_string(&[0x0f]), "0F");
    assert_eq!(hex_string(&[0x01, 0xab, 0x10]), "01 AB 10");
    assert_eq!(HexFormat::new([0x01u8, 0x00, 0x01]).to_string(), "01 00 01");
}

#[test]
fn listen_addresses() {
    assert_eq!(default_listen_ip(IpMode::V4Only), PeerAddr::V4 { ip: 0, port: 0 });
    let v6 = PeerAddr::V6 { ip: 0, port: 0, flowinfo: 0, scope_id: 0 };
    assert_eq!(default_listen_ip(IpMode::V6Only), v6);
    assert_eq!(default_listen_ip(IpMode::Both), v6);
}

#[test]
fn format_defaults() {
    assert_eq!(Format::Default.with_default("dflt"), "dflt");
    assert_eq!(Format::Custom("%l").with_default("dflt"), "%l");
}

#[test]
fn ipv4_constructor() {
    assert_eq!(PeerAddr::v4(10, 0, 0, 1, 80), PeerAddr::V4 { ip: 0x0A00_0001, port: 80 });
    assert_eq!(PeerAddr::v4(10, 0, 0, 1, 80).port(), 80);
}
