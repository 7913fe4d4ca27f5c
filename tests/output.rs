use udp_tunnel::client::{DataPacketInfo, OutputColumn, DEFAULT_FORMAT};
use udp_tunnel::output::{ParseError, TableFormat};
use udp_tunnel::server;

fn row(to_tunnel: bool, cid: u8, data_len: usize) -> DataPacketInfo {
    DataPacketInfo {
        to_tunnel,
        client: "10.0.0.1:10000".to_string(),
        cid,
        tunnel: Some("0.0.0.0:4000".to_string()),
        data_len,
    }
}

#[test]
fn default_entry_format() {
    let mut t = TableFormat::<OutputColumn>::parse_spec(DEFAULT_FORMAT).unwrap();
    assert_eq!(t.format_row(&row(false, 3, 12)), "[tunnel =>] client: 10.0.0.1:10000 cid: 3 dbuf: 12");
    assert_eq!(t.format_row(&row(true, 3, 5)), "[tunnel <=] client: 10.0.0.1:10000 cid: 3 dbuf:  5");
}

#[test]
fn widths_grow_to_widest() {
    let mut t = TableFormat::<OutputColumn>::parse_spec("%i|%l|%d").unwrap();
    assert_eq!(t.format_row(&row(true, 5, 10)), "5|10|=>");
    assert_eq!(t.format_row(&row(false, 123, 7)), "123| 7|<=");
    assert_eq!(t.format_row(&row(true, 5, 3)), "  5| 3|=>");
}

#[test]
fn left_aligned_column_pads_after() {
    let mut t = TableFormat::<OutputColumn>::parse_spec("%t]").unwrap();
    let mut r = row(true, 1, 1);
    assert_eq!(t.format_row(&r), "0.0.0.0:4000]");
    r.tunnel = None;
    assert_eq!(t.format_row(&r), "???         ]");
}

#[test]
fn client_column_joins_id_and_tunnel() {
    let mut t = TableFormat::<OutputColumn>::parse_spec("%c %C").unwrap();
    assert_eq!(t.format_row(&row(true, 42, 0)), "42@0.0.0.0:4000 10.0.0.1:10000");
}

#[test]
fn percent_escape_and_errors() {
    let mut t = TableFormat::<OutputColumn>::parse_spec("100%% %l").unwrap();
    assert_eq!(t.format_row(&row(true, 0, 9)), "100% 9");
    assert!(matches!(TableFormat::<OutputColumn>::parse_spec("%x"), Err(ParseError::InvalidPart('x'))));
    assert!(matches!(TableFormat::<OutputColumn>::parse_spec("abc%"), Err(ParseError::Eof)));
    let mut plain = TableFormat::<OutputColumn>::parse_spec("").unwrap();
    assert_eq!(plain.format_row(&row(true, 0, 0)), "");
}

#[test]
fn bound_row_records_widths() {
    let mut t = TableFormat::<OutputColumn>::parse_spec("%l;").unwrap();
    let wide = row(true, 0, 12345);
    assert_eq!(t.bind(&wide).to_string(), "12345;");
    let narrow = row(true, 0, 1);
    assert_eq!(t.bind(&narrow).to_string(), "    1;");
}

#[test]
fn default_target_format() {
    let mut t = TableFormat::<server::OutputColumn>::parse_spec(server::DEFAULT_FORMAT).unwrap();
    let info = server::DataPacketInfo {
        to_tunnel: false,
        cid: 7,
        peer: "192.0.2.1:5000".to_string(),
        tunnel_socket: None,
        data_len: 4,
    };
    assert_eq!(t.format_row(&info), "[<= tunnel] client: 7@192.0.2.1:5000 lsock: ??? dbuf: 4");
    let mut p = TableFormat::<server::OutputColumn>::parse_spec("%p %i %D").unwrap();
    assert_eq!(p.format_row(&info), "192.0.2.1:5000 7 =>");
    assert!(TableFormat::<server::OutputColumn>::parse_spec("%C").is_err());
}
