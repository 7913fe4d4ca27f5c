use vstd::prelude::*;

use crate::addr::PeerAddr;
use crate::proto::{conn_ack, PACKET_CONN_ACK, PROTO_VERSION};

verus! {

/// Lets Verus name `std::io::Error`, which the socket errors carry.
#[verifier::external_type_specification]
#[verifier::external_body]
pub struct ExIoError(std::io::Error);

/// Relies on `String::push`: appends one character.
#[verifier::external_body]
pub(crate) fn push_char(s: &mut String, c: char)
    ensures
        final(s)@ == old(s)@.push(c),
{
    s.push(c);
}

/// Relies on chrono's `Local::now`, read as microseconds since the Unix
/// epoch by `DateTime::timestamp_micros`: the wall-clock time, of which
/// nothing is promised.
#[verifier::external_body]
pub(crate) fn now_micros() -> (r: i64) {
    chrono::Local::now().timestamp_micros()
}

/// Which address families the sockets use.
#[derive(Debug, Clone, Copy, Eq, PartialEq, Structural)]
pub enum IpMode {
    Both,
    V4Only,
    V6Only,
}

/// The wildcard address with an ephemeral port, in the family the mode asks for.
pub open spec fn listen_ip_spec(mode: IpMode) -> PeerAddr {
    match mode {
        IpMode::V4Only => PeerAddr::V4 { ip: 0, port: 0 },
        _ => PeerAddr::V6 { ip: 0, port: 0, flowinfo: 0, scope_id: 0 },
    }
}

/// The local address a socket binds to when none is configured.
pub fn default_listen_ip(mode: IpMode) -> (r: PeerAddr)
    ensures
        r == listen_ip_spec(mode),
{
    match mode {
        IpMode::V4Only => PeerAddr::V4 { ip: 0, port: 0 },
        IpMode::Both | IpMode::V6Only => PeerAddr::V6 { ip: 0, port: 0, flowinfo: 0, scope_id: 0 },
    }
}

/// A log-line format: the built-in one or one given by the operator.
pub enum Format<'a> {
    Default,
    Custom(&'a str),
}

impl<'a> Format<'a> {
    /// The format string, with `default` standing for the built-in one.
    pub fn with_default(&'a self, default: &'a str) -> (r: &'a str)
        ensures
            r@ == (match self {
                Format::Default => default@,
                Format::Custom(c) => c@,
            }),
    {
        match self {
            Format::Default => default,
            Format::Custom(c) => c,
        }
    }
}

/// Bytes shown as upper-case hex pairs separated by spaces.
#[derive(Debug, Eq, PartialEq, Clone, Copy)]
pub struct HexFormat<T>(T);

impl<T> HexFormat<T> {
    pub closed spec fn inner(&self) -> T {
        self.0
    }

    pub fn new(t: T) -> (r: HexFormat<T>)
        ensures
            r.inner() == t,
    {
        HexFormat(t)
    }

    pub fn into_inner(self) -> (r: T)
        ensures
            r == self.inner(),
    {
        self.0
    }
}

impl HexFormat<Vec<u8>> {
    pub fn to_string(&self) -> (r: String)
        ensures
            r@ == hex_spec(self.inner()@),
    {
        hex_string(self.0.as_slice())
    }
}

impl HexFormat<[u8; 3]> {
    pub fn to_string(&self) -> (r: String)
        ensures
            r@ == hex_spec(self.inner()@),
    {
        hex_string(&self.0)
    }
}

/// The upper-case hex digit of `d`, for `d < 16`.
pub open spec fn hex_digit(d: u8) -> char {
    if d < 10 {
        (48u8 + d) as char
    } else {
        (65u8 + (d - 10)) as char
    }
}

/// A byte as two hex digits.
pub open spec fn byte_hex(b: u8) -> Seq<char> {
    seq![hex_digit(b / 16), hex_digit(b % 16)]
}

/// Bytes as hex pairs separated by single spaces.
pub open spec fn hex_spec(s: Seq<u8>) -> Seq<char>
    decreases s.len(),
{
    if s.len() == 0 {
        Seq::empty()
    } else if s.len() == 1 {
        byte_hex(s[0])
    } else {
        hex_spec(s.drop_last()) + seq![' '] + byte_hex(s.last())
    }
}

fn digit_char(d: u8) -> (c: char)
    requires
        d < 16,
    ensures
        c == hex_digit(d),
{
    if d < 10 {
        (48u8 + d) as char
    } else {
        (65u8 + (d - 10)) as char
    }
}

/// Formats bytes as upper-case hex pairs separated by spaces.
pub fn hex_string(bytes: &[u8]) -> (r: String)
    ensures
        r@ == hex_spec(bytes@),
{
    let mut r = String::new();
    let mut i: usize = 0;
    while i < bytes.len()
        invariant
            i <= bytes@.len(),
            r@ == hex_spec(bytes@.subrange(0, i as int)),
        decreases bytes@.len() - i,
    {
        let b = bytes[i];
        if i > 0 {
            push_char(&mut r, ' ');
        }
        push_char(&mut r, digit_char(b / 16));
        push_char(&mut r, digit_char(b % 16));
        proof {
            let s = bytes@.subrange(0, i + 1);
            assert(s.drop_last() =~= bytes@.subrange(0, i as int));
            assert(s.last() == b);
            if i == 0 {
                assert(r@ =~= byte_hex(b));
            } else {
                assert(r@ =~= hex_spec(s.drop_last()) + seq![' '] + byte_hex(b));
            }
        }
        i += 1;
    }
    assert(bytes@.subrange(0, bytes@.len() as int) =~= bytes@);
    r
}

/// Why the tunnel could not be set up.
#[derive(Debug)]
pub enum Error {
    TunnelSocketBind(std::io::Error),
    RemoteConnect(std::io::Error),
    ConnectSend(std::io::Error),
    ConnectRecv(std::io::Error),
    /// The peer answered the connect request with something else than the
    /// expected acknowledgement.
    ConnectResponse { response: HexFormat<Vec<u8>>, expected: HexFormat<[u8; 3]> },
}

/// Checks the answer to a connect request: it must be exactly
/// `{CONN_ACK, remote_type, version}`.
pub fn check_connect_response(response: &[u8], remote_type: u8) -> (r: Result<(), Error>)
    ensures
        r is Ok <==> response@ == conn_ack(remote_type),
        r matches Err(e) ==> e matches Error::ConnectResponse { response: got, expected }
            && got.inner()@ == response@ && expected.inner()@ == conn_ack(remote_type),
{
    let expected: [u8; 3] = [PACKET_CONN_ACK, remote_type, PROTO_VERSION];
    assert(expected@ =~= conn_ack(remote_type));
    let same = response.len() == 3 && response[0] == expected[0] && response[1] == expected[1]
        && response[2] == expected[2];
    if same {
        assert(response@ =~= conn_ack(remote_type));
        Ok(())
    } else {
        assert(response@ != conn_ack(remote_type)) by {
            if response@ == conn_ack(remote_type) {
                assert(response@[0] == expected@[0]);
                assert(response@[1] == expected@[1]);
                assert(response@[2] == expected@[2]);
            }
        }
        let mut got: Vec<u8> = Vec::new();
        let mut i: usize = 0;
        while i < response.len()
            invariant
                i <= response@.len(),
                got@ == response@.subrange(0, i as int),
            decreases response@.len() - i,
        {
            got.push(response[i]);
            i += 1;
            assert(got@ =~= response@.subrange(0, i as int));
        }
        assert(response@.subrange(0, response@.len() as int) =~= response@);
        Err(Error::ConnectResponse { response: HexFormat::new(got), expected: HexFormat::new(expected) })
    }
}

/// Appending `x` to a sequence adds `x` to its set of elements.
pub proof fn lemma_push_to_set<A>(s: Seq<A>, x: A)
    ensures
        s.push(x).to_set() == s.to_set().insert(x),
{
    assert forall|y: A| #[trigger] s.push(x).to_set().contains(y) implies s.to_set().insert(
        x,
    ).contains(y) by {
        let i = choose|i: int| 0 <= i < s.push(x).len() && s.push(x)[i] == y;
        if i < s.len() {
            assert(s[i] == y);
        }
    }
    assert forall|y: A| #[trigger] s.to_set().insert(x).contains(y) implies s.push(
        x,
    ).to_set().contains(y) by {
        if y == x {
            assert(s.push(x)[s.len() as int] == y);
        } else {
            let i = choose|i: int| 0 <= i < s.len() && s[i] == y;
            assert(s.push(x)[i] == y);
        }
    }
    assert(s.push(x).to_set() =~= s.to_set().insert(x));
}

} // verus!
