//! Source-address patterns for the target's per-flow sockets: `A.B.C.D:P`,
//! each component a number or a `lo-hi` range whose upper bound is
//! excluded; a fresh address is drawn from the pattern for each new flow.

use vstd::prelude::*;

use rand::Rng;

use crate::addr::{ipv4_bits, PeerAddr};

verus! {

/// Relies on rand's `Rng::gen_range` on the thread-local generator: a value
/// in `[start, end)`. It panics on an empty range, which `requires` leaves out.
#[verifier::external_body]
fn random_in(start: u16, end: u16) -> (r: u16)
    requires
        start < end,
    ensures
        start <= r < end,
{
    rand::thread_rng().gen_range(start..end)
}

/// One component of a pattern: a fixed value, or a range without its end.
#[derive(Copy, Clone, Debug, Eq, PartialEq)]
pub enum Range<T> {
    Single(T),
    Exclusive { start: T, end: T },
}

impl Range<u8> {
    /// The range holds at least one value.
    pub open spec fn wf(&self) -> bool {
        *self matches Range::Exclusive { start, end } ==> start < end
    }

    pub open spec fn contains(&self, v: u8) -> bool {
        match self {
            Range::Single(s) => v == *s,
            Range::Exclusive { start, end } => *start <= v < *end,
        }
    }

    /// A value drawn from the range.
    pub fn get_random(&self) -> (r: u8)
        requires
            self.wf(),
        ensures
            self.contains(r),
    {
        match *self {
            Range::Single(s) => s,
            Range::Exclusive { start, end } => random_in(start as u16, end as u16) as u8,
        }
    }
}

impl Range<u16> {
    /// The range holds at least one value.
    pub open spec fn wf(&self) -> bool {
        *self matches Range::Exclusive { start, end } ==> start < end
    }

    pub open spec fn contains(&self, v: u16) -> bool {
        match self {
            Range::Single(s) => v == *s,
            Range::Exclusive { start, end } => *start <= v < *end,
        }
    }

    /// A value drawn from the range.
    pub fn get_random(&self) -> (r: u16)
        requires
            self.wf(),
        ensures
            self.contains(r),
    {
        match *self {
            Range::Single(s) => s,
            Range::Exclusive { start, end } => random_in(start, end),
        }
    }
}

/// The value of a decimal digit character.
pub open spec fn digit_value(c: char) -> int {
    c as int - '0' as int
}

pub open spec fn is_digit(c: char) -> bool {
    '0' <= c <= '9'
}

/// The value of a string of decimal digits.
pub open spec fn decimal_value(s: Seq<char>) -> int
    decreases s.len(),
{
    if s.len() == 0 {
        0
    } else {
        decimal_value(s.drop_last()) * 10 + digit_value(s.last())
    }
}

pub open spec fn all_digits(d: Seq<char>) -> bool {
    forall|i: int| 0 <= i < d.len() ==> is_digit(#[trigger] d[i])
}

/// `s` without a leading `+`.
pub open spec fn unsigned_digits(s: Seq<char>) -> Seq<char> {
    if s.len() > 0 && s[0] == '+' {
        s.drop_first()
    } else {
        s
    }
}

/// An unsigned number no larger than `max`: an optional `+` and at least
/// one decimal digit.
pub open spec fn number_spec(s: Seq<char>, max: int) -> Option<int> {
    let d = unsigned_digits(s);
    if d.len() > 0 && all_digits(d) && decimal_value(d) <= max {
        Some(decimal_value(d))
    } else {
        None
    }
}

/// The position of the first `c` in `s` at or after `i`.
pub open spec fn index_from(s: Seq<char>, c: char, i: int) -> Option<int>
    decreases s.len() - i,
{
    if i < 0 || i >= s.len() {
        None
    } else if s[i] == c {
        Some(i)
    } else {
        index_from(s, c, i + 1)
    }
}

proof fn lemma_index_from_bounds(s: Seq<char>, c: char, i: int)
    ensures
        index_from(s, c, i) matches Some(k) ==> i <= k < s.len() && s[k] == c,
    decreases s.len() - i,
{
    if 0 <= i < s.len() && s[i] != c {
        lemma_index_from_bounds(s, c, i + 1);
    }
}

/// A component no larger than `max`: `n`, or `lo-hi` with `lo < hi`.
pub open spec fn range_spec(s: Seq<char>, max: int) -> Option<(int, Option<int>)> {
    match index_from(s, '-', 0) {
        None => match number_spec(s, max) {
            Some(v) => Some((v, None)),
            None => None,
        },
        Some(k) => match (number_spec(s.subrange(0, k), max), number_spec(s.subrange(k + 1, s.len() as int), max)) {
            (Some(a), Some(b)) => if a < b {
                Some((a, Some(b)))
            } else {
                None
            },
            _ => None,
        },
    }
}

proof fn lemma_decimal_nonneg(s: Seq<char>)
    requires
        forall|i: int| 0 <= i < s.len() ==> is_digit(#[trigger] s[i]),
    ensures
        decimal_value(s) >= 0,
    decreases s.len(),
{
    if s.len() > 0 {
        lemma_decimal_nonneg(s.drop_last());
    }
}

/// A prefix of a digit string is worth no more than the whole.
proof fn lemma_decimal_prefix(s: Seq<char>, j: int)
    requires
        0 <= j <= s.len(),
        forall|i: int| 0 <= i < s.len() ==> is_digit(#[trigger] s[i]),
    ensures
        decimal_value(s.subrange(0, j)) <= decimal_value(s),
    decreases s.len() - j,
{
    if j == s.len() {
        assert(s.subrange(0, j) =~= s);
    } else {
        let t = s.subrange(0, j + 1);
        assert(t.drop_last() =~= s.subrange(0, j));
        lemma_decimal_nonneg(s.subrange(0, j));
        lemma_decimal_prefix(s, j + 1);
    }
}

/// The characters of `s`.
fn chars_of(s: &str) -> (r: Vec<char>)
    ensures
        r@ == s@,
{
    let n = s.unicode_len();
    let mut r: Vec<char> = Vec::new();
    let mut i: usize = 0;
    while i < n
        invariant
            n == s@.len(),
            i <= n,
            r@ == s@.subrange(0, i as int),
        decreases n - i,
    {
        r.push(s.get_char(i));
        i += 1;
        assert(r@ =~= s@.subrange(0, i as int));
    }
    assert(s@.subrange(0, n as int) =~= s@);
    r
}

/// The position of the first `c` in `cs[lo..hi]`.
fn find_char(cs: &Vec<char>, lo: usize, hi: usize, c: char) -> (r: Option<usize>)
    requires
        lo <= hi <= cs@.len(),
    ensures
        r matches Some(k) ==> lo <= k < hi,
        index_from(cs@.subrange(lo as int, hi as int), c, 0) matches Some(k) ==> 0 <= k < hi - lo,
        r == (match index_from(cs@.subrange(lo as int, hi as int), c, 0) {
            Some(k) => Some((k + lo) as usize),
            None => None::<usize>,
        }),
{
    let ghost s = cs@.subrange(lo as int, hi as int);
    proof {
        lemma_index_from_bounds(s, c, 0);
    }
    let mut i: usize = lo;
    while i < hi
        invariant
            lo <= i <= hi,
            hi <= cs@.len(),
            s == cs@.subrange(lo as int, hi as int),
            index_from(s, c, 0) == index_from(s, c, i - lo),
        decreases hi - i,
    {
        if cs[i] == c {
            return Some(i);
        }
        i += 1;
    }
    None
}

/// Reads the number in `cs[lo..hi]`, if it is one no larger than `max`.
fn parse_number(cs: &Vec<char>, lo: usize, hi: usize, max: u32) -> (r: Option<u32>)
    requires
        lo <= hi <= cs@.len(),
        max <= 65535,
    ensures
        r matches Some(v) ==> v <= max,
        number_spec(cs@.subrange(lo as int, hi as int), max as int) matches Some(v) ==> 0 <= v
            <= max,
        r == (match number_spec(cs@.subrange(lo as int, hi as int), max as int) {
            Some(v) => Some(v as u32),
            None => None::<u32>,
        }),
{
    let ghost s = cs@.subrange(lo as int, hi as int);
    let mut start = lo;
    if lo < hi && cs[lo] == '+' {
        start = lo + 1;
    }
    let ghost d = cs@.subrange(start as int, hi as int);
    assert(d =~= unsigned_digits(s));
    if start >= hi {
        return None;
    }
    proof {
        if all_digits(d) {
            lemma_decimal_nonneg(d);
        }
    }
    let mut v: u32 = 0;
    let mut i: usize = start;
    while i < hi
        invariant
            start <= i <= hi,
            hi <= cs@.len(),
            max <= 65535,
            s == cs@.subrange(lo as int, hi as int),
            d == cs@.subrange(start as int, hi as int),
            d == unsigned_digits(s),
            d.len() > 0,
            all_digits(d) ==> decimal_value(d) >= 0,
            v <= max,
            v == decimal_value(d.subrange(0, i - start)),
            forall|j: int| 0 <= j < i - start ==> is_digit(#[trigger] d[j]),
        decreases hi - i,
    {
        let c = cs[i];
        if !('0' <= c && c <= '9') {
            assert(!is_digit(d[i - start]));
            return None;
        }
        let dv: u32 = (c as u32) - ('0' as u32);
        let nv: u32 = v * 10 + dv;
        proof {
            assert(d.subrange(0, i - start + 1).drop_last() =~= d.subrange(0, i - start));
            assert(nv == decimal_value(d.subrange(0, i - start + 1)));
        }
        if nv > max {
            proof {
                if all_digits(d) {
                    lemma_decimal_prefix(d, i - start + 1);
                }
            }
            return None;
        }
        v = nv;
        i += 1;
    }
    assert(d.subrange(0, d.len() as int) =~= d);
    Some(v)
}

/// Reads a component `n` or `lo-hi` in `cs[lo..hi]`, no larger than `max`.
fn parse_range(cs: &Vec<char>, lo: usize, hi: usize, max: u32) -> (r: Option<(u32, Option<u32>)>)
    requires
        lo <= hi <= cs@.len(),
        max <= 65535,
    ensures
        r matches Some((a, b)) ==> a <= max && (b matches Some(e) ==> a < e <= max),
        range_spec(cs@.subrange(lo as int, hi as int), max as int) matches Some((a, b)) ==> 0 <= a
            <= max && (b matches Some(e) ==> a < e <= max),
        r == (match range_spec(cs@.subrange(lo as int, hi as int), max as int) {
            Some((a, b)) => Some(
                (
                    a as u32,
                    match b {
                        Some(e) => Some(e as u32),
                        None => None::<u32>,
                    },
                ),
            ),
            None => None::<(u32, Option<u32>)>,
        }),
{
    let ghost s = cs@.subrange(lo as int, hi as int);
    match find_char(cs, lo, hi, '-') {
        None => match parse_number(cs, lo, hi, max) {
            Some(v) => {
                assert(index_from(s, '-', 0) is None);
                Some((v, None))
            },
            None => None,
        },
        Some(k) => {
            assert(index_from(s, '-', 0) == Some((k - lo) as int));
            assert(s.subrange(0, k - lo) =~= cs@.subrange(lo as int, k as int));
            assert(s.subrange(k - lo + 1, s.len() as int) =~= cs@.subrange(k + 1, hi as int));
            let a = parse_number(cs, lo, k, max);
            let b = parse_number(cs, k + 1, hi, max);
            match (a, b) {
                (Some(a), Some(b)) => if a < b {
                    Some((a, Some(b)))
                } else {
                    None
                },
                _ => None,
            }
        },
    }
}

/// A component as a range of bytes.
pub open spec fn as_range_u8(r: (int, Option<int>)) -> Range<u8> {
    match r.1 {
        None => Range::Single(r.0 as u8),
        Some(e) => Range::Exclusive { start: r.0 as u8, end: e as u8 },
    }
}

/// A component as a range of ports.
pub open spec fn as_range_u16(r: (int, Option<int>)) -> Range<u16> {
    match r.1 {
        None => Range::Single(r.0 as u16),
        Some(e) => Range::Exclusive { start: r.0 as u16, end: e as u16 },
    }
}

/// The octet component of `a` between `lo` and `hi`.
pub open spec fn octet_spec(a: Seq<char>, lo: int, hi: int) -> Option<Range<u8>> {
    match range_spec(a.subrange(lo, hi), 255) {
        Some(r) => Some(as_range_u8(r)),
        None => None,
    }
}

/// The positions of the first three dots of `a`.
pub open spec fn dots_spec(a: Seq<char>) -> Option<(int, int, int)> {
    match index_from(a, '.', 0) {
        None => None,
        Some(d1) => match index_from(a, '.', d1 + 1) {
            None => None,
            Some(d2) => match index_from(a, '.', d2 + 1) {
                None => None,
                Some(d3) => Some((d1, d2, d3)),
            },
        },
    }
}

/// The address part `A.B.C.D`, cut at its first three dots.
pub open spec fn octets_spec(a: Seq<char>) -> Option<(Range<u8>, Range<u8>, Range<u8>, Range<u8>)> {
    match dots_spec(a) {
        None => None,
        Some((d1, d2, d3)) => match (
            octet_spec(a, 0, d1),
            octet_spec(a, d1 + 1, d2),
            octet_spec(a, d2 + 1, d3),
            octet_spec(a, d3 + 1, a.len() as int),
        ) {
            (Some(u1), Some(u2), Some(u3), Some(u4)) => Some((u1, u2, u3, u4)),
            _ => None,
        },
    }
}

/// The pattern `A.B.C.D:P`: the address part before the first `:` and the
/// port part after it.
pub open spec fn source_v4_spec(s: Seq<char>) -> Option<SourceFormatV4> {
    match index_from(s, ':', 0) {
        None => None,
        Some(colon) => match (
            octets_spec(s.subrange(0, colon)),
            range_spec(s.subrange(colon + 1, s.len() as int), 65535),
        ) {
            (Some(ip), Some(port)) => Some(SourceFormatV4 { ip, port: as_range_u16(port) }),
            _ => None,
        },
    }
}

fn to_range_u8(r: (u32, Option<u32>)) -> (out: Range<u8>)
    requires
        r.0 <= 255,
        r.1 matches Some(e) ==> r.0 < e <= 255,
    ensures
        out == as_range_u8((r.0 as int, match r.1 {
            Some(e) => Some(e as int),
            None => None,
        })),
        out.wf(),
{
    match r.1 {
        None => Range::Single(r.0 as u8),
        Some(e) => Range::Exclusive { start: r.0 as u8, end: e as u8 },
    }
}

fn to_range_u16(r: (u32, Option<u32>)) -> (out: Range<u16>)
    requires
        r.0 <= 65535,
        r.1 matches Some(e) ==> r.0 < e <= 65535,
    ensures
        out == as_range_u16((r.0 as int, match r.1 {
            Some(e) => Some(e as int),
            None => None,
        })),
        out.wf(),
{
    match r.1 {
        None => Range::Single(r.0 as u16),
        Some(e) => Range::Exclusive { start: r.0 as u16, end: e as u16 },
    }
}

/// Reads the octet component in `cs[lo..hi]`.
fn parse_octet(cs: &Vec<char>, lo: usize, hi: usize, base: usize, end: usize) -> (r: Option<Range<u8>>)
    requires
        base <= lo <= hi <= end <= cs@.len(),
    ensures
        r == octet_spec(cs@.subrange(base as int, end as int), lo - base, hi - base),
        r matches Some(x) ==> x.wf(),
{
    assert(cs@.subrange(base as int, end as int).subrange(lo - base, hi - base) =~= cs@.subrange(
        lo as int,
        hi as int,
    ));
    match parse_range(cs, lo, hi, 255) {
        Some(x) => Some(to_range_u8(x)),
        None => None,
    }
}

/// The positions of the first three dots of `cs[..end]`.
fn find_dots(cs: &Vec<char>, end: usize) -> (r: Option<(usize, usize, usize)>)
    requires
        end <= cs@.len(),
    ensures
        r matches Some((d1, d2, d3)) ==> d1 < d2 < d3 < end,
        dots_spec(cs@.subrange(0, end as int)) matches Some((d1, d2, d3)) ==> 0 <= d1 < d2 < d3
            < end,
        r == (match dots_spec(cs@.subrange(0, end as int)) {
            Some((d1, d2, d3)) => Some((d1 as usize, d2 as usize, d3 as usize)),
            None => None::<(usize, usize, usize)>,
        }),
{
    let ghost a = cs@.subrange(0, end as int);
    assert(cs@.subrange(0, end as int) =~= a);
    proof {
        lemma_index_from_bounds(a, '.', 0);
        match index_from(a, '.', 0) {
            Some(k1) => {
                lemma_index_from_bounds(a, '.', k1 + 1);
                match index_from(a, '.', k1 + 1) {
                    Some(k2) => {
                        lemma_index_from_bounds(a, '.', k2 + 1);
                    },
                    None => {},
                }
            },
            None => {},
        }
    }
    let d1 = match find_char(cs, 0, end, '.') {
        Some(k) => k,
        None => {
            return None;
        },
    };
    proof {
        lemma_index_from_suffix(a, '.', d1 + 1, 0);
        assert(a.subrange(d1 + 1, a.len() as int) =~= cs@.subrange(d1 + 1, end as int));
    }
    let d2 = match find_char(cs, d1 + 1, end, '.') {
        Some(k) => k,
        None => {
            return None;
        },
    };
    proof {
        lemma_index_from_suffix(a, '.', d2 + 1, 0);
        assert(a.subrange(d2 + 1, a.len() as int) =~= cs@.subrange(d2 + 1, end as int));
    }
    let d3 = match find_char(cs, d2 + 1, end, '.') {
        Some(k) => k,
        None => {
            return None;
        },
    };
    Some((d1, d2, d3))
}

/// Reads the address part `cs[..end]`.
fn parse_octets(cs: &Vec<char>, end: usize) -> (r: Option<(Range<u8>, Range<u8>, Range<u8>, Range<u8>)>)
    requires
        end <= cs@.len(),
    ensures
        r == octets_spec(cs@.subrange(0, end as int)),
        r matches Some(x) ==> x.0.wf() && x.1.wf() && x.2.wf() && x.3.wf(),
{
    match find_dots(cs, end) {
        None => None,
        Some((d1, d2, d3)) => {
            let u1 = parse_octet(cs, 0, d1, 0, end);
            let u2 = parse_octet(cs, d1 + 1, d2, 0, end);
            let u3 = parse_octet(cs, d2 + 1, d3, 0, end);
            let u4 = parse_octet(cs, d3 + 1, end, 0, end);
            match (u1, u2, u3, u4) {
                (Some(u1), Some(u2), Some(u3), Some(u4)) => Some((u1, u2, u3, u4)),
                _ => None,
            }
        },
    }
}

/// An IPv4 source-address pattern.
#[derive(Copy, Clone, Debug, Eq, PartialEq)]
pub struct SourceFormatV4 {
    pub ip: (Range<u8>, Range<u8>, Range<u8>, Range<u8>),
    pub port: Range<u16>,
}

impl SourceFormatV4 {
    /// Every component holds at least one value.
    pub open spec fn wf(&self) -> bool {
        &&& self.ip.0.wf()
        &&& self.ip.1.wf()
        &&& self.ip.2.wf()
        &&& self.ip.3.wf()
        &&& self.port.wf()
    }

    /// Whether `addr` is one that the pattern can give.
    pub open spec fn allows(&self, addr: PeerAddr) -> bool {
        exists|a: u8, b: u8, c: u8, d: u8, p: u16|
            #![trigger ipv4_bits(a, b, c, d), self.port.contains(p)]
            self.ip.0.contains(a) && self.ip.1.contains(b) && self.ip.2.contains(c)
                && self.ip.3.contains(d) && self.port.contains(p) && addr == (PeerAddr::V4 {
                ip: ipv4_bits(a, b, c, d),
                port: p,
            })
    }

    /// Reads a pattern `A.B.C.D:P`.
    pub fn parse(s: &str) -> (r: Result<SourceFormatV4, ()>)
        ensures
            match r {
                Ok(f) => source_v4_spec(s@) == Some(f) && f.wf(),
                Err(_) => source_v4_spec(s@) is None,
            },
    {
        let cs = chars_of(s);
        let n = cs.len();
        assert(cs@.subrange(0, n as int) =~= s@);
        let colon = match find_char(&cs, 0, n, ':') {
            Some(k) => k,
            None => {
                return Err(());
            },
        };
        assert(s@.subrange(0, colon as int) =~= cs@.subrange(0, colon as int));
        assert(s@.subrange(colon + 1, s@.len() as int) =~= cs@.subrange(colon + 1, n as int));
        let ip = parse_octets(&cs, colon);
        let port = parse_range(&cs, colon + 1, n, 65535);
        match (ip, port) {
            (Some(ip), Some(port)) => Ok(SourceFormatV4 { ip, port: to_range_u16(port) }),
            _ => Err(()),
        }
    }

    /// Draws an address from the pattern, one component at a time.
    pub fn get_addr(&self) -> (r: PeerAddr)
        requires
            self.wf(),
        ensures
            self.allows(r),
    {
        let u1 = self.ip.0.get_random();
        let u2 = self.ip.1.get_random();
        let u3 = self.ip.2.get_random();
        let u4 = self.ip.3.get_random();
        let port = self.port.get_random();
        let r = PeerAddr::v4(u1, u2, u3, u4, port);
        assert(r == PeerAddr::V4 { ip: ipv4_bits(u1, u2, u3, u4), port });
        r
    }
}

/// An IPv6 source-address pattern: a fixed address and a port range.
#[derive(Copy, Clone, Debug, Eq, PartialEq)]
pub struct SourceFormatV6 {
    pub ip: u128,
    pub port: Range<u16>,
}

/// A source-address pattern. Only IPv4 patterns can be read and drawn from.
#[derive(Copy, Clone, Debug, Eq, PartialEq)]
pub enum SourceFormat {
    V4(SourceFormatV4),
    V6(SourceFormatV6),
}

impl SourceFormat {
    /// Reads a pattern; IPv6 patterns are refused.
    pub fn parse(s: &str) -> (r: Result<SourceFormat, ()>)
        ensures
            match r {
                Ok(f) => f == SourceFormat::V4(source_v4_spec(s@)->Some_0) && source_v4_spec(s@) is Some
                    && source_v4_spec(s@)->Some_0.wf(),
                Err(_) => source_v4_spec(s@) is None,
            },
    {
        match SourceFormatV4::parse(s) {
            Ok(v) => Ok(SourceFormat::V4(v)),
            Err(e) => Err(e),
        }
    }

    /// Draws an address from an IPv4 pattern.
    pub fn get_addr(&self) -> (r: PeerAddr)
        requires
            self matches SourceFormat::V4(f) && f.wf(),
        ensures
            self matches SourceFormat::V4(f) && f.allows(r),
    {
        match self {
            SourceFormat::V4(f) => f.get_addr(),
            SourceFormat::V6(_) => PeerAddr::V4 { ip: 0, port: 0 },
        }
    }
}

impl std::str::FromStr for SourceFormatV4 {
    type Err = ();

    fn from_str(s: &str) -> Result<Self, Self::Err> {
        SourceFormatV4::parse(s)
    }
}

impl std::str::FromStr for SourceFormat {
    type Err = ();

    fn from_str(s: &str) -> Result<Self, Self::Err> {
        SourceFormat::parse(s)
    }
}

/// Searching `s` from `i + j` is searching its suffix from `i` on from `j`.
proof fn lemma_index_from_suffix(s: Seq<char>, c: char, i: int, j: int)
    requires
        0 <= i <= s.len(),
        0 <= j,
    ensures
        index_from(s, c, i + j) == (match index_from(s.subrange(i, s.len() as int), c, j) {
            Some(k) => Some(k + i),
            None => None,
        }),
    decreases s.len() - (i + j),
{
    if i + j < s.len() && s[i + j] != c {
        lemma_index_from_suffix(s, c, i, j + 1);
    }
}

} // verus!
