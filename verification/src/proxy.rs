//! The proxy data model: scheme, IPv4 address and port, with the canonical
//! string form `scheme://address:port`.

use vstd::prelude::*;

use crate::text::{
    all_digits, ascii_bytes_to_string, ascii_str, canonical_digits, dec, digits_value,
    has_substring, has_substring_exec, lemma_dec_is_canonical, lemma_dec_round_trip,
    lemma_run_end, lemma_short_run_value, lower, lower_exec, run_end, run_end_exec, u64_to_dec,
    utf8_bytes, ByteClass,
};

verus! {

/// The scheme a proxy speaks.
#[derive(Debug, Clone, Copy, PartialEq, Eq, Structural)]
pub enum ProxyType {
    HTTP,
    HTTPS,
}

/// The bytes of the scheme name: `http` or `https`.
pub open spec fn scheme_bytes(t: ProxyType) -> Seq<u8> {
    match t {
        ProxyType::HTTP => seq![104u8, 116, 116, 112],
        ProxyType::HTTPS => seq![104u8, 116, 116, 112, 115],
    }
}

/// The bytes of `https`.
pub open spec fn https_bytes() -> Seq<u8> {
    seq![104u8, 116, 116, 112, 115]
}

/// The bytes of `http,https`, the form some listing sites report for a proxy
/// that speaks both schemes.
pub open spec fn http_https_bytes() -> Seq<u8> {
    seq![104u8, 116, 116, 112, 44, 104, 116, 116, 112, 115]
}

/// Normalization of a reported protocol: `https` (in any case), or anything
/// carrying `http,https`, reads as HTTPS; every other report reads as HTTP.
pub open spec fn protocol_of(s: Seq<u8>) -> ProxyType {
    if lower(s) == https_bytes() || has_substring(lower(s), http_https_bytes()) {
        ProxyType::HTTPS
    } else {
        ProxyType::HTTP
    }
}

/// Normalizes a reported protocol, given as bytes.
pub fn protocol_from_bytes(s: &[u8]) -> (r: ProxyType)
    ensures
        r == protocol_of(s@),
{
    let low = lower_exec(s);
    let https: Vec<u8> = vec![104u8, 116, 116, 112, 115];
    let both: Vec<u8> = vec![104u8, 116, 116, 112, 44, 104, 116, 116, 112, 115];
    proof {
        assert(https@ =~= https_bytes());
        assert(both@ =~= http_https_bytes());
    }
    if crate::text::bytes_eq(low.as_slice(), https.as_slice()) {
        ProxyType::HTTPS
    } else if has_substring_exec(low.as_slice(), both.as_slice()) {
        ProxyType::HTTPS
    } else {
        ProxyType::HTTP
    }
}

impl From<String> for ProxyType {
    /// Reads a reported protocol string, normalizing case.
    fn from(s: String) -> (r: ProxyType) {
        protocol_from_bytes(s.as_str().as_bytes())
    }
}

impl vstd::std_specs::convert::FromSpecImpl<String> for ProxyType {
    open spec fn obeys_from_spec() -> bool {
        true
    }

    open spec fn from_spec(s: String) -> ProxyType {
        protocol_of(utf8_bytes(s@))
    }
}

impl ProxyType {
    /// The scheme name, as it stands in the canonical proxy string.
    pub fn into_string(self) -> (r: String)
        ensures
            r@ == ascii_str(scheme_bytes(self)),
    {
        let mut v: Vec<u8> = vec![104u8, 116, 116, 112];
        if let ProxyType::HTTPS = self {
            v.push(115);
        }
        proof {
            assert(v@ =~= scheme_bytes(self));
        }
        ascii_bytes_to_string(v)
    }
}

/// An IPv4 address as four octets.
#[derive(Debug, Clone, Copy, PartialEq, Eq, Structural)]
pub struct Ipv4Addr {
    pub o1: u8,
    pub o2: u8,
    pub o3: u8,
    pub o4: u8,
}

/// Ends of the four digit runs of a dotted quad read from position `i`.
pub open spec fn quad_e1(s: Seq<u8>, i: int) -> int {
    run_end(s, i, ByteClass::Digit)
}

pub open spec fn quad_e2(s: Seq<u8>, i: int) -> int {
    run_end(s, quad_e1(s, i) + 1, ByteClass::Digit)
}

pub open spec fn quad_e3(s: Seq<u8>, i: int) -> int {
    run_end(s, quad_e2(s, i) + 1, ByteClass::Digit)
}

pub open spec fn quad_e4(s: Seq<u8>, i: int) -> int {
    run_end(s, quad_e3(s, i) + 1, ByteClass::Digit)
}

/// Byte `b` stands at position `j`.
pub open spec fn byte_at(s: Seq<u8>, j: int, b: u8) -> bool {
    0 <= j < s.len() && s[j] == b
}

/// From position `i` the text reads as four digit runs separated by dots:
/// the shape `d+.d+.d+.d+`, with each run maximal.
pub open spec fn quad_shape(s: Seq<u8>, i: int) -> bool {
    &&& 0 <= i
    &&& quad_e1(s, i) > i
    &&& byte_at(s, quad_e1(s, i), 46)
    &&& quad_e2(s, i) > quad_e1(s, i) + 1
    &&& byte_at(s, quad_e2(s, i), 46)
    &&& quad_e3(s, i) > quad_e2(s, i) + 1
    &&& byte_at(s, quad_e3(s, i), 46)
    &&& quad_e4(s, i) > quad_e3(s, i) + 1
}

/// The four digit runs of the quad at `i`.
pub open spec fn quad_run(s: Seq<u8>, i: int, k: int) -> Seq<u8> {
    if k == 1 {
        s.subrange(i, quad_e1(s, i))
    } else if k == 2 {
        s.subrange(quad_e1(s, i) + 1, quad_e2(s, i))
    } else if k == 3 {
        s.subrange(quad_e2(s, i) + 1, quad_e3(s, i))
    } else {
        s.subrange(quad_e3(s, i) + 1, quad_e4(s, i))
    }
}

/// A digit run that reads as one octet: canonical decimal, at most 255.
pub open spec fn octet_ok(r: Seq<u8>) -> bool {
    canonical_digits(r) && digits_value(r) <= 255
}

/// All four runs of the quad at `i` read as octets.
pub open spec fn quad_octets_ok(s: Seq<u8>, i: int) -> bool {
    &&& octet_ok(quad_run(s, i, 1))
    &&& octet_ok(quad_run(s, i, 2))
    &&& octet_ok(quad_run(s, i, 3))
    &&& octet_ok(quad_run(s, i, 4))
}

/// The address value of the quad at `i`.
pub open spec fn quad_value(s: Seq<u8>, i: int) -> Ipv4Addr {
    Ipv4Addr {
        o1: digits_value(quad_run(s, i, 1)) as u8,
        o2: digits_value(quad_run(s, i, 2)) as u8,
        o3: digits_value(quad_run(s, i, 3)) as u8,
        o4: digits_value(quad_run(s, i, 4)) as u8,
    }
}

/// The whole of `s` is one valid dotted quad.
pub open spec fn valid_ipv4(s: Seq<u8>) -> bool {
    &&& quad_shape(s, 0)
    &&& quad_e4(s, 0) == s.len()
    &&& quad_octets_ok(s, 0)
}

/// Canonical dotted-quad rendering of an address.
pub open spec fn ipv4_bytes(a: Ipv4Addr) -> Seq<u8> {
    dec(a.o1 as nat) + seq![46u8] + dec(a.o2 as nat) + seq![46u8] + dec(a.o3 as nat) + seq![46u8]
        + dec(a.o4 as nat)
}

/// Reads the digit run `s[from..to]` as an octet; `None` where the run is
/// not a canonical decimal under 256.
pub fn parse_octet(s: &[u8], from: usize, to: usize) -> (r: Option<u8>)
    requires
        from <= to <= s.len(),
    ensures
        r.is_some() == octet_ok(s@.subrange(from as int, to as int)),
        r matches Some(v) ==> v == digits_value(s@.subrange(from as int, to as int)),
{
    let ghost run = s@.subrange(from as int, to as int);
    let len = to - from;
    if len == 0 || len > 3 {
        proof {
            // A canonical run worth at most 255 renders back to itself and
            // such a rendering has at most three digits.
            if len > 3 && canonical_digits(run) && digits_value(run) <= 255 {
                lemma_dec_round_trip(run);
                assert(dec(digits_value(run)).len() <= 3) by {
                    reveal_with_fuel(dec, 4);
                }
            }
        }
        return None;
    }
    let mut v: u32 = 0;
    let mut j: usize = from;
    while j < to
        invariant
            from <= j <= to <= s.len(),
            to - from <= 3,
            all_digits(s@.subrange(from as int, j as int)),
            v == digits_value(s@.subrange(from as int, j as int)),
            v <= 999,
        decreases to - j,
    {
        let b = s[j];
        if b < 48 || b > 57 {
            proof {
                assert(s@.subrange(from as int, to as int)[j - from] == s@[j as int]);
            }
            return None;
        }
        proof {
            let pre = s@.subrange(from as int, j as int);
            let post = s@.subrange(from as int, j + 1);
            assert(post.drop_last() =~= pre);
            assert(post.last() == s@[j as int]);
            assert(all_digits(post));
            lemma_short_run_value(pre);
            assert(pre.len() <= 2);
            assert(digits_value(pre) <= 99);
        }
        v = v * 10 + ((b - 48) as u32);
        j += 1;
    }
    proof {
        assert(run =~= s@.subrange(from as int, j as int));
    }
    if len > 1 && s[from] == 48 {
        proof {
            assert(run[0] == s@[from as int]);
        }
        return None;
    }
    if v > 255 {
        return None;
    }
    proof {
        assert(run[0] == s@[from as int]);
    }
    Some(v as u8)
}

/// Reads the whole of `s` as a dotted-quad IPv4 address.
pub fn parse_ipv4(s: &[u8]) -> (r: Option<Ipv4Addr>)
    ensures
        r.is_some() == valid_ipv4(s@),
        r matches Some(a) ==> a == quad_value(s@, 0),
{
    proof {
        lemma_run_end(s@, 0, ByteClass::Digit);
    }
    let e1 = run_end_exec(s, 0, ByteClass::Digit);
    if e1 == 0 || e1 >= s.len() || s[e1] != 46 {
        return None;
    }
    proof {
        lemma_run_end(s@, e1 + 1, ByteClass::Digit);
    }
    let e2 = run_end_exec(s, e1 + 1, ByteClass::Digit);
    if e2 <= e1 + 1 || e2 >= s.len() || s[e2] != 46 {
        return None;
    }
    proof {
        lemma_run_end(s@, e2 + 1, ByteClass::Digit);
    }
    let e3 = run_end_exec(s, e2 + 1, ByteClass::Digit);
    if e3 <= e2 + 1 || e3 >= s.len() || s[e3] != 46 {
        return None;
    }
    proof {
        lemma_run_end(s@, e3 + 1, ByteClass::Digit);
    }
    let e4 = run_end_exec(s, e3 + 1, ByteClass::Digit);
    if e4 <= e3 + 1 || e4 != s.len() {
        return None;
    }
    let o1 = parse_octet(s, 0, e1);
    let o2 = parse_octet(s, e1 + 1, e2);
    let o3 = parse_octet(s, e2 + 1, e3);
    let o4 = parse_octet(s, e3 + 1, e4);
    match (o1, o2, o3, o4) {
        (Some(a), Some(b), Some(c), Some(d)) => Some(Ipv4Addr { o1: a, o2: b, o3: c, o4: d }),
        _ => None,
    }
}

/// A candidate proxy endpoint: scheme, IPv4 address and port.
#[derive(Debug, Clone, Copy, PartialEq, Eq, Structural)]
pub struct Proxy {
    pub protocol: ProxyType,
    pub ipv4addr: Ipv4Addr,
    pub port: u16,
}

/// Canonical form of a proxy record: `scheme://address:port`.
pub open spec fn canonical_bytes(p: Proxy) -> Seq<u8> {
    scheme_bytes(p.protocol) + seq![58u8, 47, 47] + ipv4_bytes(p.ipv4addr) + seq![58u8] + dec(
        p.port as nat,
    )
}

impl Proxy {
    /// Builds a record from a reported protocol, a dotted-quad address and a
    /// port. The address must be a valid dotted quad; the protocol string is
    /// normalized, unrecognized reports defaulting to HTTP.
    pub fn new(protocol: String, address: String, port: u16) -> (r: Proxy)
        requires
            valid_ipv4(utf8_bytes(address@)),
        ensures
            r.protocol == protocol_of(utf8_bytes(protocol@)),
            r.ipv4addr == quad_value(utf8_bytes(address@), 0),
            r.port == port,
    {
        let p = protocol_from_bytes(protocol.as_str().as_bytes());
        let addr = parse_ipv4(address.as_str().as_bytes());
        match addr {
            Some(a) => Proxy { protocol: p, ipv4addr: a, port },
            None => {
                // Unreachable: the address is a valid dotted quad.
                proof {
                    assert(false);
                }
                Proxy { protocol: p, ipv4addr: Ipv4Addr { o1: 0, o2: 0, o3: 0, o4: 0 }, port }
            },
        }
    }

    /// The canonical string `scheme://address:port`.
    #[verifier::rlimit(60)]
    pub fn into_string(self) -> (r: String)
        ensures
            r@ == ascii_str(canonical_bytes(self)),
    {
        let mut v: Vec<u8> = Vec::new();
        match self.protocol {
            ProxyType::HTTP => {
                v.push(104);
                v.push(116);
                v.push(116);
                v.push(112);
            },
            ProxyType::HTTPS => {
                v.push(104);
                v.push(116);
                v.push(116);
                v.push(112);
                v.push(115);
            },
        }
        v.push(58);
        v.push(47);
        v.push(47);
        proof {
            lemma_dec_is_canonical(self.ipv4addr.o1 as nat);
            lemma_dec_is_canonical(self.ipv4addr.o2 as nat);
            lemma_dec_is_canonical(self.ipv4addr.o3 as nat);
            lemma_dec_is_canonical(self.ipv4addr.o4 as nat);
            lemma_dec_is_canonical(self.port as nat);
        }
        let mut d = u64_to_dec(self.ipv4addr.o1 as u64);
        v.append(&mut d);
        v.push(46);
        let mut d = u64_to_dec(self.ipv4addr.o2 as u64);
        v.append(&mut d);
        v.push(46);
        let mut d = u64_to_dec(self.ipv4addr.o3 as u64);
        v.append(&mut d);
        v.push(46);
        let mut d = u64_to_dec(self.ipv4addr.o4 as u64);
        v.append(&mut d);
        v.push(58);
        let mut d = u64_to_dec(self.port as u64);
        v.append(&mut d);
        proof {
            assert(v@ =~= canonical_bytes(self));
            assert forall|i: int| 0 <= i < v@.len() implies v@[i] < 128 by {
                lemma_canonical_bytes_ascii(self);
            }
        }
        ascii_bytes_to_string(v)
    }
}

/// A valid dotted quad is recovered exactly when the address value it reads
/// as is rendered back: the address text round-trips through the record.
pub proof fn lemma_ipv4_round_trip(s: Seq<u8>)
    requires
        valid_ipv4(s),
    ensures
        ipv4_bytes(quad_value(s, 0)) == s,
{
    let e1 = quad_e1(s, 0);
    let e2 = quad_e2(s, 0);
    let e3 = quad_e3(s, 0);
    let r1 = quad_run(s, 0, 1);
    let r2 = quad_run(s, 0, 2);
    let r3 = quad_run(s, 0, 3);
    let r4 = quad_run(s, 0, 4);
    lemma_dec_round_trip(r1);
    lemma_dec_round_trip(r2);
    lemma_dec_round_trip(r3);
    lemma_dec_round_trip(r4);
    let a = quad_value(s, 0);
    assert(dec(a.o1 as nat) == r1);
    assert(dec(a.o2 as nat) == r2);
    assert(dec(a.o3 as nat) == r3);
    assert(dec(a.o4 as nat) == r4);
    assert(s[e1] == 46 && s[e2] == 46 && s[e3] == 46);
    assert(ipv4_bytes(a) =~= s);
}

/// For every valid dotted-quad address string, the record built from it
/// renders canonically as `scheme://address:port`: the address text comes
/// back letter for letter.
pub proof fn lemma_record_round_trip(proto: Seq<u8>, addr: Seq<u8>, port: u16)
    requires
        valid_ipv4(addr),
    ensures
        canonical_bytes(Proxy { protocol: protocol_of(proto), ipv4addr: quad_value(addr, 0), port })
            == scheme_bytes(protocol_of(proto)) + seq![58u8, 47, 47] + addr + seq![58u8] + dec(
            port as nat,
        ),
{
    lemma_ipv4_round_trip(addr);
}

/// Protocol normalization: `https`, in any case, reads as HTTPS, as does any
/// report carrying `http,https`; every other report reads as HTTP.
pub proof fn lemma_protocol_normalization(s: Seq<u8>)
    ensures
        lower(s) == https_bytes() ==> protocol_of(s) == ProxyType::HTTPS,
        has_substring(lower(s), http_https_bytes()) ==> protocol_of(s) == ProxyType::HTTPS,
        lower(s) != https_bytes() && !has_substring(lower(s), http_https_bytes()) ==> protocol_of(
            s,
        ) == ProxyType::HTTP,
{
}

/// Every byte of a canonical proxy string is ASCII.
proof fn lemma_canonical_bytes_ascii(p: Proxy)
    ensures
        forall|i: int| 0 <= i < canonical_bytes(p).len() ==> canonical_bytes(p)[i] < 128,
{
    lemma_dec_is_canonical(p.ipv4addr.o1 as nat);
    lemma_dec_is_canonical(p.ipv4addr.o2 as nat);
    lemma_dec_is_canonical(p.ipv4addr.o3 as nat);
    lemma_dec_is_canonical(p.ipv4addr.o4 as nat);
    lemma_dec_is_canonical(p.port as nat);
}

} // verus!
