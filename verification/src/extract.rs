//! Extraction of proxy records out of listing-page bodies.
//!
//! Two fixed patterns are read, one per site family. The first reads a bare
//! cell pair, `<td>IP</td><td>PORT</td>`. The second reads a four-cell row,
//! `<td>IP</td> <td>PORT</td> <td>WORD</td> <td>PROTOCOL</td>`, with runs of
//! whitespace between the cells. The scan walks left to right, takes the
//! leftmost match, and resumes after it; a matched row whose octets or port
//! do not read as an address and a port is dropped, never an error.

use vstd::prelude::*;

use crate::proxy::{
    parse_octet, protocol_of, quad_e4, quad_octets_ok, quad_shape, quad_value, Ipv4Addr, Proxy,
    ProxyType,
};
use crate::text::{
    all_digits, contains_at, digits_value, lemma_run_end, run_end, run_end_exec, ByteClass,
};

verus! {

/// The bytes of `<td>`.
pub open spec fn lit_td() -> Seq<u8> {
    seq![60u8, 116, 100, 62]
}

/// The bytes of `</td>`.
pub open spec fn lit_td_close() -> Seq<u8> {
    seq![60u8, 47, 116, 100, 62]
}

/// Does `<td>` stand at `i`?
fn lit_td_at(s: &[u8], i: usize) -> (r: bool)
    ensures
        r == contains_at(s@, i as int, lit_td()),
{
    let td: Vec<u8> = vec![60u8, 116, 100, 62];
    proof {
        assert(td@ =~= lit_td());
    }
    crate::text::contains_at_exec(s, i, td.as_slice())
}

/// Does `</td>` stand at `i`?
fn lit_td_close_at(s: &[u8], i: usize) -> (r: bool)
    ensures
        r == contains_at(s@, i as int, lit_td_close()),
{
    let td: Vec<u8> = vec![60u8, 47, 116, 100, 62];
    proof {
        assert(td@ =~= lit_td_close());
    }
    crate::text::contains_at_exec(s, i, td.as_slice())
}

/// Reads the digit run `s[from..to]` as a port; `None` where the run is
/// empty, not all digits, or worth more than 65535.
pub fn parse_port(s: &[u8], from: usize, to: usize) -> (r: Option<u16>)
    requires
        from <= to <= s.len(),
    ensures
        r.is_some() == (from < to && all_digits(s@.subrange(from as int, to as int))
            && digits_value(s@.subrange(from as int, to as int)) <= 65535),
        r matches Some(v) ==> v == digits_value(s@.subrange(from as int, to as int)),
{
    let ghost run = s@.subrange(from as int, to as int);
    if from == to {
        return None;
    }
    let mut v: u32 = 0;
    let mut over = false;
    let mut j: usize = from;
    while j < to
        invariant
            from <= j <= to <= s.len(),
            all_digits(s@.subrange(from as int, j as int)),
            !over ==> v == digits_value(s@.subrange(from as int, j as int)) && v <= 65535,
            over ==> digits_value(s@.subrange(from as int, j as int)) > 65535,
        decreases to - j,
    {
        let b = s[j];
        if b < 48 || b > 57 {
            proof {
                assert(s@.subrange(from as int, to as int)[j - from] == s@[j as int]);
            }
            return None;
        }
        proof {
            let pre = s@.subrange(from as int, j as int);
            let post = s@.subrange(from as int, j + 1);
            assert(post.drop_last() =~= pre);
            assert(post.last() == s@[j as int]);
            assert(all_digits(post));
        }
        if !over {
            let w = v * 10 + ((b - 48) as u32);
            if w > 65535 {
                over = true;
            } else {
                v = w;
            }
        }
        j += 1;
    }
    proof {
        assert(run =~= s@.subrange(from as int, j as int));
    }
    if over {
        return None;
    }
    Some(v as u16)
}

/// End of the IP quad of a bare-pair match at `i`.
pub open spec fn m66_q(s: Seq<u8>, i: int) -> int {
    quad_e4(s, i + 4)
}

/// Start of the port run of a bare-pair match at `i`.
pub open spec fn m66_p0(s: Seq<u8>, i: int) -> int {
    m66_q(s, i) + 9
}

/// End of the port run of a bare-pair match at `i`.
pub open spec fn m66_p(s: Seq<u8>, i: int) -> int {
    run_end(s, m66_p0(s, i), ByteClass::Digit)
}

/// The bare cell pair `<td>IP</td><td>PORT</td>` stands at `i`, with the IP
/// read as a maximal dotted quad and the port as a maximal digit run.
pub open spec fn match66_at(s: Seq<u8>, i: int) -> bool {
    &&& contains_at(s, i, lit_td())
    &&& quad_shape(s, i + 4)
    &&& contains_at(s, m66_q(s, i), lit_td_close())
    &&& contains_at(s, m66_q(s, i) + 5, lit_td())
    &&& m66_p(s, i) > m66_p0(s, i)
    &&& contains_at(s, m66_p(s, i), lit_td_close())
}

/// Position right after a bare-pair match at `i`.
pub open spec fn match66_end(s: Seq<u8>, i: int) -> int {
    m66_p(s, i) + 5
}

/// The port run of a bare-pair match at `i`.
pub open spec fn port_run66(s: Seq<u8>, i: int) -> Seq<u8> {
    s.subrange(m66_p0(s, i), m66_p(s, i))
}

/// The matched row reads as a record: octets canonical and under 256, port
/// under 65536.
pub open spec fn rec66_ok(s: Seq<u8>, i: int) -> bool {
    quad_octets_ok(s, i + 4) && digits_value(port_run66(s, i)) <= 65535
}

/// The record of a bare-pair match at `i`; the site lists plain HTTP proxies.
pub open spec fn rec66(s: Seq<u8>, i: int) -> Proxy {
    Proxy {
        protocol: ProxyType::HTTP,
        ipv4addr: quad_value(s, i + 4),
        port: digits_value(port_run66(s, i)) as u16,
    }
}

/// All records of bare-pair matches from position `i` on: the leftmost match
/// is taken, the scan resumes after it, and rows that do not read as records
/// are dropped.
pub open spec fn scan66(s: Seq<u8>, i: int) -> Seq<Proxy>
    decreases s.len() - i,
{
    if i >= s.len() {
        Seq::empty()
    } else if match66_at(s, i) {
        if rec66_ok(s, i) {
            seq![rec66(s, i)] + scan66(s, match66_end(s, i))
        } else {
            scan66(s, match66_end(s, i))
        }
    } else {
        scan66(s, i + 1)
    }
}

/// Tries the bare-pair pattern at `i`: the match end and, where the row
/// reads as a record, the record.
fn try_match66(s: &[u8], i: usize) -> (m: Option<(Option<Proxy>, usize)>)
    ensures
        m.is_some() == match66_at(s@, i as int),
        m matches Some(pr) ==> {
            &&& pr.1 == match66_end(s@, i as int)
            &&& i < pr.1 <= s@.len()
            &&& pr.0.is_some() == rec66_ok(s@, i as int)
            &&& (pr.0 matches Some(p) ==> p == rec66(s@, i as int))
        },
{
    if !lit_td_at(s, i) {
        return None;
    }
    let n = s.len();
    assert(i + 4 <= n);
    let q0 = i + 4;
    proof {
        lemma_run_end(s@, q0 as int, ByteClass::Digit);
    }
    let e1 = run_end_exec(s, q0, ByteClass::Digit);
    if e1 == q0 || e1 >= s.len() || s[e1] != 46 {
        return None;
    }
    proof {
        lemma_run_end(s@, e1 + 1, ByteClass::Digit);
    }
    let e2 = run_end_exec(s, e1 + 1, ByteClass::Digit);
    if e2 <= e1 + 1 || e2 >= s.len() || s[e2] != 46 {
        return None;
    }
    proof {
        lemma_run_end(s@, e2 + 1, ByteClass::Digit);
    }
    let e3 = run_end_exec(s, e2 + 1, ByteClass::Digit);
    if e3 <= e2 + 1 || e3 >= s.len() || s[e3] != 46 {
        return None;
    }
    proof {
        lemma_run_end(s@, e3 + 1, ByteClass::Digit);
    }
    let e4 = run_end_exec(s, e3 + 1, ByteClass::Digit);
    if e4 <= e3 + 1 {
        return None;
    }
    if !lit_td_close_at(s, e4) {
        return None;
    }
    if !lit_td_at(s, e4 + 5) {
        return None;
    }
    let p0 = e4 + 9;
    proof {
        lemma_run_end(s@, p0 as int, ByteClass::Digit);
    }
    let p = run_end_exec(s, p0, ByteClass::Digit);
    if p == p0 {
        return None;
    }
    if !lit_td_close_at(s, p) {
        return None;
    }
    let end = p + 5;
    let o1 = parse_octet(s, q0, e1);
    let o2 = parse_octet(s, e1 + 1, e2);
    let o3 = parse_octet(s, e2 + 1, e3);
    let o4 = parse_octet(s, e3 + 1, e4);
    let port = parse_port(s, p0, p);
    proof {
        assert(all_digits(s@.subrange(p0 as int, p as int)));
    }
    let rec = match (o1, o2, o3, o4, port) {
        (Some(a), Some(b), Some(c), Some(d), Some(pt)) => Some(
            Proxy { protocol: ProxyType::HTTP, ipv4addr: Ipv4Addr { o1: a, o2: b, o3: c, o4: d }, port: pt },
        ),
        _ => None,
    };
    Some((rec, end))
}

/// Extracts every record the bare-pair pattern finds in `body`.
pub fn extract_66(body: &[u8]) -> (r: Vec<Proxy>)
    ensures
        r@ == scan66(body@, 0),
{
    let mut r: Vec<Proxy> = Vec::new();
    let mut i: usize = 0;
    while i < body.len()
        invariant
            i <= body.len(),
            scan66(body@, 0) == r@ + scan66(body@, i as int),
        decreases body.len() - i,
    {
        match try_match66(body, i) {
            Some((rec, end)) => {
                proof {
                    assert(scan66(body@, i as int) == if rec66_ok(body@, i as int) {
                        seq![rec66(body@, i as int)] + scan66(body@, end as int)
                    } else {
                        scan66(body@, end as int)
                    });
                }
                if let Some(p) = rec {
                    r.push(p);
                }
                proof {
                    assert(scan66(body@, 0) =~= r@ + scan66(body@, end as int));
                }
                i = end;
            },
            None => {
                proof {
                    assert(scan66(body@, i as int) == scan66(body@, i + 1));
                }
                i += 1;
            },
        }
    }
    proof {
        assert(scan66(body@, i as int) =~= Seq::empty());
        assert(r@ =~= scan66(body@, 0));
    }
    r
}

/// No bare-pair match from `i` on: nothing is extracted.
pub proof fn lemma_scan66_empty(s: Seq<u8>, i: int)
    requires
        forall|j: int| i <= j < s.len() ==> !match66_at(s, j),
    ensures
        scan66(s, i) == Seq::<Proxy>::empty(),
    decreases s.len() - i,
{
    if i < s.len() {
        lemma_scan66_empty(s, i + 1);
    }
}

/// End of the IP quad of a four-cell match at `i`.
pub open spec fn happy_q(s: Seq<u8>, i: int) -> int {
    quad_e4(s, i + 4)
}

/// End of the whitespace run after the IP cell.
pub open spec fn happy_sp1(s: Seq<u8>, i: int) -> int {
    run_end(s, happy_q(s, i) + 5, ByteClass::Space)
}

/// Start of the port run.
pub open spec fn happy_p0(s: Seq<u8>, i: int) -> int {
    happy_sp1(s, i) + 4
}

/// End of the port run.
pub open spec fn happy_p(s: Seq<u8>, i: int) -> int {
    run_end(s, happy_p0(s, i), ByteClass::Digit)
}

/// End of the whitespace run after the port cell.
pub open spec fn happy_sp2(s: Seq<u8>, i: int) -> int {
    run_end(s, happy_p(s, i) + 5, ByteClass::Space)
}

/// End of the word run of the third cell.
pub open spec fn happy_w1(s: Seq<u8>, i: int) -> int {
    run_end(s, happy_sp2(s, i) + 4, ByteClass::Word)
}

/// End of the whitespace run after the third cell.
pub open spec fn happy_sp3(s: Seq<u8>, i: int) -> int {
    run_end(s, happy_w1(s, i) + 5, ByteClass::Space)
}

/// End of the protocol word run.
pub open spec fn happy_w2(s: Seq<u8>, i: int) -> int {
    run_end(s, happy_sp3(s, i) + 4, ByteClass::Word)
}

/// The four-cell row `<td>IP</td> <td>PORT</td> <td>WORD</td> <td>PROTO</td>`
/// stands at `i`, each gap one or more whitespace bytes, each run maximal.
pub open spec fn match_happy_at(s: Seq<u8>, i: int) -> bool {
    &&& contains_at(s, i, lit_td())
    &&& quad_shape(s, i + 4)
    &&& contains_at(s, happy_q(s, i), lit_td_close())
    &&& happy_sp1(s, i) > happy_q(s, i) + 5
    &&& contains_at(s, happy_sp1(s, i), lit_td())
    &&& happy_p(s, i) > happy_p0(s, i)
    &&& contains_at(s, happy_p(s, i), lit_td_close())
    &&& happy_sp2(s, i) > happy_p(s, i) + 5
    &&& contains_at(s, happy_sp2(s, i), lit_td())
    &&& happy_w1(s, i) > happy_sp2(s, i) + 4
    &&& contains_at(s, happy_w1(s, i), lit_td_close())
    &&& happy_sp3(s, i) > happy_w1(s, i) + 5
    &&& contains_at(s, happy_sp3(s, i), lit_td())
    &&& happy_w2(s, i) > happy_sp3(s, i) + 4
    &&& contains_at(s, happy_w2(s, i), lit_td_close())
}

/// Position right after a four-cell match at `i`.
pub open spec fn match_happy_end(s: Seq<u8>, i: int) -> int {
    happy_w2(s, i) + 5
}

/// The port run of a four-cell match at `i`.
pub open spec fn happy_port_run(s: Seq<u8>, i: int) -> Seq<u8> {
    s.subrange(happy_p0(s, i), happy_p(s, i))
}

/// The protocol run of a four-cell match at `i`.
pub open spec fn happy_proto_run(s: Seq<u8>, i: int) -> Seq<u8> {
    s.subrange(happy_sp3(s, i) + 4, happy_w2(s, i))
}

/// The matched row reads as a record: octets canonical and under 256, port
/// under 65536. The protocol cell always reads, unrecognized words
/// defaulting to HTTP.
pub open spec fn rec_happy_ok(s: Seq<u8>, i: int) -> bool {
    quad_octets_ok(s, i + 4) && digits_value(happy_port_run(s, i)) <= 65535
}

/// The record of a four-cell match at `i`.
pub open spec fn rec_happy(s: Seq<u8>, i: int) -> Proxy {
    Proxy {
        protocol: protocol_of(happy_proto_run(s, i)),
        ipv4addr: quad_value(s, i + 4),
        port: digits_value(happy_port_run(s, i)) as u16,
    }
}

/// All records of four-cell matches from position `i` on, leftmost first,
/// the scan resuming after each match; rows that do not read as records are
/// dropped.
pub open spec fn scan_happy(s: Seq<u8>, i: int) -> Seq<Proxy>
    decreases s.len() - i,
{
    if i >= s.len() {
        Seq::empty()
    } else if match_happy_at(s, i) {
        if rec_happy_ok(s, i) {
            seq![rec_happy(s, i)] + scan_happy(s, match_happy_end(s, i))
        } else {
            scan_happy(s, match_happy_end(s, i))
        }
    } else {
        scan_happy(s, i + 1)
    }
}

/// Tries the four-cell pattern at `i`: the match end and, where the row
/// reads as a record, the record.
fn try_match_happy(s: &[u8], i: usize) -> (m: Option<(Option<Proxy>, usize)>)
    ensures
        m.is_some() == match_happy_at(s@, i as int),
        m matches Some(pr) ==> {
            &&& pr.1 == match_happy_end(s@, i as int)
            &&& i < pr.1 <= s@.len()
            &&& pr.0.is_some() == rec_happy_ok(s@, i as int)
            &&& (pr.0 matches Some(p) ==> p == rec_happy(s@, i as int))
        },
{
    if !lit_td_at(s, i) {
        return None;
    }
    let n = s.len();
    assert(i + 4 <= n);
    let q0 = i + 4;
    proof {
        lemma_run_end(s@, q0 as int, ByteClass::Digit);
    }
    let e1 = run_end_exec(s, q0, ByteClass::Digit);
    if e1 == q0 || e1 >= n || s[e1] != 46 {
        return None;
    }
    proof {
        lemma_run_end(s@, e1 + 1, ByteClass::Digit);
    }
    let e2 = run_end_exec(s, e1 + 1, ByteClass::Digit);
    if e2 <= e1 + 1 || e2 >= n || s[e2] != 46 {
        return None;
    }
    proof {
        lemma_run_end(s@, e2 + 1, ByteClass::Digit);
    }
    let e3 = run_end_exec(s, e2 + 1, ByteClass::Digit);
    if e3 <= e2 + 1 || e3 >= n || s[e3] != 46 {
        return None;
    }
    proof {
        lemma_run_end(s@, e3 + 1, ByteClass::Digit);
    }
    let e4 = run_end_exec(s, e3 + 1, ByteClass::Digit);
    if e4 <= e3 + 1 {
        return None;
    }
    if !lit_td_close_at(s, e4) {
        return None;
    }
    assert(e4 + 5 <= n);
    proof {
        lemma_run_end(s@, e4 + 5, ByteClass::Space);
    }
    let sp1 = run_end_exec(s, e4 + 5, ByteClass::Space);
    if sp1 == e4 + 5 {
        return None;
    }
    if !lit_td_at(s, sp1) {
        return None;
    }
    assert(sp1 + 4 <= n);
    let p0 = sp1 + 4;
    proof {
        lemma_run_end(s@, p0 as int, ByteClass::Digit);
    }
    let p = run_end_exec(s, p0, ByteClass::Digit);
    if p == p0 {
        return None;
    }
    if !lit_td_close_at(s, p) {
        return None;
    }
    assert(p + 5 <= n);
    proof {
        lemma_run_end(s@, p + 5, ByteClass::Space);
    }
    let sp2 = run_end_exec(s, p + 5, ByteClass::Space);
    if sp2 == p + 5 {
        return None;
    }
    if !lit_td_at(s, sp2) {
        return None;
    }
    assert(sp2 + 4 <= n);
    proof {
        lemma_run_end(s@, sp2 + 4, ByteClass::Word);
    }
    let w1 = run_end_exec(s, sp2 + 4, ByteClass::Word);
    if w1 == sp2 + 4 {
        return None;
    }
    if !lit_td_close_at(s, w1) {
        return None;
    }
    assert(w1 + 5 <= n);
    proof {
        lemma_run_end(s@, w1 + 5, ByteClass::Space);
    }
    let sp3 = run_end_exec(s, w1 + 5, ByteClass::Space);
    if sp3 == w1 + 5 {
        return None;
    }
    if !lit_td_at(s, sp3) {
        return None;
    }
    assert(sp3 + 4 <= n);
    proof {
        lemma_run_end(s@, sp3 + 4, ByteClass::Word);
    }
    let w2 = run_end_exec(s, sp3 + 4, ByteClass::Word);
    if w2 == sp3 + 4 {
        return None;
    }
    if !lit_td_close_at(s, w2) {
        return None;
    }
    let end = w2 + 5;
    let o1 = parse_octet(s, q0, e1);
    let o2 = parse_octet(s, e1 + 1, e2);
    let o3 = parse_octet(s, e2 + 1, e3);
    let o4 = parse_octet(s, e3 + 1, e4);
    let port = parse_port(s, p0, p);
    proof {
        assert(all_digits(s@.subrange(p0 as int, p as int)));
    }
    let proto_run = crate::text::copy_range(s, sp3 + 4, w2);
    let proto = crate::proxy::protocol_from_bytes(proto_run.as_slice());
    let rec = match (o1, o2, o3, o4, port) {
        (Some(a), Some(b), Some(c), Some(d), Some(pt)) => Some(
            Proxy {
                protocol: proto,
                ipv4addr: Ipv4Addr { o1: a, o2: b, o3: c, o4: d },
                port: pt,
            },
        ),
        _ => None,
    };
    Some((rec, end))
}

/// Extracts every record the four-cell pattern finds in `body`.
pub fn extract_happy(body: &[u8]) -> (r: Vec<Proxy>)
    ensures
        r@ == scan_happy(body@, 0),
{
    let mut r: Vec<Proxy> = Vec::new();
    let mut i: usize = 0;
    while i < body.len()
        invariant
            i <= body.len(),
            scan_happy(body@, 0) == r@ + scan_happy(body@, i as int),
        decreases body.len() - i,
    {
        match try_match_happy(body, i) {
            Some((rec, end)) => {
                proof {
                    assert(scan_happy(body@, i as int) == if rec_happy_ok(body@, i as int) {
                        seq![rec_happy(body@, i as int)] + scan_happy(body@, end as int)
                    } else {
                        scan_happy(body@, end as int)
                    });
                }
                if let Some(p) = rec {
                    r.push(p);
                }
                proof {
                    assert(scan_happy(body@, 0) =~= r@ + scan_happy(body@, end as int));
                }
                i = end;
            },
            None => {
                proof {
                    assert(scan_happy(body@, i as int) == scan_happy(body@, i + 1));
                }
                i += 1;
            },
        }
    }
    proof {
        assert(scan_happy(body@, i as int) =~= Seq::empty());
        assert(r@ =~= scan_happy(body@, 0));
    }
    r
}

/// No four-cell match from `i` on: nothing is extracted.
pub proof fn lemma_scan_happy_empty(s: Seq<u8>, i: int)
    requires
        forall|j: int| i <= j < s.len() ==> !match_happy_at(s, j),
    ensures
        scan_happy(s, i) == Seq::<Proxy>::empty(),
    decreases s.len() - i,
{
    if i < s.len() {
        lemma_scan_happy_empty(s, i + 1);
    }
}

} // verus!
