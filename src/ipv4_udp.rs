//! Extraction of UDP payloads from a stream of back-to-back IPv4 packets.
//!
//! Only datagrams that pass the header checksum, address, UDP checksum and
//! port checks contribute their payload; the others are skipped.
use crate::bytes::{append_range, be16, read_be16};
use vstd::slice::slice_subrange;
use vstd::prelude::*;

verus! {

/// Source address of the only accepted sender.
pub open spec fn authorized_source() -> Seq<u8> {
    seq![10u8, 1u8, 1u8, 10u8]
}

/// Destination address of the only accepted receiver.
pub open spec fn authorized_destination() -> Seq<u8> {
    seq![10u8, 1u8, 1u8, 200u8]
}

/// The only accepted UDP destination port.
pub const EXPECTED_PORT: u16 = 42069;

/// IANA protocol number of UDP.
pub const PROTOCOL_UDP: u16 = 17;

/// One step of the one's-complement sum: add, then fold a carry by
/// subtracting `0xFFFF`.
pub open spec fn fold_word(acc: int, w: u16) -> int {
    if acc + w > 0xffff {
        acc + w - 0xffff
    } else {
        acc + w
    }
}

/// The one's-complement sum of `ws`, started at `acc`, words taken in order.
pub open spec fn ones_fold(acc: int, ws: Seq<u16>) -> int
    decreases ws.len(),
{
    if ws.len() == 0 {
        acc
    } else {
        fold_word(ones_fold(acc, ws.drop_last()), ws.last())
    }
}

/// The big-endian 16-bit words of `b`; an odd trailing byte is left out.
pub open spec fn be_words(b: Seq<u8>) -> Seq<u16> {
    Seq::new((b.len() / 2) as nat, |k: int| be16(b, 2 * k))
}

/// The IPv4 header checksum of a 20-byte header, the checksum field itself
/// (word 5) left out of the sum.
pub open spec fn ip_header_checksum(h: Seq<u8>) -> int {
    0xffff - ones_fold(0xffff, be_words(h).remove(5))
}

/// The UDP-over-IPv4 pseudo-header: addresses, zero, protocol, UDP length.
pub open spec fn pseudo_header_words(src: Seq<u8>, dst: Seq<u8>, len: nat) -> Seq<u16> {
    seq![
        be16(src, 0),
        be16(src, 2),
        be16(dst, 0),
        be16(dst, 2),
        17u16,
        (len % 0x10000) as u16,
    ]
}

/// The words summed for the UDP checksum of `seg`: pseudo-header, then the
/// segment without its checksum field (word 3), then an odd trailing byte
/// as the high byte of a last word.
pub open spec fn udp_checksum_words(src: Seq<u8>, dst: Seq<u8>, seg: Seq<u8>) -> Seq<u16> {
    pseudo_header_words(src, dst, seg.len()) + be_words(seg).remove(3) + if seg.len() % 2 == 1 {
        seq![((seg.last() as int) * 256) as u16]
    } else {
        Seq::<u16>::empty()
    }
}

/// The UDP checksum of segment `seg` carried from `src` to `dst`.
pub open spec fn udp_checksum(src: Seq<u8>, dst: Seq<u8>, seg: Seq<u8>) -> int {
    0xffff - ones_fold(0, udp_checksum_words(src, dst, seg))
}

/// Header length in bytes, from the IHL field.
pub open spec fn ip_header_len(s: Seq<u8>) -> int {
    ((s[0] % 16) as int) * 4
}

/// The IPv4 total-length field.
pub open spec fn ip_total_len(s: Seq<u8>) -> int {
    be16(s, 2) as int
}

/// `s` starts with a complete IPv4 packet: a 20-byte header of version 4,
/// and the header length and total length both inside `s`.
pub open spec fn ip_frame_ok(s: Seq<u8>) -> bool {
    &&& s.len() >= 20
    &&& s[0] / 16 == 4
    &&& s.len() >= ip_header_len(s)
    &&& s.len() >= ip_total_len(s)
}

pub open spec fn max_int(a: int, b: int) -> int {
    if a >= b {
        a
    } else {
        b
    }
}

/// The IPv4 payload: from the end of the header to the total length.
pub open spec fn ip_payload(s: Seq<u8>) -> Seq<u8> {
    s.subrange(ip_header_len(s), max_int(ip_header_len(s), ip_total_len(s)))
}

/// `p` holds a UDP header and the whole datagram its length field gives.
pub open spec fn udp_frame_ok(p: Seq<u8>) -> bool {
    p.len() >= 8 && p.len() >= be16(p, 4)
}

/// The UDP payload: from the end of the 8-byte header to the UDP length.
pub open spec fn udp_payload(p: Seq<u8>) -> Seq<u8> {
    p.subrange(8, max_int(8, be16(p, 4) as int))
}

/// The five checks that a packet at the start of `s` must pass.
pub open spec fn packet_accepted(s: Seq<u8>) -> bool {
    let p = ip_payload(s);
    &&& be16(s, 10) as int == ip_header_checksum(s.take(20))
    &&& s.subrange(12, 16) == authorized_source()
    &&& s.subrange(16, 20) == authorized_destination()
    &&& be16(p, 6) as int == udp_checksum(s.subrange(12, 16), s.subrange(16, 20), p)
    &&& be16(p, 2) == EXPECTED_PORT
}

/// The concatenated payloads of the accepted packets of `s`, or `Err` when a
/// packet does not hold a complete UDP datagram. The scan ends at the first
/// place where no complete IPv4 packet starts.
pub open spec fn extracted(s: Seq<u8>) -> Result<Seq<u8>, ()>
    decreases s.len(),
{
    if !ip_frame_ok(s) {
        Ok(Seq::empty())
    } else if !udp_frame_ok(ip_payload(s)) {
        Err(())
    } else {
        let here = if packet_accepted(s) {
            udp_payload(ip_payload(s))
        } else {
            Seq::empty()
        };
        match extracted(s.skip(ip_total_len(s))) {
            Ok(rest) => Ok(here + rest),
            Err(e) => Err(e),
        }
    }
}


/// Relies on packet::ip::v4::checksum: the one's-complement sum of the
/// header's big-endian words, started at `0xFFFF`, the word at bytes 10..12
/// skipped, a carry folded by subtracting `0xFFFF`, then complemented.
#[verifier::external_body]
fn ipv4_checksum(header: &[u8]) -> (r: u16)
    requires
        header@.len() == 20,
    ensures
        r as int == ip_header_checksum(header@),
{
    packet::ip::v4::checksum(header)
}

proof fn lemma_ones_fold_bound(acc: int, ws: Seq<u16>)
    requires
        0 <= acc <= 0xffff,
    ensures
        0 <= ones_fold(acc, ws) <= 0xffff,
    decreases ws.len(),
{
    if ws.len() > 0 {
        lemma_ones_fold_bound(acc, ws.drop_last());
    }
}

/// One's-complement sum of `ws` started at `init`.
fn ones_sum(init: u32, ws: &Vec<u16>) -> (r: u32)
    requires
        init <= 0xffff,
    ensures
        r as int == ones_fold(init as int, ws@),
        r <= 0xffff,
{
    let mut acc: u32 = init;
    let mut k: usize = 0;
    while k < ws.len()
        invariant
            k <= ws@.len(),
            init <= 0xffff,
            acc as int == ones_fold(init as int, ws@.take(k as int)),
            acc <= 0xffff,
        decreases ws@.len() - k,
    {
        proof {
            assert(ws@.take(k + 1).drop_last() == ws@.take(k as int));
        }
        acc = acc + ws[k] as u32;
        if acc > 0xffff {
            acc = acc - 0xffff;
        }
        k = k + 1;
    }
    proof {
        assert(ws@.take(k as int) == ws@);
    }
    acc
}

/// The UDP checksum of `seg`, carried from address `src` to address `dst`.
fn checksum(src: &[u8], dst: &[u8], seg: &[u8]) -> (r: u16)
    requires
        src@.len() == 4,
        dst@.len() == 4,
        seg@.len() >= 8,
    ensures
        r as int == udp_checksum(src@, dst@, seg@),
{
    let mut ws: Vec<u16> = Vec::new();
    ws.push(read_be16(src, 0));
    ws.push(read_be16(src, 2));
    ws.push(read_be16(dst, 0));
    ws.push(read_be16(dst, 2));
    ws.push(PROTOCOL_UDP);
    ws.push((seg.len() % 0x10000) as u16);
    assert(ws@ == pseudo_header_words(src@, dst@, seg@.len()));
    let len = seg.len();
    let n = len / 2;
    let mut k: usize = 0;
    while k < n
        invariant
            len == seg@.len(),
            n == seg@.len() / 2,
            seg@.len() >= 8,
            k <= n,
            ws@ == pseudo_header_words(src@, dst@, seg@.len()) + if k <= 3 {
                be_words(seg@).take(k as int)
            } else {
                be_words(seg@).take(k as int).remove(3)
            },
        decreases n - k,
    {
        assert(2 * k + 1 < seg@.len()) by (nonlinear_arith)
            requires
                k < n,
                n == seg@.len() / 2,
        ;
        if k != 3 {
            ws.push(read_be16(seg, k + k));
        }
        proof {
            let w = be_words(seg@);
            if k < 3 {
                assert(w.take(k + 1) == w.take(k as int).push(w[k as int]));
            } else if k == 3 {
                assert(w.take(k + 1).remove(3) == w.take(k as int));
            } else {
                assert(w.take(k + 1).remove(3) == w.take(k as int).remove(3).push(w[k as int]));
            }
        }
        k = k + 1;
    }
    if seg.len() % 2 == 1 {
        ws.push((seg[seg.len() - 1] as u16) * 256);
    }
    let sum = ones_sum(0, &ws);
    proof {
        assert(be_words(seg@).take(n as int) == be_words(seg@));
        assert(ws@ == udp_checksum_words(src@, dst@, seg@));
        lemma_ones_fold_bound(0, ws@);
    }
    (0xffff - sum) as u16
}

/// A packet that holds a complete UDP datagram but fails one of the five
/// checks contributes nothing, and the scan goes on with what follows it.
pub proof fn lemma_rejected_packet_skipped(p: Seq<u8>, rest: Seq<u8>)
    requires
        ip_frame_ok(p),
        ip_total_len(p) == p.len(),
        udp_frame_ok(ip_payload(p)),
        !packet_accepted(p),
    ensures
        extracted(p + rest) == extracted(rest),
{
    lemma_packet_prefix(p, rest);
    assert((p + rest).skip(p.len() as int) == rest);
    match extracted(rest) {
        Ok(v) => assert(Seq::<u8>::empty() + v == v),
        Err(_) => {},
    }
}

/// A packet that holds a complete UDP datagram and passes the five checks
/// contributes its UDP payload, followed by what the rest of the stream
/// gives.
pub proof fn lemma_accepted_packet_kept(p: Seq<u8>, rest: Seq<u8>)
    requires
        ip_frame_ok(p),
        ip_total_len(p) == p.len(),
        udp_frame_ok(ip_payload(p)),
        packet_accepted(p),
    ensures
        extracted(p + rest) == match extracted(rest) {
            Ok(v) => Ok(udp_payload(ip_payload(p)) + v),
            Err(e) => Err(e),
        },
{
    lemma_packet_prefix(p, rest);
    assert((p + rest).skip(p.len() as int) == rest);
}

/// What the scan reads of a whole packet does not depend on what follows it.
proof fn lemma_packet_prefix(p: Seq<u8>, rest: Seq<u8>)
    requires
        ip_frame_ok(p),
        ip_total_len(p) == p.len(),
    ensures
        ip_frame_ok(p + rest),
        ip_total_len(p + rest) == p.len(),
        ip_payload(p + rest) == ip_payload(p),
        packet_accepted(p + rest) == packet_accepted(p),
{
    let s = p + rest;
    assert(s[0] == p[0]);
    assert(s[2] == p[2] && s[3] == p[3]);
    assert(s[10] == p[10] && s[11] == p[11]);
    assert(s.take(20) == p.take(20));
    assert(s.subrange(12, 16) == p.subrange(12, 16));
    assert(s.subrange(16, 20) == p.subrange(16, 20));
    assert(ip_payload(s) == ip_payload(p));
}

/// The stream ends in a packet whose payload is not a complete UDP datagram.
#[derive(Debug, Clone, Copy, PartialEq, Eq)]
pub enum PacketError {
    TruncatedDatagram,
}

/// Whether a complete IPv4 packet starts at the beginning of `s`.
fn frame_ok(s: &[u8]) -> (r: bool)
    ensures
        r == ip_frame_ok(s@),
{
    if s.len() < 20 || s[0] / 16 != 4 {
        return false;
    }
    let hl = ((s[0] % 16) as usize) * 4;
    let total = read_be16(s, 2) as usize;
    s.len() >= hl && s.len() >= total
}

/// Whether the packet at the start of `s` passes all five checks.
fn accepted(s: &[u8], p: &[u8]) -> (r: bool)
    requires
        ip_frame_ok(s@),
        p@ == ip_payload(s@),
        udp_frame_ok(p@),
    ensures
        r == packet_accepted(s@),
{
    let header = slice_subrange(s, 0, 20);
    let header_ok = read_be16(s, 10) == ipv4_checksum(header);
    let src_ok = s[12] == 10 && s[13] == 1 && s[14] == 1 && s[15] == 10;
    let dst_ok = s[16] == 10 && s[17] == 1 && s[18] == 1 && s[19] == 200;
    let src = slice_subrange(s, 12, 16);
    let dst = slice_subrange(s, 16, 20);
    let udp_ok = read_be16(p, 6) == checksum(src, dst, p);
    let port_ok = read_be16(p, 2) == EXPECTED_PORT;
    proof {
        assert(src_ok == (s@.subrange(12, 16) =~= authorized_source()));
        assert(dst_ok == (s@.subrange(16, 20) =~= authorized_destination()));
        assert(header@ == s@.take(20));
    }
    header_ok && src_ok && dst_ok && udp_ok && port_ok
}

/// Concatenates the UDP payloads of the packets of `b` that pass the header
/// checksum, both address checks, the UDP checksum and the port check.
/// Packets that fail a check are skipped; the scan advances by each packet's
/// total length and ends where no complete IPv4 packet starts.
pub fn parse_ip_payload(b: &[u8]) -> (r: Result<Vec<u8>, PacketError>)
    ensures
        match extracted(b@) {
            Ok(v) => r is Ok && r->Ok_0@ == v,
            Err(_) => r is Err,
        },
{
    let mut result: Vec<u8> = Vec::new();
    let mut pos: usize = 0;
    let len = b.len();
    proof {
        assert(b@.skip(0) == b@);
        match extracted(b@) {
            Ok(v) => assert(result@ + v == v),
            Err(_) => {},
        }
    }
    while pos < len
        invariant
            len == b@.len(),
            pos <= len,
            extracted(b@) == match extracted(b@.skip(pos as int)) {
                Ok(v) => Ok(result@ + v),
                Err(e) => Err(e),
            },
        decreases len - pos,
    {
        let s = slice_subrange(b, pos, len);
        assert(s@ == b@.skip(pos as int));
        if !frame_ok(s) {
            assert(result@ + Seq::<u8>::empty() == result@);
            return Ok(result);
        }
        let hl = ((s[0] % 16) as usize) * 4;
        let total = read_be16(s, 2) as usize;
        let end = if hl >= total {
            hl
        } else {
            total
        };
        let p = slice_subrange(s, hl, end);
        if p.len() < 8 || p.len() < read_be16(p, 4) as usize {
            return Err(PacketError::TruncatedDatagram);
        }
        let ghost before = result@;
        if accepted(s, p) {
            let ud = read_be16(p, 4) as usize;
            let uend = if ud >= 8 {
                ud
            } else {
                8
            };
            append_range(&mut result, p, 8, uend);
        }
        proof {
            assert(s@.skip(total as int) == b@.skip(pos + total));
            let here = if packet_accepted(s@) {
                udp_payload(ip_payload(s@))
            } else {
                Seq::empty()
            };
            assert(result@ == before + here);
            match extracted(s@.skip(total as int)) {
                Ok(v) => assert(before + (here + v) == result@ + v),
                Err(_) => {},
            }
        }
        pos = pos + total;
    }
    proof {
        assert(!ip_frame_ok(b@.skip(pos as int)));
        assert(result@ + Seq::<u8>::empty() == result@);
    }
    Ok(result)
}

} // verus!
