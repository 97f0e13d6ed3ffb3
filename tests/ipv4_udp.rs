use data_onion::{parse_ip_payload, PacketError};

const SRC: [u8; 4] = [10, 1, 1, 10];
const DST: [u8; 4] = [10, 1, 1, 200];
const PORT: u16 = 42069;

fn fold(words: &[u16], init: u32) -> u32 {
    let mut sum = init;
    for &w in words {
        sum += w as u32;
        if sum > 0xffff {
            sum -= 0xffff;
        }
    }
    sum
}

fn be_words(b: &[u8]) -> Vec<u16> {
    let mut w: Vec<u16> = b
        .chunks(2)
        .filter(|c| c.len() == 2)
        .map(|c| u16::from_be_bytes([c[0], c[1]]))
        .collect();
    if b.len() % 2 == 1 {
        w.push((b[b.len() - 1] as u16) << 8);
    }
    w
}

fn packet(src: [u8; 4], dst: [u8; 4], port: u16, payload: &[u8]) -> Vec<u8> {
    let udp_len = (8 + payload.len()) as u16;
    let total = 20 + udp_len;
    let mut ip = vec![0x45, 0x00];
    ip.extend_from_slice(&total.to_be_bytes());
    ip.extend_from_slice(&[0, 0, 0, 0, 64, 17, 0, 0]);
    ip.extend_from_slice(&src);
    ip.extend_from_slice(&dst);
    let ck = !(fold(&be_words(&ip), 0) as u16);
    ip[10..12].copy_from_slice(&ck.to_be_bytes());

    let mut udp = vec![];
    udp.extend_from_slice(&1234u16.to_be_bytes());
    udp.extend_from_slice(&port.to_be_bytes());
    udp.extend_from_slice(&udp_len.to_be_bytes());
    udp.extend_from_slice(&[0, 0]);
    udp.extend_from_slice(payload);
    let mut pseudo = vec![];
    pseudo.extend_from_slice(&src);
    pseudo.extend_from_slice(&dst);
    pseudo.extend_from_slice(&[0, 17]);
    pseudo.extend_from_slice(&udp_len.to_be_bytes());
    let mut words = be_words(&pseudo);
    words.extend(be_words(&udp));
    let ck = !(fold(&words, 0) as u16);
    udp[6..8].copy_from_slice(&ck.to_be_bytes());

    ip.extend_from_slice(&udp);
    ip
}

#[test]
fn packet_valid_payload_extracted() {
    let p = packet(SRC, DST, PORT, b"hello");
    assert_eq!(parse_ip_payload(&p), Ok(b"hello".to_vec()));
}

#[test]
fn packet_payloads_concatenated() {
    let mut s = packet(SRC, DST, PORT, b"abc");
    s.extend(packet(SRC, DST, PORT, b"defg"));
    assert_eq!(parse_ip_payload(&s), Ok(b"abcdefg".to_vec()));
}

#[test]
fn packet_corrupted_header_checksum_skipped() {
    let mut bad = packet(SRC, DST, PORT, b"bad");
    bad[10] ^= 0x01;
    let mut s = bad;
    s.extend(packet(SRC, DST, PORT, b"good"));
    assert_eq!(parse_ip_payload(&s), Ok(b"good".to_vec()));
}

#[test]
fn packet_wrong_source_skipped() {
    let mut s = packet([10, 1, 1, 11], DST, PORT, b"bad");
    s.extend(packet(SRC, DST, PORT, b"good"));
    assert_eq!(parse_ip_payload(&s), Ok(b"good".to_vec()));
}

#[test]
fn packet_wrong_destination_skipped() {
    let mut s = packet(SRC, [10, 1, 1, 201], PORT, b"bad");
    s.extend(packet(SRC, DST, PORT, b"good"));
    assert_eq!(parse_ip_payload(&s), Ok(b"good".to_vec()));
}

#[test]
fn packet_wrong_port_skipped() {
    let mut s = packet(SRC, DST, 42070, b"bad");
    s.extend(packet(SRC, DST, PORT, b"good"));
    assert_eq!(parse_ip_payload(&s), Ok(b"good".to_vec()));
}

#[test]
fn packet_corrupted_udp_checksum_skipped() {
    let mut bad = packet(SRC, DST, PORT, b"bad");
    let n = bad.len();
    bad[n - 1] ^= 0x40;
    let mut s = bad;
    s.extend(packet(SRC, DST, PORT, b"good"));
    assert_eq!(parse_ip_payload(&s), Ok(b"good".to_vec()));
}

#[test]
fn packet_short_tail_ends_scan() {
    let mut s = packet(SRC, DST, PORT, b"ok");
    s.extend_from_slice(&[0x45; 19]);
    assert_eq!(parse_ip_payload(&s), Ok(b"ok".to_vec()));
    assert_eq!(parse_ip_payload(&[]), Ok(vec![]));
}

#[test]
fn packet_truncated_datagram_is_error() {
    let mut p = packet(SRC, DST, PORT, b"");
    // Claim a total length that leaves only four bytes of UDP.
    p[2] = 0;
    p[3] = 24;
    assert_eq!(parse_ip_payload(&p), Err(PacketError::TruncatedDatagram));
}
