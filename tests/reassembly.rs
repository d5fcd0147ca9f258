use rcon_client::codec::encode_packet;
use rcon_client::error::RconError;
use rcon_client::reassembly::{Reassembler, FULL_READ_PAYLOAD, READ_CAPACITY};

/// The reads a server sends for `text`: each carries a header and at most a
/// full buffer of payload; a read that fills the buffer has no room for the
/// terminators.
fn reads_for(id: i32, text: &[u8]) -> Vec<Vec<u8>> {
    let mut reads = Vec::new();
    let mut start = 0;
    loop {
        let end = usize::min(start + FULL_READ_PAYLOAD, text.len());
        let mut read = encode_packet(id, 0, &text[start..end]);
        read.truncate(READ_CAPACITY);
        let full = end - start == FULL_READ_PAYLOAD;
        reads.push(read);
        start = end;
        if !full {
            return reads;
        }
    }
}

fn gather(reads: &[Vec<u8>]) -> (Reassembler, usize) {
    let mut r = Reassembler::new();
    let mut count = 0;
    for read in reads {
        count += 1;
        if r.feed(read).unwrap() {
            break;
        }
    }
    (r, count)
}

#[test]
fn single_short_read() {
    let mut r = Reassembler::new();
    assert_eq!(r.feed(&encode_packet(4, 0, b"done")), Ok(true));
    let resp = r.response();
    assert_eq!(resp.length, 4);
    assert_eq!(resp.id, 4);
    assert_eq!(resp.kind, 0);
    assert_eq!(resp.text, "done");
}

#[test]
fn fragmented_response_is_concatenated() {
    let text: Vec<u8> = (0..10000u32).map(|i| b'a' + (i % 26) as u8).collect();
    let reads = reads_for(9, &text);
    assert_eq!(reads.len(), 3);
    assert_eq!(reads[0].len(), READ_CAPACITY);
    let (r, count) = gather(&reads);
    assert_eq!(count, 3);
    assert!(r.is_complete());
    let resp = r.response();
    assert_eq!(resp.length, 10000);
    assert_eq!(resp.id, 9);
    assert_eq!(resp.text.as_bytes(), &text[..]);
}

#[test]
fn not_complete_after_full_read() {
    let text = vec![b'x'; FULL_READ_PAYLOAD + 1];
    let reads = reads_for(2, &text);
    let mut r = Reassembler::new();
    assert_eq!(r.feed(&reads[0]), Ok(false));
    assert!(!r.is_complete());
    assert_eq!(r.feed(&reads[1]), Ok(true));
    assert_eq!(r.response().length, FULL_READ_PAYLOAD + 1);
}

#[test]
fn exact_full_payload_takes_an_extra_read() {
    let text = vec![b'y'; FULL_READ_PAYLOAD];
    let reads = reads_for(3, &text);
    assert_eq!(reads.len(), 2);
    let (r, count) = gather(&reads);
    assert_eq!(count, 2);
    assert_eq!(r.response().text.len(), FULL_READ_PAYLOAD);
}

#[test]
fn empty_read_is_connection_closed() {
    let mut r = Reassembler::new();
    assert_eq!(r.feed(&[]), Err(RconError::ConnectionClosed));
    assert!(!r.is_complete());
}

#[test]
fn short_read_is_truncated_header() {
    let mut r = Reassembler::new();
    assert_eq!(r.feed(&[10, 0, 0, 0, 1]), Err(RconError::TruncatedHeader));
}

#[test]
fn overlong_length_is_malformed() {
    let mut r = Reassembler::new();
    let mut read = encode_packet(1, 0, b"abc");
    read[0] = 100;
    assert_eq!(r.feed(&read), Err(RconError::MalformedHeader));
    let mut read = encode_packet(1, 0, b"abc");
    read[0] = 9;
    assert_eq!(r.feed(&read), Err(RconError::MalformedHeader));
    assert_eq!(r.response().length, 0);
}

#[test]
fn invalid_utf8_is_replaced() {
    let mut r = Reassembler::new();
    assert_eq!(r.feed(&encode_packet(1, 0, &[b'o', b'k', 0xff, b'!'])), Ok(true));
    assert_eq!(r.response().text, "ok\u{fffd}!");
}

#[test]
fn reset_clears_the_cycle() {
    let mut r = Reassembler::new();
    r.feed(&encode_packet(1, 0, b"old")).unwrap();
    r.reset();
    assert!(!r.is_complete());
    r.feed(&encode_packet(2, 0, b"new")).unwrap();
    assert_eq!(r.response().text, "new");
}
