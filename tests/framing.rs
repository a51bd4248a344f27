use safe_log::{frame, msg_terminator, Reassembler};

fn stream_of(records: &[&str]) -> Vec<u8> {
    let mut s = Vec::new();
    for r in records {
        s.extend_from_slice(&frame(r.as_bytes()));
    }
    s
}

fn feed_in_pieces(stream: &[u8], size: usize) -> (Vec<Vec<u8>>, usize) {
    let mut r = Reassembler::new();
    let mut out = Vec::new();
    for piece in stream.chunks(size) {
        out.extend(r.push(piece));
    }
    (out, r.pending_len())
}

#[test]
fn terminator_bytes() {
    assert_eq!(msg_terminator(), vec![254u8, 253, 255]);
}

#[test]
fn frame_appends_terminator() {
    assert_eq!(frame(b"abc"), vec![b'a', b'b', b'c', 254, 253, 255]);
    assert_eq!(frame(b""), vec![254u8, 253, 255]);
}

#[test]
fn round_trip_for_every_piece_size() {
    let records = ["first record", "", "second \u{e9}\u{e8} record", "x"];
    let stream = stream_of(&records);
    for size in 1..=stream.len() {
        let (out, pending) = feed_in_pieces(&stream, size);
        assert_eq!(pending, 0);
        assert_eq!(out.len(), records.len());
        for (got, want) in out.iter().zip(records.iter()) {
            assert_eq!(got.as_slice(), want.as_bytes());
        }
    }
}

#[test]
fn round_trip_with_uneven_pieces() {
    let records = ["alpha", "beta gamma", "delta"];
    let stream = stream_of(&records);
    let cuts = [0usize, 3, 4, 9, 11, 12, 20, stream.len()];
    let mut r = Reassembler::new();
    let mut out = Vec::new();
    for w in cuts.windows(2) {
        out.extend(r.push(&stream[w[0]..w[1]]));
    }
    assert_eq!(r.pending_len(), 0);
    let texts: Vec<String> = out.into_iter().map(|b| String::from_utf8(b).unwrap()).collect();
    assert_eq!(texts, vec!["alpha".to_string(), "beta gamma".to_string(), "delta".to_string()]);
}

#[test]
fn partial_frame_stays_pending() {
    let mut r = Reassembler::new();
    let out = r.push(b"hello");
    assert!(out.is_empty());
    assert_eq!(r.pending_len(), 5);
    let out = r.push(&[254, 253]);
    assert!(out.is_empty());
    assert_eq!(r.pending_len(), 7);
    let out = r.push(&[255, b'n']);
    assert_eq!(out, vec![b"hello".to_vec()]);
    assert_eq!(r.pending_len(), 1);
}

#[test]
fn several_records_in_one_read() {
    let mut r = Reassembler::new();
    let stream = stream_of(&["a", "b", "c"]);
    let out = r.push(&stream);
    assert_eq!(out, vec![b"a".to_vec(), b"b".to_vec(), b"c".to_vec()]);
    assert_eq!(r.pending_len(), 0);
}

#[test]
fn near_terminator_bytes_are_kept() {
    let mut r = Reassembler::new();
    let out = r.push(&[254, 254, 253, 253, 255, 254, 253, 255]);
    assert_eq!(out, vec![vec![254u8, 254, 253, 253, 255]]);
    assert_eq!(r.pending_len(), 0);
}
