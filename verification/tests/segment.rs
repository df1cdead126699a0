use hdstp::engine::Client;
use hdstp::segment::reassemble;

#[test]
fn zero_byte_payload_produces_zero_chunks() {
    let client = Client::new();
    let chunks = client.packetize(Vec::new(), 8);
    assert_eq!(chunks.len(), 0);
}

#[test]
fn exactly_divisible_payload_has_no_undersized_chunk() {
    let client = Client::new();
    let chunks = client.packetize(vec![7u8; 24], 8);
    assert_eq!(chunks.len(), 3);
    for chunk in &chunks {
        assert_eq!(chunk.len(), 8);
    }
}

#[test]
fn remainder_payload_has_one_undersized_final_chunk() {
    let client = Client::new();
    let chunks = client.packetize(vec![7u8; 21], 8);
    assert_eq!(chunks.len(), 3);
    assert_eq!(chunks[0].len(), 8);
    assert_eq!(chunks[1].len(), 8);
    assert_eq!(chunks[2].len(), 5);
}

#[test]
fn hello_payload_splits_into_five_chunks() {
    let payload = b"Hello, this is a test file transfer!".to_vec();
    assert_eq!(payload.len(), 36);
    let client = Client::new();
    let chunks = client.packetize(payload.clone(), 8);
    let lengths: Vec<usize> = chunks.iter().map(|c| c.len()).collect();
    assert_eq!(lengths, vec![8, 8, 8, 8, 4]);
    assert_eq!(reassemble(&chunks), payload);
}

#[test]
fn reassemble_concatenates_in_order() {
    let chunks = vec![vec![1u8, 2], vec![], vec![3u8, 4, 5]];
    assert_eq!(reassemble(&chunks), vec![1, 2, 3, 4, 5]);
    assert_eq!(reassemble(&Vec::new()), Vec::<u8>::new());
}

#[test]
fn packetize_round_trips_through_reassemble() {
    for len in [0usize, 1, 7, 8, 9, 16, 100] {
        let payload: Vec<u8> = (0..len).map(|i| i as u8).collect();
        let client = Client::new();
        let chunks = client.packetize(payload.clone(), 8);
        assert_eq!(reassemble(&chunks), payload);
    }
}

#[test]
fn chunk_size_larger_than_payload_gives_one_chunk() {
    let client = Client::new();
    let chunks = client.packetize(vec![1u8, 2, 3], 100);
    assert_eq!(chunks, vec![vec![1u8, 2, 3]]);
}
