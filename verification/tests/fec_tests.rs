use blockdag::dag::ToyDag;
use blockdag::fec::{decode_digests, digest_buffer, encode_digests};

fn build_dag(blocks: usize) -> ToyDag {
    let mut d = ToyDag::new();
    for i in 0..blocks {
        let parents: Vec<u64> = d.tips.clone();
        d.create_block(parents);
        if i % 5 == 4 {
            d.stitch_if_needed();
        }
    }
    d
}

#[test]
fn digest_buffer_concatenates_hashes_in_id_order() {
    let mut d = ToyDag::new();
    d.create_block(vec![0]);
    d.create_block(vec![0, 1]);
    let buf = digest_buffer(&d);
    assert_eq!(buf.len(), 3 * 32);
    assert_eq!(&buf[0..32], &[0u8; 32]);
    assert_eq!(&buf[32..64], &d.get(1).unwrap().hash);
    assert_eq!(&buf[64..96], &d.get(2).unwrap().hash);
}

#[test]
fn round_trip_with_loss_below_capacity_recovers_exactly() {
    let d = build_dag(150);
    let data = digest_buffer(&d);
    let (config, packets) = encode_digests(&data, 128, 50).unwrap();
    let total = packets.len();

    // lose 30 packets, fewer than the 50 repair packets: drop from the
    // front so that source symbols are among the lost
    let received: Vec<_> = packets.into_iter().skip(30).collect();
    assert_eq!(received.len(), total - 30);

    let recovered = decode_digests(&config, received).expect("loss below capacity must decode");
    assert_eq!(recovered, data);
}

#[test]
fn loss_beyond_capacity_reports_failure() {
    let d = build_dag(40);
    let data = digest_buffer(&d);
    let (config, packets) = encode_digests(&data, 128, 10).unwrap();

    // keep fewer packets than there are source symbols: no reconstruction
    // can succeed
    let source_symbols = data.len().div_ceil(128);
    let keep = source_symbols.saturating_sub(2);
    let received: Vec<_> = packets.into_iter().take(keep).collect();

    assert!(decode_digests(&config, received).is_none());
}

#[test]
fn rejected_inputs_are_reported_not_encoded() {
    let empty: Vec<u8> = Vec::new();
    assert!(encode_digests(&empty, 128, 5).is_none());
    let data = vec![7u8; 100];
    assert!(encode_digests(&data, 8, 5).is_none());
    assert!(encode_digests(&data, 128, 5).is_some());
}
