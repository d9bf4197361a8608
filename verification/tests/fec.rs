use aggligator_transport::addr::{IpAddr, Ipv4Addr, SocketAddr};
use aggligator_transport::error::TransportError;
use aggligator_transport::fec::block::{extract_payloads, FecBlock};
use aggligator_transport::fec::config::FecConfig;
use aggligator_transport::fec::decoder::FecDecoder;
use aggligator_transport::fec::encoder::{encode_packet, encode_packets, FecEncoder};
use aggligator_transport::fec::transport::{flush_fec_encoder, FecTransport, RecvAction, FLUSH_TIMEOUT};
use reed_solomon_erasure::galois_8::ReedSolomon;

fn addr(n: u8) -> SocketAddr {
    SocketAddr::new(IpAddr::V4(Ipv4Addr::new(10, 0, 0, n)), 1000)
}

fn encode(encoder: &mut FecEncoder, payloads: &[&[u8]]) -> Vec<Vec<u8>> {
    let mut out = None;
    for payload in payloads {
        out = encoder.add_payload(payload).unwrap();
    }
    out.unwrap()
}

fn drain(decoder: &mut FecDecoder) -> Vec<(Vec<u8>, SocketAddr)> {
    let mut out = Vec::new();
    while let Some(item) = decoder.pop_ready() {
        out.push(item);
    }
    out
}

#[test]
fn configurations() {
    assert_eq!(FecConfig::default(), FecConfig { data_shards: 3, parity_shards: 1 });
    assert_eq!(FecConfig::new(200, 55), FecConfig { data_shards: 200, parity_shards: 55 });
}

#[test]
fn packets_are_exact() {
    let mut encoder = FecEncoder::new(2, 1);
    let packets = encode(&mut encoder, &[b"ab", b"c"]);
    assert_eq!(packets.len(), 3);
    assert_eq!(packets[0], vec![0, 0, 0, 0, 0, 2, 1, 0, 4, 0, 2, 97, 98]);
    assert_eq!(packets[1], vec![0, 0, 0, 0, 1, 2, 1, 0, 4, 0, 1, 99, 0]);

    let mut shards = vec![vec![0u8, 2, 97, 98], vec![0, 1, 99, 0], vec![0; 4]];
    ReedSolomon::new(2, 1).unwrap().encode(&mut shards).unwrap();
    assert_eq!(packets[2][..9], [0, 0, 0, 0, 2, 2, 1, 0, 4]);
    assert_eq!(packets[2][9..], shards[2][..]);

    // The next block has the next number.
    let packets = encode(&mut encoder, &[b"d", b"e"]);
    assert_eq!(packets[0][..4], [0, 0, 0, 1]);
    let packets = encode_packets(9, 1, 1, &vec![vec![1, 2], vec![3]]);
    assert_eq!(packets, vec![vec![0, 0, 0, 9, 0, 1, 1, 0, 2, 1, 2], vec![0, 0, 0, 9, 1, 1, 1, 0, 1, 3]]);
    assert_eq!(encode_packet(0x0102_0304, 5, 6, 7, b"x"), vec![1, 2, 3, 4, 5, 6, 7, 0, 1, 120]);
}

#[test]
fn block_numbers_wrap() {
    let mut encoder = FecEncoder::new(1, 1);
    encoder.block_id = u32::MAX;
    let packets = encode(&mut encoder, &[b"a"]);
    assert_eq!(packets[0][..4], [255, 255, 255, 255]);
    let packets = encode(&mut encoder, &[b"a"]);
    assert_eq!(packets[0][..4], [0, 0, 0, 0]);
}

#[test]
fn any_data_shards_packets_are_enough() {
    let payloads: [&[u8]; 3] = [b"first", b"the second one", b"3"];
    for skip_a in 0..5usize {
        for skip_b in 0..skip_a {
            let mut encoder = FecEncoder::new(3, 2);
            let packets = encode(&mut encoder, &payloads);
            assert_eq!(packets.len(), 5);
            let mut decoder = FecDecoder::new();
            // In reverse order, and each packet twice.
            for i in (0..5).rev() {
                if i != skip_a && i != skip_b {
                    decoder.feed(&packets[i], addr(1));
                    decoder.feed(&packets[i], addr(1));
                }
            }
            let expected: Vec<_> = payloads.iter().map(|p| (p.to_vec(), addr(1))).collect();
            assert_eq!(drain(&mut decoder), expected);
        }
    }
}

#[test]
fn too_few_packets_deliver_nothing_and_late_ones_nothing_more() {
    let mut encoder = FecEncoder::new(2, 2);
    let packets = encode(&mut encoder, &[b"a", b"b"]);
    let mut decoder = FecDecoder::new();
    decoder.feed(&packets[3], addr(1));
    decoder.feed(&packets[3], addr(1));
    assert!(drain(&mut decoder).is_empty());
    decoder.feed(&packets[2], addr(1));
    assert_eq!(drain(&mut decoder).len(), 2);
    decoder.feed(&packets[0], addr(1));
    decoder.feed(&packets[1], addr(1));
    assert!(drain(&mut decoder).is_empty());
}

#[test]
fn senders_do_not_mix() {
    let mut one = FecEncoder::new(2, 1);
    let mut two = FecEncoder::new(2, 1);
    let p1 = encode(&mut one, &[b"a1", b"b1"]);
    let p2 = encode(&mut two, &[b"a2", b"b2"]);
    let mut decoder = FecDecoder::new();
    decoder.feed(&p1[0], addr(1));
    decoder.feed(&p2[1], addr(2));
    assert!(drain(&mut decoder).is_empty());
    decoder.feed(&p2[2], addr(2));
    decoder.feed(&p1[1], addr(1));
    assert_eq!(
        drain(&mut decoder),
        vec![
            (b"a2".to_vec(), addr(2)),
            (b"b2".to_vec(), addr(2)),
            (b"a1".to_vec(), addr(1)),
            (b"b1".to_vec(), addr(1)),
        ]
    );
}

#[test]
fn flush_sends_what_waits() {
    let mut encoder = FecEncoder::new(3, 1);
    assert!(encoder.flush().is_none());
    assert!(encoder.add_payload(b"only").unwrap().is_none());
    let packets = encoder.flush().unwrap();
    assert_eq!(packets.len(), 4);
    assert!(encoder.flush().is_none());
    let mut decoder = FecDecoder::new();
    decoder.feed(&packets[1], addr(1));
    decoder.feed(&packets[2], addr(1));
    decoder.feed(&packets[3], addr(1));
    assert_eq!(drain(&mut decoder), vec![(b"only".to_vec(), addr(1))]);
}

#[test]
fn empty_payloads_are_not_delivered() {
    let mut encoder = FecEncoder::new(2, 1);
    let packets = encode(&mut encoder, &[b"", b"x"]);
    let mut decoder = FecDecoder::new();
    decoder.feed(&packets[0], addr(1));
    decoder.feed(&packets[1], addr(1));
    assert_eq!(drain(&mut decoder), vec![(b"x".to_vec(), addr(1))]);
}

#[test]
fn large_payloads_are_refused() {
    let mut encoder = FecEncoder::new(2, 1);
    assert!(encoder.add_payload(&[7; 1500]).unwrap().is_none());
    match encoder.add_payload(&[7; 1501]) {
        Err(TransportError::FecPayloadTooLarge(len)) => assert_eq!(len, 1501),
        _ => panic!("expected an error"),
    }
    assert_eq!(encoder.shard_buf.len(), 1);
}

#[test]
fn malformed_packets_change_nothing() {
    let mut decoder = FecDecoder::new();
    decoder.feed(b"short", addr(1));
    decoder.feed(&[0, 0, 0, 0, 0, 0, 1, 0, 0], addr(1));
    decoder.feed(&[0, 0, 0, 0, 0, 1, 0, 0, 0], addr(1));
    assert_eq!(decoder.blocks.len(), 0);
    assert_eq!(decoder.max_block_ids.len(), 0);
    // A shard that has no place in its block leaves the block empty.
    decoder.feed(&[0, 0, 0, 0, 9, 2, 1, 0, 1, 5], addr(1));
    assert_eq!(decoder.blocks.len(), 1);
    assert!(drain(&mut decoder).is_empty());
}

#[test]
fn blocks_without_a_code_deliver_nothing() {
    // 200 + 100 shards are too many for the code.
    let mut block = FecBlock::new(200, 100);
    for i in 0..200usize {
        block.insert(i, vec![0, 1, 9]);
    }
    assert!(block.reconstruct().is_none());
    // Empty shards cannot be recovered from.
    let mut block = FecBlock::new(2, 1);
    assert!(!block.insert(0, Vec::new()));
    assert!(block.insert(2, Vec::new()));
    assert!(block.reconstruct().is_none());
    // Too few have arrived.
    let mut block = FecBlock::new(2, 1);
    assert!(!block.insert(0, vec![0, 1, 9]));
    assert!(block.reconstruct().is_none());
}

#[test]
fn shards_take_the_length_of_the_first() {
    let mut block = FecBlock::new(2, 1);
    assert!(!block.insert(0, vec![0, 2, 8, 9]));
    assert!(!block.insert(7, vec![1]));
    assert!(!block.insert(0, vec![1]));
    assert!(block.insert(1, vec![0, 9, 5, 6, 7]));
    // The second one is cut off, and so is its payload.
    assert_eq!(block.reconstruct(), Some(vec![vec![8, 9], vec![5, 6]]));
}

#[test]
fn payloads_come_out_of_shards() {
    let shards = vec![vec![0, 2, 5, 6, 0], vec![0, 0, 1], vec![9], vec![0, 1, 7], vec![0, 200, 3]];
    assert_eq!(extract_payloads(&shards), vec![vec![5, 6], vec![7], vec![3]]);
}

#[test]
fn old_blocks_are_forgotten() {
    let mut decoder = FecDecoder::new();
    for id in 0..300u32 {
        let packet = encode_packet(id, 0, 2, 1, &[0, 1, 9]);
        decoder.feed(&packet, addr(1));
    }
    assert!(decoder.blocks.len() <= 256);
    // Block 0 is gone: its second packet starts it anew.
    let packet = encode_packet(0, 1, 2, 1, &[0, 1, 9]);
    decoder.feed(&packet, addr(1));
    assert!(drain(&mut decoder).is_empty());
    // Block 299 is not.
    let packet = encode_packet(299, 1, 2, 1, &[0, 1, 8]);
    decoder.feed(&packet, addr(1));
    assert_eq!(drain(&mut decoder), vec![(vec![9], addr(1)), (vec![8], addr(1))]);
}

#[test]
fn done_blocks_are_forgotten_too() {
    let mut decoder = FecDecoder::new();
    for id in 0..800u32 {
        let packet = encode_packet(id, 0, 1, 1, &[0, 1, 9]);
        decoder.feed(&packet, addr(1));
    }
    assert_eq!(drain(&mut decoder).len(), 800);
    assert!(decoder.completed.len() <= 512);
    decoder.feed(&encode_packet(799, 1, 1, 1, &[0, 1, 9]), addr(1));
    assert!(drain(&mut decoder).is_empty());
}

#[test]
fn memory_is_bounded_over_all_senders() {
    let mut decoder = FecDecoder::new();
    for round in 0..100u32 {
        for sender in 0..5u8 {
            decoder.feed(&encode_packet(round, 0, 2, 1, &[0, 1, 9]), addr(sender));
            assert!(decoder.blocks.len() <= 256);
        }
    }
    assert_eq!(decoder.blocks.len(), 256);
    // The latest blocks of all senders are still there, and the earliest are not.
    for sender in 0..5u8 {
        decoder.feed(&encode_packet(99, 1, 2, 1, &[0, 1, 8]), addr(sender));
        assert_eq!(drain(&mut decoder), vec![(vec![9], addr(sender)), (vec![8], addr(sender))]);
        decoder.feed(&encode_packet(0, 1, 2, 1, &[0, 1, 8]), addr(sender));
        assert!(drain(&mut decoder).is_empty());
        assert!(decoder.blocks.len() <= 256);
    }

    let mut decoder = FecDecoder::new();
    for round in 0..200u32 {
        for sender in 0..5u8 {
            decoder.feed(&encode_packet(round, 0, 1, 1, &[0, 1, 9]), addr(sender));
            assert!(decoder.completed.len() <= 512);
        }
    }
    assert_eq!(drain(&mut decoder).len(), 1000);
    assert_eq!(decoder.completed.len(), 512);
    for sender in 0..5u8 {
        decoder.feed(&encode_packet(199, 1, 1, 1, &[0, 1, 9]), addr(sender));
    }
    assert!(drain(&mut decoder).is_empty());
}

#[test]
fn the_block_furthest_behind_is_forgotten_first() {
    let mut decoder = FecDecoder::new();
    // Sender 1 has blocks 0 to 99, sender 2 blocks 100 to 255: the decoder is full.
    for id in 0..100u32 {
        decoder.feed(&encode_packet(id, 0, 2, 1, &[0, 1, 9]), addr(1));
    }
    for id in 100..256u32 {
        decoder.feed(&encode_packet(id, 0, 2, 1, &[0, 1, 9]), addr(2));
    }
    assert_eq!(decoder.blocks.len(), 256);
    // A third sender starts: what lies outside the windows of the others goes.
    decoder.feed(&encode_packet(0, 0, 2, 1, &[0, 1, 9]), addr(3));
    assert_eq!(decoder.blocks.len(), 100 + 129 + 1);
    // Once the decoder is full again, and all lie in their windows, the oldest one goes.
    for id in 1..27u32 {
        decoder.feed(&encode_packet(id, 0, 2, 1, &[0, 1, 9]), addr(3));
    }
    assert_eq!(decoder.blocks.len(), 256);
    decoder.feed(&encode_packet(27, 0, 2, 1, &[0, 1, 9]), addr(3));
    assert_eq!(decoder.blocks.len(), 256);
    // That was block 127 of sender 2, and block 128 is still there.
    decoder.feed(&encode_packet(128, 1, 2, 1, &[0, 1, 8]), addr(2));
    assert_eq!(drain(&mut decoder).len(), 2);
    decoder.feed(&encode_packet(127, 1, 2, 1, &[0, 1, 8]), addr(2));
    assert!(drain(&mut decoder).is_empty());
}

#[test]
fn transport_sends_full_blocks_and_flushes_late_ones() {
    let mut t = FecTransport::new(&FecConfig::new(2, 1));
    assert!(t.send_to(b"a", addr(1), 100).unwrap().is_empty());
    assert!(t.send_to(b"x", addr(2), 200).unwrap().is_empty());
    assert_eq!(t.flush_delay(200), Some((FLUSH_TIMEOUT - 100) as u128));
    assert_eq!(t.send_to(b"b", addr(1), 300).unwrap().len(), 3);
    assert_eq!(t.flush_delay(300), Some((FLUSH_TIMEOUT - 100) as u128));
    assert!(t.flush_targets(200 + FLUSH_TIMEOUT - 1).is_empty());
    assert_eq!(t.flush_targets(200 + FLUSH_TIMEOUT), vec![addr(2)]);
    assert_eq!(t.flush_delay(u64::MAX), Some(0));
    let packets = t.flush(addr(2)).unwrap();
    assert_eq!(packets.len(), 3);
    assert!(t.flush_delay(0).is_none());
    assert!(t.flush(addr(2)).is_none());
    assert!(flush_fec_encoder(&mut t, addr(3)).is_none());
    assert!(t.send_to(b"y", addr(3), 0).unwrap().is_empty());
    assert_eq!(flush_fec_encoder(&mut t, addr(3)).unwrap().len(), 3);
    assert!(matches!(t.send_to(&[0; 1501], addr(4), 0), Err(TransportError::FecPayloadTooLarge(1501))));
    assert!(t.flush_delay(0).is_none());
}

#[test]
fn transport_receives_what_another_sends() {
    let mut a = FecTransport::new(&FecConfig::default());
    let mut b = FecTransport::new(&FecConfig::default());
    let mut packets = Vec::new();
    for payload in [&b"one"[..], b"two", b"three"] {
        packets = a.send_to(payload, addr(2), 0).unwrap();
    }
    assert!(matches!(b.poll_recv(0, 100), RecvAction::Wait(None)));
    for i in [3, 0, 2] {
        b.feed(&packets[i], addr(1));
    }
    for expected in [&b"one"[..], b"two", b"thr"] {
        match b.poll_recv(0, 3) {
            RecvAction::Deliver(data, from) => {
                assert_eq!(data, expected.to_vec());
                assert_eq!(from, addr(1));
            }
            RecvAction::Wait(_) => panic!("expected a datagram"),
        }
    }
    assert!(b.send_to(b"z", addr(1), 5).unwrap().is_empty());
    assert!(matches!(b.poll_recv(5, 3), RecvAction::Wait(Some(50_000_000))));
}
