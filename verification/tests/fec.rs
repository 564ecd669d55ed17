use probability::distribution::{Binomial, Distribution};
use sosistab::fec::decoder::recover;
use sosistab::fec::rate::{cap_overhead, overhead};
use sosistab::fec::{post_decode, pre_encode, FrameDecoder, FrameEncoder};

/// The first number of added shards with which a block of `run_len` data
/// shards meets the target loss, by the binomial model.
fn first_fit(target_loss: u8, measured_loss: u8, run_len: usize) -> usize {
    let mut additional_len = 0;
    loop {
        let distro = Binomial::with_failure(
            run_len + additional_len,
            (measured_loss as f64 / 256.0).max(1e-100).min(1.0 - 1e-100),
        );
        if distro.distribution(run_len as f64) <= target_loss as f64 / 256.0 {
            return additional_len;
        }
        additional_len += 1;
    }
}

fn sample_packets(count: usize) -> Vec<Vec<u8>> {
    (0..count)
        .map(|i| (0..(i * 7 % 23 + 1)).map(|j| (i * 31 + j * 5 + 1) as u8).collect())
        .collect()
}

fn encode(target_loss: u8, measured_loss: u8, pkts: &[Vec<u8>]) -> Vec<Vec<u8>> {
    let mut encoder = FrameEncoder::new(target_loss);
    let fit = first_fit(target_loss, measured_loss, pkts.len());
    encoder.encode(measured_loss, pkts, fit)
}

/// Feeds the shards at `order` to a fresh decoder and returns all that it
/// delivered, with the decoder.
fn feed(
    data_shards: usize,
    parity_shards: usize,
    shards: &[Vec<u8>],
    order: &[usize],
) -> (Vec<Vec<u8>>, FrameDecoder) {
    let mut decoder = FrameDecoder::new(data_shards, parity_shards);
    let mut got = Vec::new();
    for &idx in order {
        if let Some(pkts) = decoder.decode(&shards[idx], idx) {
            got.extend(pkts);
        }
    }
    (got, decoder)
}

fn sorted(mut pkts: Vec<Vec<u8>>) -> Vec<Vec<u8>> {
    pkts.sort();
    pkts
}

#[test]
fn pre_encode_pads_with_zeros() {
    assert_eq!(
        pre_encode(&[0xAA, 0xBB, 0xCC], 8),
        vec![0x03, 0x00, 0xAA, 0xBB, 0xCC, 0x00, 0x00, 0x00]
    );
}

#[test]
fn pre_encode_exact_fit_and_empty_body() {
    assert_eq!(pre_encode(&[1, 2], 4), vec![2, 0, 1, 2]);
    assert_eq!(pre_encode(&[], 2), vec![0, 0]);
    assert_eq!(pre_encode(&[], 5), vec![0, 0, 0, 0, 0]);
}

#[test]
fn pre_encode_length_is_little_endian() {
    let pkt = vec![7u8; 300];
    let shard = pre_encode(&pkt, 302);
    assert_eq!(&shard[..2], &[44, 1]);
    assert_eq!(&shard[2..], &pkt[..]);
    let longest = vec![9u8; 65535];
    let shard = pre_encode(&longest, 65537);
    assert_eq!(&shard[..2], &[0xFF, 0xFF]);
    assert_eq!(shard.len(), 65537);
}

#[test]
fn post_decode_reads_the_body() {
    assert_eq!(
        post_decode(&[0x03, 0x00, 0xAA, 0xBB, 0xCC, 0x00, 0x00, 0x00]),
        Some(vec![0xAA, 0xBB, 0xCC])
    );
    assert_eq!(post_decode(&[0, 0]), Some(vec![]));
    assert_eq!(post_decode(&[2, 0, 5, 6]), Some(vec![5, 6]));
}

#[test]
fn post_decode_rejects_corrupt_framing() {
    assert_eq!(post_decode(&[]), None);
    assert_eq!(post_decode(&[1]), None);
    assert_eq!(post_decode(&[3, 0, 1, 2]), None);
    assert_eq!(post_decode(&[0, 1, 1, 2, 3]), None);
    assert_eq!(post_decode(&[0xFF, 0xFF]), None);
}

#[test]
fn framing_round_trip() {
    for len in [0usize, 1, 2, 255, 256, 257, 1000] {
        let pkt: Vec<u8> = (0..len).map(|i| (i * 3) as u8).collect();
        for pad in [0usize, 1, 17] {
            let shard = pre_encode(&pkt, len + 2 + pad);
            assert_eq!(shard.len(), len + 2 + pad);
            assert_eq!(post_decode(&shard), Some(pkt.clone()));
        }
    }
}

#[test]
fn overhead_is_one_less_than_first_fit() {
    assert_eq!(overhead(0), 0);
    assert_eq!(overhead(1), 0);
    assert_eq!(overhead(2), 1);
    assert_eq!(overhead(8), 7);
}

#[test]
fn parity_is_capped_by_room_and_by_data() {
    assert_eq!(cap_overhead(3, 10), 3);
    assert_eq!(cap_overhead(10, 10), 10);
    assert_eq!(cap_overhead(20, 10), 10);
    assert_eq!(cap_overhead(100, 200), 55);
    assert_eq!(cap_overhead(100, 128), 100);
    assert_eq!(cap_overhead(1000, 128), 127);
    assert_eq!(cap_overhead(1000, 127), 127);
    assert_eq!(cap_overhead(7, 255), 0);
    assert_eq!(cap_overhead(7, 0), 0);
}

#[test]
fn parity_never_exceeds_the_cap() {
    for run_len in 0..=255usize {
        for wanted in [0usize, 1, 2, 50, 127, 128, 255, 256, 100_000] {
            let parity = cap_overhead(wanted, run_len);
            assert!(parity <= run_len);
            assert!(parity <= 255 - run_len);
            assert!(parity <= wanted);
        }
    }
}

#[test]
fn parity_does_not_fall_as_first_fit_rises() {
    for run_len in [1usize, 10, 100, 128, 200, 255] {
        let mut last = 0;
        for fit in 0..300usize {
            let parity = cap_overhead(overhead(fit), run_len);
            assert!(parity >= last);
            last = parity;
        }
    }
}

#[test]
fn parity_does_not_fall_as_measured_loss_rises() {
    for run_len in [1usize, 10] {
        let mut last = 0;
        for measured_loss in 0..=200u8 {
            let parity = cap_overhead(overhead(first_fit(5, measured_loss, run_len)), run_len);
            assert!(parity >= last);
            last = parity;
        }
    }
}

#[test]
fn parity_does_not_rise_as_target_loss_rises() {
    for run_len in [1usize, 10] {
        let mut last = usize::MAX;
        for target_loss in 1..=255u8 {
            let parity = cap_overhead(overhead(first_fit(target_loss, 26, run_len)), run_len);
            assert!(parity <= last);
            last = parity;
        }
    }
}

#[test]
fn repair_len_remembers_the_first_outcome() {
    let mut encoder = FrameEncoder::new(1);
    assert_eq!(encoder.target_loss(), 1);
    assert!(!encoder.is_rated(26, 10));
    assert_eq!(encoder.repair_len(26, 10, 5), 4);
    assert!(encoder.is_rated(26, 10));
    assert!(!encoder.is_rated(26, 11));
    assert!(!encoder.is_rated(27, 10));
    assert_eq!(encoder.repair_len(26, 10, 9), 4);
    assert_eq!(encoder.repair_len(26, 11, 9), 8);
    assert_eq!(encoder.repair_len(27, 10, 100), 10);
    assert_eq!(encoder.repair_len(27, 10, 0), 10);
    assert_eq!(encoder.repair_len(0, 255, 3), 0);
    assert!(!encoder.is_rated(0, 256));
}

#[test]
fn no_loss_gives_no_parity() {
    let pkts = sample_packets(10);
    assert_eq!(first_fit(1, 0, 10), 1);
    let mut encoder = FrameEncoder::new(1);
    assert_eq!(encoder.repair_len(0, 10, first_fit(1, 0, 10)), 0);
    let shards = encode(1, 0, &pkts);
    assert_eq!(shards.len(), 10);
    let len = pkts.iter().map(|p| p.len()).max().unwrap() + 2;
    for (shard, pkt) in shards.iter().zip(pkts.iter()) {
        assert_eq!(shard, &pre_encode(pkt, len));
    }
}

#[test]
fn ten_percent_loss_gives_parity_that_repairs() {
    let pkts = sample_packets(10);
    let mut encoder = FrameEncoder::new(1);
    let parity = encoder.repair_len(26, 10, first_fit(1, 26, 10));
    assert!(parity >= 3);
    assert!(parity <= 10);
    let shards = encode(1, 26, &pkts);
    assert_eq!(shards.len(), 10 + parity);
    let len = shards[0].len();
    assert!(shards.iter().all(|s| s.len() == len));
    // Every choice of ten among the first thirteen shards, the data shards
    // of the choice first.
    for mask in 0u32..(1 << 13) {
        if mask.count_ones() != 10 {
            continue;
        }
        let order: Vec<usize> = (0..13).filter(|i| mask & (1 << i) != 0).collect();
        let (got, decoder) = feed(10, parity, &shards, &order);
        assert_eq!(sorted(got), sorted(pkts.clone()));
        assert_eq!(decoder.good_pkts(), 10);
        assert_eq!(decoder.lost_pkts(), 0);
    }
}

#[test]
fn encode_frames_data_and_adds_parity() {
    let pkts = vec![vec![1u8, 2, 3], vec![4u8], vec![], vec![5u8, 6, 7, 8, 9]];
    let mut encoder = FrameEncoder::new(1);
    let shards = encoder.encode(100, &pkts, 3);
    assert_eq!(shards.len(), 6);
    assert_eq!(shards[0], vec![3, 0, 1, 2, 3, 0, 0]);
    assert_eq!(shards[1], vec![1, 0, 4, 0, 0, 0, 0]);
    assert_eq!(shards[2], vec![0, 0, 0, 0, 0, 0, 0]);
    assert_eq!(shards[3], vec![5, 0, 5, 6, 7, 8, 9]);
    assert_eq!(shards[4].len(), 7);
    assert_eq!(shards[5].len(), 7);
    assert_ne!(shards[4], vec![0u8; 7]);
    assert_ne!(shards[5], vec![0u8; 7]);
    assert_ne!(shards[4], shards[5]);
    // The same run again: the remembered overhead, and the same block.
    assert_eq!(encoder.encode(100, &pkts, 50), shards);
    // A fresh encoder computes the same parity.
    assert_eq!(FrameEncoder::new(9).encode(3, &pkts, 3), shards);
}

#[test]
fn encode_caps_parity_at_data() {
    let pkts = sample_packets(3);
    let shards = FrameEncoder::new(1).encode(200, &pkts, 1000);
    assert_eq!(shards.len(), 6);
    let pkts = sample_packets(255);
    let shards = FrameEncoder::new(1).encode(200, &pkts, 1000);
    assert_eq!(shards.len(), 255);
    let pkts = sample_packets(200);
    let shards = FrameEncoder::new(1).encode(200, &pkts, 1000);
    assert_eq!(shards.len(), 255);
}

#[test]
fn encode_one_packet() {
    let shards = FrameEncoder::new(1).encode(50, &[vec![9u8, 9]], 4);
    assert_eq!(shards.len(), 2);
    assert_eq!(shards[0], vec![2, 0, 9, 9]);
    let (got, _) = feed(1, 1, &shards, &[1]);
    assert_eq!(got, vec![vec![9u8, 9]]);
}

#[test]
fn round_trip_lossless() {
    for (count, measured_loss) in [(1usize, 0u8), (1, 80), (2, 0), (10, 26), (100, 13), (255, 200)] {
        let pkts = sample_packets(count);
        let mut encoder = FrameEncoder::new(1);
        let fit = first_fit(1, measured_loss, count);
        let parity = encoder.repair_len(measured_loss, count, fit);
        let shards = encoder.encode(measured_loss, &pkts, fit);
        assert_eq!(shards.len(), count + parity);
        let order: Vec<usize> = (0..count).collect();
        let (got, decoder) = feed(count, parity, &shards, &order);
        assert_eq!(got, pkts);
        assert_eq!(decoder.good_pkts(), count);
        assert_eq!(decoder.lost_pkts(), 0);
    }
}

#[test]
fn round_trip_lossy_any_order() {
    let pkts = sample_packets(6);
    let shards = FrameEncoder::new(1).encode(77, &pkts, 5);
    assert_eq!(shards.len(), 10);
    let orders: [&[usize]; 6] = [
        &[5, 4, 9, 8, 7, 6],
        &[0, 9, 1, 8, 2, 7],
        &[6, 0, 1, 2, 3, 4, 7],
        &[0, 1, 2, 3, 4, 6],
        &[5, 4, 3, 2, 1, 0],
        &[9, 0, 1, 2, 3, 4, 5],
    ];
    for order in orders {
        let (got, decoder) = feed(6, 4, &shards, order);
        assert_eq!(sorted(got), sorted(pkts.clone()));
        assert_eq!(decoder.lost_pkts(), 0);
    }
}

#[test]
fn repair_delivers_the_missing_packets_in_order() {
    let pkts = sample_packets(5);
    let shards = FrameEncoder::new(1).encode(77, &pkts, 4);
    assert_eq!(shards.len(), 8);
    let mut decoder = FrameDecoder::new(5, 3);
    assert_eq!(decoder.decode(&shards[3], 3), Some(vec![pkts[3].clone()]));
    assert_eq!(decoder.decode(&shards[7], 7), None);
    assert_eq!(decoder.decode(&shards[1], 1), Some(vec![pkts[1].clone()]));
    assert_eq!(decoder.decode(&shards[5], 5), None);
    assert_eq!(decoder.good_pkts(), 2);
    assert_eq!(decoder.lost_pkts(), 3);
    assert_eq!(
        decoder.decode(&shards[6], 6),
        Some(vec![pkts[0].clone(), pkts[2].clone(), pkts[4].clone()])
    );
    assert_eq!(decoder.good_pkts(), 5);
    assert_eq!(decoder.lost_pkts(), 0);
}

#[test]
fn a_data_shard_sets_off_no_repair() {
    let pkts = sample_packets(2);
    let shards = FrameEncoder::new(1).encode(77, &pkts, 2);
    assert_eq!(shards.len(), 3);
    let (got, decoder) = feed(2, 1, &shards, &[2, 0]);
    assert_eq!(got, vec![pkts[0].clone()]);
    assert_eq!(decoder.good_pkts(), 1);
    assert_eq!(decoder.lost_pkts(), 1);
    let (got, decoder) = feed(2, 1, &shards, &[0, 2]);
    assert_eq!(got, pkts);
    assert_eq!(decoder.lost_pkts(), 0);
}

#[test]
fn too_few_shards_repair_nothing() {
    let pkts = sample_packets(6);
    let shards = FrameEncoder::new(1).encode(77, &pkts, 5);
    let (got, decoder) = feed(6, 4, &shards, &[9, 2, 8, 0, 7]);
    assert_eq!(got, vec![pkts[2].clone(), pkts[0].clone()]);
    assert_eq!(decoder.good_pkts(), 2);
    assert_eq!(decoder.lost_pkts(), 4);
    let (got, decoder) = feed(6, 4, &shards, &[6, 7, 8, 9]);
    assert_eq!(got, Vec::<Vec<u8>>::new());
    assert_eq!(decoder.good_pkts(), 0);
    assert_eq!(decoder.lost_pkts(), 6);
}

#[test]
fn decoder_is_single_use_after_repair() {
    let pkts = sample_packets(4);
    let shards = FrameEncoder::new(1).encode(77, &pkts, 3);
    assert_eq!(shards.len(), 6);
    let mut decoder = FrameDecoder::new(4, 2);
    assert!(decoder.decode(&shards[0], 0).is_some());
    assert!(decoder.decode(&shards[1], 1).is_some());
    assert!(decoder.decode(&shards[2], 2).is_some());
    assert_eq!(decoder.decode(&shards[5], 5), Some(vec![pkts[3].clone()]));
    for idx in 0..6 {
        assert_eq!(decoder.decode(&shards[idx], idx), None);
    }
    assert_eq!(decoder.decode(&[1, 0, 7], 0), None);
    assert_eq!(decoder.good_pkts(), 4);
}

#[test]
fn identity_decoder_strips_every_shard() {
    let mut decoder = FrameDecoder::new(3, 0);
    assert_eq!(decoder.good_pkts(), 0);
    assert_eq!(decoder.lost_pkts(), 3);
    assert_eq!(decoder.decode(&[2, 0, 8, 9, 0], 0), Some(vec![vec![8, 9]]));
    assert_eq!(decoder.good_pkts(), 3);
    assert_eq!(decoder.lost_pkts(), 0);
    assert_eq!(decoder.decode(&[1, 0, 7], 1), Some(vec![vec![7]]));
    assert_eq!(decoder.decode(&[1, 0, 7], 99), Some(vec![vec![7]]));
    assert_eq!(decoder.decode(&[5, 0, 7], 2), None);
    assert_eq!(decoder.decode(&[], 2), None);
}

#[test]
fn decoder_rejects_an_index_outside_the_block() {
    let pkts = sample_packets(3);
    let shards = FrameEncoder::new(1).encode(77, &pkts, 3);
    assert_eq!(shards.len(), 5);
    let mut decoder = FrameDecoder::new(3, 2);
    // Rejected, and the length of this shard binds nothing.
    assert_eq!(decoder.decode(&[1, 0, 7], 5), None);
    assert_eq!(decoder.decode(&[1, 0, 7], usize::MAX), None);
    assert_eq!(decoder.good_pkts(), 0);
    assert_eq!(decoder.decode(&shards[0], 0), Some(vec![pkts[0].clone()]));
    assert_eq!(decoder.good_pkts(), 1);
}

#[test]
fn decoder_rejects_a_shard_of_another_length() {
    let pkts = sample_packets(3);
    let shards = FrameEncoder::new(1).encode(77, &pkts, 3);
    let mut decoder = FrameDecoder::new(3, 2);
    assert_eq!(decoder.decode(&shards[0], 0), Some(vec![pkts[0].clone()]));
    let mut longer = shards[1].clone();
    longer.push(0);
    assert_eq!(decoder.decode(&longer, 1), None);
    assert_eq!(decoder.decode(&shards[1][1..], 1), None);
    assert_eq!(decoder.good_pkts(), 1);
    assert_eq!(decoder.decode(&shards[1], 1), Some(vec![pkts[1].clone()]));
    assert_eq!(decoder.good_pkts(), 2);
}

#[test]
fn decoder_records_a_data_shard_with_corrupt_framing() {
    let mut decoder = FrameDecoder::new(2, 1);
    assert_eq!(decoder.decode(&[9, 0, 1, 2], 0), None);
    assert_eq!(decoder.good_pkts(), 1);
    assert_eq!(decoder.lost_pkts(), 1);
    assert_eq!(decoder.decode(&[2, 0, 1, 2], 0), Some(vec![vec![1, 2]]));
    assert_eq!(decoder.good_pkts(), 1);
}

#[test]
fn decoder_counts_a_shard_once() {
    let pkts = sample_packets(3);
    let shards = FrameEncoder::new(1).encode(77, &pkts, 3);
    let mut decoder = FrameDecoder::new(3, 2);
    assert_eq!(decoder.decode(&shards[4], 4), None);
    assert_eq!(decoder.decode(&shards[4], 4), None);
    assert_eq!(decoder.decode(&shards[4], 4), None);
    assert_eq!(decoder.decode(&shards[0], 0), Some(vec![pkts[0].clone()]));
    assert_eq!(decoder.decode(&shards[0], 0), Some(vec![pkts[0].clone()]));
    assert_eq!(decoder.good_pkts(), 1);
    assert_eq!(
        decoder.decode(&shards[3], 3),
        Some(vec![pkts[1].clone(), pkts[2].clone()])
    );
}

#[test]
fn a_large_block_is_not_repaired() {
    let count = 100;
    let pkts = sample_packets(count);
    let shards = FrameEncoder::new(1).encode(77, &pkts, 30);
    assert_eq!(shards.len(), 129);
    let order: Vec<usize> = (1..129).collect();
    let (got, decoder) = feed(100, 29, &shards, &order);
    assert_eq!(got, pkts[1..].to_vec());
    assert_eq!(decoder.good_pkts(), 99);
    assert_eq!(decoder.lost_pkts(), 1);
    // One shard fewer, and the same arrivals repair.
    let shards = FrameEncoder::new(1).encode(77, &pkts, 29);
    assert_eq!(shards.len(), 128);
    let order: Vec<usize> = (1..128).collect();
    let (got, decoder) = feed(100, 28, &shards, &order);
    assert_eq!(sorted(got), sorted(pkts));
    assert_eq!(decoder.lost_pkts(), 0);
}

#[test]
fn a_decoder_without_data_shards_delivers_nothing() {
    let mut decoder = FrameDecoder::new(0, 2);
    assert_eq!(decoder.good_pkts(), 0);
    assert_eq!(decoder.lost_pkts(), 0);
    assert_eq!(decoder.decode(&[1, 0, 7], 0), None);
    assert_eq!(decoder.decode(&[1, 0, 7], 1), None);
    assert_eq!(decoder.decode(&[1, 0, 7], 2), None);
    let mut decoder = FrameDecoder::new(0, 0);
    assert_eq!(decoder.decode(&[1, 0, 7], 0), Some(vec![vec![7]]));
}

#[test]
fn empty_shards_are_never_repaired() {
    let mut decoder = FrameDecoder::new(1, 1);
    assert_eq!(decoder.decode(&[], 1), None);
    assert_eq!(decoder.good_pkts(), 0);
    assert_eq!(decoder.decode(&[], 0), None);
    assert_eq!(decoder.good_pkts(), 1);
    assert_eq!(decoder.decode(&[], 1), None);
}

#[test]
fn recover_unframes_the_absent_data_shards() {
    let block = vec![
        vec![1u8, 0, 10, 0],
        vec![2, 0, 20, 21],
        vec![9, 0, 30, 31],
        vec![0, 0, 40, 41],
        vec![1, 0, 50, 0],
    ];
    let present = vec![false, true, false, false, false];
    assert_eq!(recover(&block, &present, 4), vec![vec![10u8], vec![]]);
    assert_eq!(recover(&block, &present, 1), vec![vec![10u8]]);
    assert_eq!(recover(&block, &present, 0), Vec::<Vec<u8>>::new());
    assert_eq!(
        recover(&block, &[false; 5].to_vec(), 5),
        vec![vec![10u8], vec![20, 21], vec![], vec![50]]
    );
    assert_eq!(recover(&block, &[true; 5].to_vec(), 5), Vec::<Vec<u8>>::new());
}
