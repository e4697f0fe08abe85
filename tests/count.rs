use count_bytes::block::BLOCK_SIZE;
use count_bytes::lanes::{and_lanes, lanes_eq, load_lanes, nibble_weight, or_lanes, packed_weight, select_bit};
use count_bytes::pipelined::{batch_count_1b, batch_count_2b, BATCH_SIZE};
use count_bytes::{
    count_block_1b, count_low_bytes_2b, divide_simd, interleaved_pipelined_1b,
    interleaved_pipelined_2b, naive_1b, naive_2b, narrow_low_bytes,
};
use rand::{rngs::SmallRng, Rng, RngCore, SeedableRng};

#[test]
fn verify_count() {
    let mut rng = SmallRng::seed_from_u64(1);
    let mut occurences_naive = vec![];
    let mut occurences_interleaved_pipelined = vec![];

    for _ in 0..64 {
        let needle = rng.random();
        let mut haystack = vec![0; 1024].into_boxed_slice();
        rng.fill_bytes(&mut haystack);

        occurences_naive.push(naive_1b(&haystack, needle));
        occurences_interleaved_pipelined.push(interleaved_pipelined_1b(&haystack, needle));
    }

    assert_eq!(occurences_naive, occurences_interleaved_pipelined);
}

#[test]
fn sparse_hits_agree_across_counters() {
    let mut haystack = vec![0x00u8; 1024];
    for &i in &[5usize, 300, 1023] {
        haystack[i] = 0x0A;
    }
    assert_eq!(naive_1b(&haystack, 0x0A), 3);
    assert_eq!(interleaved_pipelined_1b(&haystack, 0x0A), 3);
    assert_eq!(divide_simd(&haystack, 0x0A), 3);
    assert_eq!(naive_1b(&haystack, 0x00), 1021);
    assert_eq!(interleaved_pipelined_1b(&haystack, 0x00), 1021);
    assert_eq!(divide_simd(&haystack, 0x00), 1021);
}

#[test]
fn one_batch_all_matching() {
    let haystack = vec![0x5Cu8; 128];
    assert_eq!(naive_1b(&haystack, 0x5C), 128);
    assert_eq!(interleaved_pipelined_1b(&haystack, 0x5C), 128);
    assert_eq!(batch_count_1b(&haystack, 0, 0x5C), 128);
    assert_eq!(interleaved_pipelined_1b(&haystack, 0x5D), 0);
}

#[test]
fn remainder_is_counted_once() {
    for len in [1usize, 15, 16, 127, 129, 200, 255, 257, 1000] {
        let haystack: Vec<u8> = (0..len).map(|i| (i % 7) as u8).collect();
        for needle in 0u8..8 {
            assert_eq!(
                interleaved_pipelined_1b(&haystack, needle),
                naive_1b(&haystack, needle)
            );
        }
        let all = vec![9u8; len];
        assert_eq!(interleaved_pipelined_1b(&all, 9), len);
    }
    let mut tail_only = vec![0u8; 130];
    tail_only[128] = 1;
    tail_only[129] = 1;
    assert_eq!(interleaved_pipelined_1b(&tail_only, 1), 2);
}

#[test]
fn empty_sequences_count_zero() {
    for needle in [0u8, 0x0A, 0xFF] {
        assert_eq!(naive_1b(&[], needle), 0);
        assert_eq!(interleaved_pipelined_1b(&[], needle), 0);
        assert_eq!(count_low_bytes_2b(&[], needle), 0);
    }
    for needle in [0u16, 0x0A, 0xFFFF] {
        assert_eq!(naive_2b(&[], needle), 0);
        assert_eq!(interleaved_pipelined_2b(&[], needle), 0);
    }
}

#[test]
fn saturated_sequences_count_length() {
    for len in [1usize, 64, 128, 300] {
        assert_eq!(interleaved_pipelined_1b(&vec![0xFFu8; len], 0xFF), len);
        assert_eq!(interleaved_pipelined_2b(&vec![0xFFFFu16; len], 0xFFFF), len);
        assert_eq!(naive_2b(&vec![0x1234u16; len], 0x1234), len);
        assert_eq!(count_low_bytes_2b(&vec![0x1234u16; len], 0x34), len);
    }
    assert_eq!(divide_simd(&vec![0u8; 512], 0), 512);
}

#[test]
fn counts_add_over_contiguous_pieces() {
    let mut rng = SmallRng::seed_from_u64(7);
    let mut haystack = vec![0u8; 640];
    rng.fill_bytes(&mut haystack);
    let needle = haystack[17];
    let whole = interleaved_pipelined_1b(&haystack, needle);
    let pieces = interleaved_pipelined_1b(&haystack[..128], needle)
        + interleaved_pipelined_1b(&haystack[128..384], needle)
        + interleaved_pipelined_1b(&haystack[384..], needle);
    assert_eq!(whole, pieces);
    assert_eq!(whole, naive_1b(&haystack, needle));
}

#[test]
fn wide_counters_agree_with_scalar() {
    let mut rng = SmallRng::seed_from_u64(3);
    for round in 0..200 {
        let len = 1 + (round * 37) % 700;
        let haystack: Vec<u16> = (0..len).map(|_| rng.random::<u16>() % 24 * 0x0101).collect();
        let needle: u16 = rng.random::<u16>() % 24 * 0x0101;
        assert_eq!(interleaved_pipelined_2b(&haystack, needle), naive_2b(&haystack, needle));
    }
}

#[test]
fn wide_compare_uses_high_byte() {
    let haystack = vec![0x010Au16, 0x000A, 0x020A, 0x000B, 0x0A00];
    assert_eq!(naive_2b(&haystack, 0x000A), 1);
    assert_eq!(interleaved_pipelined_2b(&haystack, 0x000A), 1);
    assert_eq!(count_low_bytes_2b(&haystack, 0x0A), 3);
    let mut long = vec![0x000Au16; 256];
    long[3] = 0xFF0A;
    long[200] = 0x0A0A;
    assert_eq!(interleaved_pipelined_2b(&long, 0x000A), 254);
    assert_eq!(batch_count_2b(&long, 128, 0x000A), 127);
    assert_eq!(count_low_bytes_2b(&long, 0x0A), 256);
}

#[test]
fn narrowing_is_repeatable() {
    let data: Vec<u16> = (0..1000u32).map(|i| (i * 2654435761u32 >> 16) as u16).collect();
    let first = count_low_bytes_2b(&data, 0x0A);
    let second = count_low_bytes_2b(&data, 0x0A);
    assert_eq!(first, second);
    let expected = data.iter().filter(|&&e| e as u8 == 0x0A).count();
    assert_eq!(first, expected);
}

#[test]
fn narrowing_keeps_low_bytes_in_order() {
    assert_eq!(narrow_low_bytes(&[0x1234, 0xABCD, 0x00FF, 0xFF00]), vec![0x34, 0xCD, 0xFF, 0x00]);
    assert_eq!(narrow_low_bytes(&[]), Vec::<u8>::new());
}

#[test]
fn block_counter_weighs_compare_mask() {
    let mut block = vec![1u8; BLOCK_SIZE];
    block[0] = 2;
    block[31] = 2;
    block[63] = 2;
    assert_eq!(count_block_1b(&block, 0, 2), 3);
    assert_eq!(count_block_1b(&block, 0, 1), 61);
    assert_eq!(count_block_1b(&block, 0, 3), 0);
    let mut longer = vec![0u8; 70];
    longer[6] = 9;
    longer[69] = 9;
    assert_eq!(count_block_1b(&longer, 6, 9), 2);
}

#[test]
fn divide_matches_scalar() {
    let mut rng = SmallRng::seed_from_u64(11);
    for len in [128usize, 256, 1024, 4096] {
        let mut haystack = vec![0u8; len];
        rng.fill_bytes(&mut haystack);
        for needle in [0u8, 0x0A, 0x80, 0xFF] {
            assert_eq!(divide_simd(&haystack, needle), naive_1b(&haystack, needle));
        }
    }
}

#[test]
fn lane_operations() {
    let bytes: Vec<u8> = (0..32u8).collect();
    let lanes = load_lanes(&bytes, 8);
    assert_eq!(lanes[0], 8);
    assert_eq!(lanes[15], 23);
    let eq = lanes_eq(&lanes, 10);
    assert_eq!(eq[2], 0xFF);
    assert_eq!(eq[3], 0x00);
    let both = and_lanes(&eq, &lanes_eq(&lanes, 11));
    assert_eq!(both, [0u8; 16]);
    let bits = select_bit(&eq, 5);
    assert_eq!(bits[2], 0x20);
    let mut acc = [0x01u8; 16];
    or_lanes(&mut acc, &bits);
    assert_eq!(acc[2], 0x21);
    assert_eq!(acc[4], 0x01);
    assert_eq!(packed_weight(&acc), 17);
    assert_eq!(packed_weight(&[0xFFu8; 16]), 128);
    assert_eq!(nibble_weight(0), 0);
    assert_eq!(nibble_weight(7), 3);
    assert_eq!(nibble_weight(15), 4);
    assert_eq!(BATCH_SIZE, 128);
}
