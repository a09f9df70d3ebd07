use lt_fountain::Block;
use lt_fountain::Fountain;
use lt_fountain::FountainError;
use lt_fountain::Packet;
use lt_fountain::XorShift;

// Fixed-point spike inputs for a few reference configurations, computed as
// round(v * 2^32) from S = c * sqrt(K) * ln(K/delta) and T = ln(S/delta).

// K = 1, c = 1.0, delta = 0.01.
const S_K1: u64 = 19779055341;
const T_K1: u64 = 26338241889;

// K = 5, c = 1.0, delta = 0.01.
const S_K5: u64 = 59684094600;
const T_K5: u64 = 31081784142;

#[test]
fn xorshift_first_output_from_seed_one() {
    let mut g = XorShift::from_seed(1);
    assert_eq!(g.rand(), 270369);
}

#[test]
fn xorshift_same_seed_same_sequence() {
    let mut a = XorShift::from_seed(0xDEADBEEF);
    let mut b = XorShift::from_seed(0xDEADBEEF);
    for _ in 0..10 {
        assert_eq!(a.rand(), b.rand());
    }
}

#[test]
fn serialize_reference_packet() {
    let p = Packet {
        total_size: 5,
        degree: 2,
        rng_seed: 1234,
        xor_block: Block { index: 3, content: 7 },
    };
    let bytes = Fountain::serialize_packet(&p);
    let expected: [u8; 20] = [
        0, 0, 0, 5, // total_size
        0, 0, 0, 2, // degree
        0, 0, 4, 210, // rng_seed = 1234
        0, 0, 0, 3, // combined index
        7, // combined content
        114, 165, 5, // checksum chain over the fields
    ];
    assert_eq!(bytes, expected);
}

#[test]
fn serialize_identical_packets_identical_bytes() {
    let p1 = Packet {
        total_size: 9,
        degree: 3,
        rng_seed: 42,
        xor_block: Block { index: 6, content: 0x5A },
    };
    let p2 = Packet {
        total_size: 9,
        degree: 3,
        rng_seed: 42,
        xor_block: Block { index: 6, content: 0x5A },
    };
    assert_eq!(Fountain::serialize_packet(&p1), Fountain::serialize_packet(&p2));
}

fn checksum_of(p: &Packet) -> [u8; 3] {
    let b = Fountain::serialize_packet(p);
    [b[17], b[18], b[19]]
}

#[test]
fn checksum_single_bit_sensitivity() {
    let base = Packet {
        total_size: 5,
        degree: 2,
        rng_seed: 1234,
        xor_block: Block { index: 3, content: 7 },
    };
    let base_sum = checksum_of(&base);
    for bit in 0..32 {
        let mut p = base;
        p.total_size ^= 1u32 << bit;
        assert_ne!(checksum_of(&p), base_sum, "total_size bit {}", bit);
        let mut p = base;
        p.degree ^= 1u32 << bit;
        assert_ne!(checksum_of(&p), base_sum, "degree bit {}", bit);
        let mut p = base;
        p.rng_seed ^= 1u32 << bit;
        assert_ne!(checksum_of(&p), base_sum, "rng_seed bit {}", bit);
        let mut p = base;
        p.xor_block.index ^= 1u32 << bit;
        assert_ne!(checksum_of(&p), base_sum, "index bit {}", bit);
    }
    for bit in 0..8 {
        let mut p = base;
        p.xor_block.content ^= 1u8 << bit;
        assert_ne!(checksum_of(&p), base_sum, "content bit {}", bit);
    }
}

#[test]
fn single_byte_source_distribution_is_one() {
    let f = Fountain::new(vec![0xAB], 1, S_K1, T_K1).unwrap();
    assert_eq!(f.len(), 1);
    assert_eq!(f.total_weight(), 1u64 << 32);
    assert_eq!(f.weight_at(0), 1u64 << 32);
}

#[test]
fn single_byte_source_packets_are_fixed() {
    let f = Fountain::new(vec![0xAB], 1, S_K1, T_K1).unwrap();
    for (x, seed) in [(0u64, 0u32), (u64::MAX, 77), (12345, 0xFFFF_FFFF)] {
        let p = f.generate_packet_with(x, seed);
        assert_eq!(p.total_size, 1);
        assert_eq!(p.degree, 1);
        assert_eq!(p.rng_seed, seed);
        assert_eq!(p.xor_block.index, 0);
        assert_eq!(p.xor_block.content, 0xAB);
    }
    // Whatever the ambient entropy drew, the packet is forced.
    let p = f.generate_packet();
    assert_eq!(p.total_size, 1);
    assert_eq!(p.degree, 1);
    assert_eq!(p.xor_block.index, 0);
    assert_eq!(p.xor_block.content, 0xAB);
}

#[test]
fn five_byte_distribution_weights() {
    let f = Fountain::new(vec![10, 20, 30, 40, 50], 5, S_K5, T_K5).unwrap();
    assert_eq!(f.len(), 5);
    let expected: [u64; 5] = [858993459, 2147483648, 715827882, 357913941, 214748364];
    let mut total: u64 = 0;
    for (i, w) in expected.iter().enumerate() {
        assert_eq!(f.weight_at(i), *w);
        assert!(f.weight_at(i) > 0);
        total += w;
    }
    assert_eq!(f.total_weight(), total);

    // The normalized weights sum to 1 within 1e-9 (they sum to exactly 1
    // as rationals; the tolerance only absorbs the float conversion).
    let t = f.total_weight() as f64;
    let mut sum: f64 = 0.0;
    for i in 0..5 {
        let w = f.weight_at(i) as f64 / t;
        assert!(w >= 0.0);
        sum += w;
    }
    assert!((sum - 1.0).abs() < 1e-9);
}

#[test]
fn degree_sampling_exact_and_bounded() {
    let f = Fountain::new(vec![10, 20, 30, 40, 50], 5, S_K5, T_K5).unwrap();
    assert_eq!(f.sample_degree(0), 1);
    assert_eq!(f.sample_degree(1u64 << 63), 2);
    assert_eq!(f.sample_degree(u64::MAX), 5);
    assert_eq!(f.sample_degree(123456789), 1);
    for x in [0u64, 1, 999, 1u64 << 32, 1u64 << 62, u64::MAX - 1, u64::MAX] {
        let d = f.sample_degree(x);
        assert!((1..=5).contains(&d));
    }
}

#[test]
fn same_draws_same_packet() {
    let f = Fountain::new(vec![10, 20, 30, 40, 50], 5, S_K5, T_K5).unwrap();
    let p1 = f.generate_packet_with(1u64 << 63, 1234);
    let p2 = f.generate_packet_with(1u64 << 63, 1234);
    assert_eq!(p1, p2);
    assert_eq!(p1.total_size, 5);
    assert_eq!(p1.degree, 2);
    assert_eq!(p1.rng_seed, 1234);
    assert_eq!(p1.xor_block.index, 2);
    assert_eq!(p1.xor_block.content, 60);
}

#[test]
fn generated_packets_are_in_bounds() {
    let f = Fountain::new(vec![1, 2, 3, 4, 5, 6, 7], 7, S_K5, T_K5).unwrap();
    for _ in 0..100 {
        let p = f.generate_packet();
        assert_eq!(p.total_size, 7);
        assert!(p.degree >= 1 && p.degree <= 7);
        let bytes = Fountain::serialize_packet(&p);
        assert_eq!(bytes.len(), 20);
    }
}

#[test]
fn empty_source_is_invalid_input() {
    assert!(matches!(Fountain::new(vec![], 1, S_K1, T_K1), Err(FountainError::InvalidInput)));
}

#[test]
fn zero_chunk_parameter_is_invalid_configuration() {
    assert!(matches!(
        Fountain::new(vec![1, 2, 3], 0, S_K1, T_K1),
        Err(FountainError::InvalidConfiguration)
    ));
}

#[test]
fn oversized_chunk_parameter_is_invalid_configuration() {
    assert!(matches!(
        Fountain::new(vec![1, 2, 3], 4, S_K1, T_K1),
        Err(FountainError::InvalidConfiguration)
    ));
}

#[test]
fn zero_spike_size_is_invalid_configuration() {
    assert!(matches!(
        Fountain::new(vec![1, 2, 3], 3, 0, T_K1),
        Err(FountainError::InvalidConfiguration)
    ));
}
