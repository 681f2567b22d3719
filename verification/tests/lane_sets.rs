use simd_playground::BitSet;
use simd_playground::Block;
use wide::u64x4;

#[test]
fn lib_test_union_of_ones_and_zeros() {
    let size = 1_000;
    let p: BitSet<u64x4> = BitSet::zeros(size);
    let r: BitSet<u64x4> = BitSet::ones(size);
    let s = p | r;

    for i in 0..size {
        assert_eq!(s.get(i), true);
    }
}

#[test]
fn lib_test_union_random_bits() {
    let size = 1_000;
    let mut p: BitSet<u64x4> = BitSet::zeros(size);
    let mut r: BitSet<u64x4> = BitSet::zeros(size);
    p.set(20);
    r.set(600);
    let s = p | r;

    for i in 0..size {
        assert_eq!(s.get(i), i == 20 || i == 600);
    }
}

#[test]
fn lane_block_is_256_bits_wide() {
    assert_eq!(<u64x4 as Block>::SIZE, 256);
}

#[test]
fn lane_block_zeros_and_ones() {
    let zero = <u64x4 as Block>::zeros();
    let full = <u64x4 as Block>::ones();
    assert_eq!(zero.to_array(), [0, 0, 0, 0]);
    assert_eq!(full.to_array(), [u64::MAX, u64::MAX, u64::MAX, u64::MAX]);
    for i in 0..256 {
        assert_eq!(Block::get(&zero, i), false);
        assert_eq!(Block::get(&full, i), true);
    }
}

#[test]
fn lane_block_set_touches_one_lane() {
    let mut v = u64x4::from([1, 2, 4, 8]);
    Block::set(&mut v, 64 + 7);
    assert_eq!(v.to_array(), [1, 2 | (1 << 7), 4, 8]);
    Block::set(&mut v, 255);
    assert_eq!(v.to_array(), [1, 2 | (1 << 7), 4, 8 | (1 << 63)]);
    Block::set(&mut v, 0);
    assert_eq!(v.to_array(), [1, 2 | (1 << 7), 4, 8 | (1 << 63)]);
    Block::set(&mut v, 128);
    assert_eq!(v.to_array(), [1, 2 | (1 << 7), 5, 8 | (1 << 63)]);
}

#[test]
fn lane_block_get_reads_lane_and_digit() {
    let v = u64x4::from([0b1, 0b10, 1 << 63, 0]);
    for i in 0..256 {
        assert_eq!(Block::get(&v, i), i == 0 || i == 65 || i == 191);
    }
}

#[test]
fn lane_block_or_is_lane_by_lane() {
    let a = u64x4::from([0b1100, 0, 1, u64::MAX]);
    let b = u64x4::from([0b1010, 7, 0, 0]);
    assert_eq!(Block::or(a, b).to_array(), [0b1110, 7, 1, u64::MAX]);
}

#[test]
fn lane_sets_round_up_to_256_bits() {
    assert_eq!(BitSet::<u64x4>::required_blocks(0), 0);
    assert_eq!(BitSet::<u64x4>::required_blocks(1), 1);
    assert_eq!(BitSet::<u64x4>::required_blocks(256), 1);
    assert_eq!(BitSet::<u64x4>::required_blocks(257), 2);
    assert_eq!(BitSet::<u64x4>::required_blocks(1_000), 4);
    let s: BitSet<u64x4> = BitSet::zeros(1_000);
    assert_eq!(s.block_count(), 4);
}

#[test]
fn lane_set_round_trip() {
    let size = 1_024;
    for target in [0, 63, 64, 255, 256, 700, 1_023] {
        let mut s: BitSet<u64x4> = BitSet::zeros(size);
        s.set(target);
        for j in 0..size {
            assert_eq!(s.get(j), j == target);
        }
    }
}

#[test]
fn lane_union_of_unequal_lengths() {
    let mut long: BitSet<u64x4> = BitSet::zeros(1_000);
    long.set(3);
    long.set(999);
    let mut short: BitSet<u64x4> = BitSet::zeros(256);
    short.set(200);

    let left_longer = long.clone().union(short.clone());
    let right_longer = short.union(long);
    assert_eq!(left_longer.block_count(), 4);
    assert_eq!(right_longer.block_count(), 4);
    for i in 0..1_024 {
        let expected = i == 3 || i == 200 || i == 999;
        assert_eq!(left_longer.get(i), expected);
        assert_eq!(right_longer.get(i), expected);
    }
}

#[test]
fn lane_union_ones_then_zero_tail() {
    let s = BitSet::<u64x4>::ones(256).union(BitSet::zeros(512));
    for i in 0..256 {
        assert_eq!(s.get(i), true);
    }
    for i in 256..512 {
        assert_eq!(s.get(i), false);
    }
}

#[test]
fn lane_set_from_blocks_and_clone() {
    let s: BitSet<u64x4> = BitSet::from(vec![u64x4::from([0, 1, 0, 0]), u64x4::MAX]);
    let mut copy = s.clone();
    copy.set(0);
    for i in 0..512 {
        assert_eq!(s.get(i), i == 64 || i >= 256);
        assert_eq!(copy.get(i), i == 0 || i == 64 || i >= 256);
    }
}

#[test]
fn lane_set_in_range() {
    let s: BitSet<u64x4> = BitSet::ones(1_000);
    assert_eq!(s.in_range(999), true);
    assert_eq!(s.in_range(1_023), true);
    assert_eq!(s.in_range(1_024), false);
    assert_eq!(s.get(1_023), true);
}
