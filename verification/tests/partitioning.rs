use subnet_calc::partition::{bits_in_cidr, partition};

#[test]
fn cidr_24_gives_one_whole_block() {
    let (mask, block_size, count) = partition(24);
    assert_eq!(mask, 0);
    assert_eq!(block_size, 256);
    assert_eq!(count, 1);
}

#[test]
fn cidr_30_gives_four_address_blocks() {
    let (mask, block_size, count) = partition(30);
    assert_eq!(mask, 252);
    assert_eq!(block_size, 4);
    assert_eq!(count, 64);
}

#[test]
fn cidr_31_gives_two_address_blocks() {
    let (mask, block_size, count) = partition(31);
    assert_eq!(mask, 254);
    assert_eq!(block_size, 2);
    assert_eq!(count, 128);
}

#[test]
fn all_cidrs_give_power_of_two_blocks_dividing_256() {
    for cidr in 24..=31 {
        let (mask, block_size, count) = partition(cidr);
        assert_eq!(256 - mask, block_size);
        assert!(block_size.is_power_of_two());
        assert_eq!(256 % block_size, 0);
        assert_eq!(count, 256 / block_size);
    }
}

#[test]
fn block_sizes_of_all_subnets_sum_to_256() {
    for cidr in 24..=31 {
        let (_, block_size, count) = partition(cidr);
        let mut total: u32 = 0;
        for _ in 0..count {
            total += block_size as u32;
        }
        assert_eq!(total, 256);
    }
}

#[test]
fn borrowed_bits_count_per_cidr() {
    assert_eq!(bits_in_cidr(24), 0);
    assert_eq!(bits_in_cidr(28), 4);
    assert_eq!(bits_in_cidr(31), 7);
}
