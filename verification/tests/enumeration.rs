use subnet_calc::partition::partition;
use subnet_calc::subnet::{enumerate, NetworkPrefix};

fn prefix(o1: u8, o2: u8, o3: u8) -> NetworkPrefix {
    NetworkPrefix { o1, o2, o3 }
}

#[test]
fn eight_address_block_index_one_roles() {
    let records = enumerate(prefix(192, 168, 10), 8);
    assert_eq!(records.len(), 32);
    let r = &records[1];
    assert_eq!(r.index, 1);
    assert_eq!(r.network_id, 8);
    assert_eq!(r.gateway, Some(9));
    assert_eq!(r.switch, Some(10));
    assert_eq!(r.first_host, Some(11));
    assert_eq!(r.last_host, Some(14));
    assert_eq!(r.broadcast, 15);
}

#[test]
fn two_address_blocks_have_only_network_and_broadcast() {
    let records = enumerate(prefix(10, 0, 0), 2);
    assert_eq!(records.len(), 128);
    for r in &records {
        assert_eq!(r.gateway, None);
        assert_eq!(r.switch, None);
        assert_eq!(r.first_host, None);
        assert_eq!(r.last_host, None);
        assert_eq!(r.network_id, r.broadcast - 1);
    }
}

#[test]
fn four_address_blocks_have_no_host_range() {
    let records = enumerate(prefix(172, 16, 5), 4);
    assert_eq!(records.len(), 64);
    for r in &records {
        assert!(r.gateway.is_some());
        assert!(r.switch.is_some());
        assert_eq!(r.first_host, None);
        assert_eq!(r.last_host, None);
    }
}

#[test]
fn whole_octet_block_has_full_roles() {
    let records = enumerate(prefix(10, 20, 30), 256);
    assert_eq!(records.len(), 1);
    let r = &records[0];
    assert_eq!(r.network_id, 0);
    assert_eq!(r.gateway, Some(1));
    assert_eq!(r.switch, Some(2));
    assert_eq!(r.first_host, Some(3));
    assert_eq!(r.last_host, Some(254));
    assert_eq!(r.broadcast, 255);
}

#[test]
fn repeated_enumeration_is_identical() {
    for cidr in 24..=31 {
        let (_, block_size, _) = partition(cidr);
        let p = prefix(192, 168, 10);
        let first = enumerate(p, block_size);
        let second = enumerate(p, block_size);
        assert_eq!(first, second);
    }
}

#[test]
fn blocks_tile_the_last_octet() {
    for cidr in 24..=31 {
        let (_, block_size, count) = partition(cidr);
        let records = enumerate(prefix(10, 0, 0), block_size);
        assert_eq!(records.len(), count as usize);
        assert_eq!(records[0].network_id, 0);
        assert_eq!(records[records.len() - 1].broadcast, 255);
        for w in records.windows(2) {
            assert_eq!(w[0].broadcast as u16 + 1, w[1].network_id as u16);
        }
        for r in &records {
            assert_eq!(
                r.broadcast as u16 - r.network_id as u16 + 1,
                block_size
            );
        }
    }
}
