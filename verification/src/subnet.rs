//! Enumeration of the subnets produced by a partition: for each block of
//! the last octet, the fixed-role addresses inside it.

use vstd::prelude::*;
use vstd::arithmetic::div_mod::lemma_fundamental_div_mod;
use vstd::arithmetic::mul::lemma_mul_inequality;

verus! {

/// First three octets of an IPv4 address; the network part shared by
/// every enumerated subnet.
#[derive(Clone, Copy, Debug, PartialEq, Eq, Structural)]
pub struct NetworkPrefix {
    pub o1: u8,
    pub o2: u8,
    pub o3: u8,
}

/// Role addresses of one subnet, each given as a fourth-octet offset to
/// be appended to the network prefix. Roles that a small block has no
/// room for are absent.
#[derive(Clone, Copy, Debug, PartialEq, Eq)]
pub struct SubnetRecord {
    /// 0-based position of the subnet in the enumeration.
    pub index: u16,
    /// Network prefix shared by all addresses of the subnet.
    pub prefix: NetworkPrefix,
    /// First address of the block.
    pub network_id: u8,
    /// Second address, where the block holds more than two.
    pub gateway: Option<u8>,
    /// Third address, where the block holds more than three.
    pub switch: Option<u8>,
    /// Fourth address, where the block holds more than four.
    pub first_host: Option<u8>,
    /// Next-to-last address, where the block holds more than four.
    pub last_host: Option<u8>,
    /// Last address of the block.
    pub broadcast: u8,
}

/// A block size the enumeration accepts: at least two addresses per
/// subnet, and a whole number of subnets in the last octet.
pub open spec fn valid_block_size(bs: int) -> bool {
    2 <= bs <= 256 && 256int % bs == 0
}

/// The record of subnet `i` for a given prefix and block size. The
/// fourth-octet casts are exact whenever `i` lies below `256 / bs`.
pub open spec fn record_of(p: NetworkPrefix, bs: int, i: int) -> SubnetRecord {
    SubnetRecord {
        index: i as u16,
        prefix: p,
        network_id: (i * bs) as u8,
        gateway: if bs > 2 {
            Some((i * bs + 1) as u8)
        } else {
            None
        },
        switch: if bs > 3 {
            Some((i * bs + 2) as u8)
        } else {
            None
        },
        first_host: if bs > 4 {
            Some((i * bs + 3) as u8)
        } else {
            None
        },
        last_host: if bs > 4 {
            Some((i * bs + bs - 2) as u8)
        } else {
            None
        },
        broadcast: (i * bs + bs - 1) as u8,
    }
}

/// The full enumeration for a given prefix and block size: one record
/// per subnet, in order of ascending base address.
pub open spec fn enumeration_of(p: NetworkPrefix, bs: int) -> Seq<SubnetRecord> {
    Seq::new((256int / bs) as nat, |i: int| record_of(p, bs, i))
}

/// Partitioning and enumeration compose: the block size computed for any
/// supported CIDR length is one the enumeration accepts.
pub proof fn lemma_partition_yields_valid_block(cidr: int)
    requires
        crate::partition::valid_cidr(cidr),
    ensures
        valid_block_size(crate::partition::block_size_of(cidr)),
{
    crate::partition::lemma_cidr_arith(cidr);
}

/// The base offset of every subnet below the count stays under 256, with
/// room for the whole block above it.
pub(crate) proof fn lemma_base_in_range(bs: int, i: int)
    requires
        valid_block_size(bs),
        0 <= i < 256int / bs,
    ensures
        0 <= i * bs,
        i * bs + bs <= 256,
{
    let count = 256int / bs;
    lemma_fundamental_div_mod(256, bs);
    assert(count * bs == 256);
    lemma_mul_inequality(i + 1, count, bs);
    vstd::arithmetic::mul::lemma_mul_is_distributive_add_other_way(bs, i, 1);
    assert(i * bs + 1 * bs <= 256);
    vstd::arithmetic::mul::lemma_mul_nonnegative(i, bs);
}

/// Produces one record per subnet: subnet `i` occupies the fourth-octet
/// block starting at `i * block_size`, its network ID and broadcast are
/// the block's first and last offsets, and the gateway, switch and host
/// roles appear only where the block has room for them.
pub fn enumerate(prefix: NetworkPrefix, block_size: u16) -> (records: Vec<SubnetRecord>)
    requires
        valid_block_size(block_size as int),
    ensures
        records@ == enumeration_of(prefix, block_size as int),
{
    let count = 256 / block_size;
    proof {
        lemma_fundamental_div_mod(256, block_size as int);
    }
    let mut records: Vec<SubnetRecord> = Vec::new();
    let mut i: u16 = 0;
    while i < count
        invariant
            valid_block_size(block_size as int),
            count == 256int / (block_size as int),
            0 <= i <= count,
            records@.len() == i as int,
            forall|j: int|
                0 <= j < i as int ==> records@[j] == record_of(
                    prefix,
                    block_size as int,
                    j,
                ),
        decreases count - i,
    {
        proof {
            lemma_base_in_range(block_size as int, i as int);
        }
        let base = i * block_size;
        let record = SubnetRecord {
            index: i,
            prefix,
            network_id: base as u8,
            gateway: if block_size > 2 {
                Some((base + 1) as u8)
            } else {
                None
            },
            switch: if block_size > 3 {
                Some((base + 2) as u8)
            } else {
                None
            },
            first_host: if block_size > 4 {
                Some((base + 3) as u8)
            } else {
                None
            },
            last_host: if block_size > 4 {
                Some((base + block_size - 2) as u8)
            } else {
                None
            },
            broadcast: (base + block_size - 1) as u8,
        };
        records.push(record);
        i = i + 1;
    }
    proof {
        assert(records@ =~= enumeration_of(prefix, block_size as int));
    }
    records
}

/// With the smallest block size each subnet keeps only its two reserved
/// addresses: no gateway, switch or host role, and the network ID sits
/// immediately below the broadcast address.
pub proof fn lemma_smallest_block_two_roles(p: NetworkPrefix, i: int)
    requires
        0 <= i < 128,
    ensures
        record_of(p, 2, i).gateway is None,
        record_of(p, 2, i).switch is None,
        record_of(p, 2, i).first_host is None,
        record_of(p, 2, i).last_host is None,
        record_of(p, 2, i).network_id as int == record_of(p, 2, i).broadcast as int - 1,
{
}

/// The subnets tile the last octet with no gap and no overlap: the first
/// block starts at offset 0, each block ends right where the next one
/// begins, and the last block ends at offset 255.
pub proof fn lemma_enumeration_tiles(p: NetworkPrefix, bs: int, i: int)
    requires
        valid_block_size(bs),
        0 <= i < 256int / bs,
    ensures
        record_of(p, bs, 0).network_id == 0,
        record_of(p, bs, i).network_id as int == i * bs,
        record_of(p, bs, i).broadcast as int == i * bs + bs - 1,
        i < 256int / bs - 1 ==> record_of(p, bs, i).broadcast as int + 1 == record_of(
            p,
            bs,
            i + 1,
        ).network_id as int,
        i == 256int / bs - 1 ==> record_of(p, bs, i).broadcast == 255,
{
    lemma_base_in_range(bs, i);
    if i < 256int / bs - 1 {
        lemma_base_in_range(bs, i + 1);
        assert((i + 1) * bs == i * bs + bs) by {
            vstd::arithmetic::mul::lemma_mul_is_distributive_add_other_way(bs, i, 1);
        }
    }
    if i == 256int / bs - 1 {
        lemma_fundamental_div_mod(256, bs);
        vstd::arithmetic::mul::lemma_mul_is_distributive_add_other_way(bs, i, 1);
        assert((i + 1) * bs == i * bs + 1 * bs);
        assert((i + 1) * bs == (256int / bs) * bs);
        assert(i * bs + bs == 256);
    }
}

/// Enumeration is deterministic: any two record sequences that both meet
/// the enumeration contract for the same prefix and block size are equal.
pub proof fn lemma_enumeration_deterministic(
    r1: Seq<SubnetRecord>,
    r2: Seq<SubnetRecord>,
    p: NetworkPrefix,
    bs: int,
)
    requires
        r1 == enumeration_of(p, bs),
        r2 == enumeration_of(p, bs),
    ensures
        r1 == r2,
{
}

} // verus!
