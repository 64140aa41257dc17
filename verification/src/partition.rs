//! Converting a CIDR length in [24, 31] into the fourth-octet subnet mask,
//! the per-subnet block size and the number of subnets.

use vstd::prelude::*;
use vstd::arithmetic::power2::{
    is_pow2, is_pow2_equiv, is_pow2_exists, lemma2_to64, lemma_pow2, lemma_pow2_unfold, pow2,
};

verus! {

/// A CIDR length the calculator supports: the host part lies entirely in
/// the last octet, and at least two addresses remain per subnet.
pub open spec fn valid_cidr(cidr: int) -> bool {
    24 <= cidr <= 31
}

/// Fourth-octet value of the subnet mask for a given CIDR length.
pub open spec fn mask_of(cidr: int) -> int {
    256 - pow2((32 - cidr) as nat)
}

/// Number of addresses in each subnet's last-octet range; also the
/// increment between consecutive subnets' base addresses.
pub open spec fn block_size_of(cidr: int) -> int {
    256 - mask_of(cidr)
}

/// Number of subnets the last octet is partitioned into.
pub open spec fn subnet_count_of(cidr: int) -> int {
    pow2((cidr - 24) as nat) as int
}

/// Concrete bounds and quotients for the eight supported CIDR lengths,
/// established by a case split so that `pow2` applies at known exponents.
pub(crate) proof fn lemma_cidr_arith(cidr: int)
    requires
        valid_cidr(cidr),
    ensures
        0 <= mask_of(cidr) <= 254,
        2 <= block_size_of(cidr) <= 256,
        1 <= subnet_count_of(cidr) <= 128,
        subnet_count_of(cidr) * block_size_of(cidr) == 256,
        256int % block_size_of(cidr) == 0,
        256int / block_size_of(cidr) == subnet_count_of(cidr),
{
    lemma2_to64();
    assert(subnet_count_of(cidr) * block_size_of(cidr) == 256 && 256int % block_size_of(cidr)
        == 0 && 256int / block_size_of(cidr) == subnet_count_of(cidr)) by {
        if cidr == 24 {
            assert(subnet_count_of(cidr) == 1 && block_size_of(cidr) == 256);
            assert(1 * 256 == 256 && 256int % 256int == 0 && 256int / 256int == 1);
        } else if cidr == 25 {
            assert(subnet_count_of(cidr) == 2 && block_size_of(cidr) == 128);
            assert(2 * 128 == 256 && 256int % 128int == 0 && 256int / 128int == 2);
        } else if cidr == 26 {
            assert(subnet_count_of(cidr) == 4 && block_size_of(cidr) == 64);
            assert(4 * 64 == 256 && 256int % 64int == 0 && 256int / 64int == 4);
        } else if cidr == 27 {
            assert(subnet_count_of(cidr) == 8 && block_size_of(cidr) == 32);
            assert(8 * 32 == 256 && 256int % 32int == 0 && 256int / 32int == 8);
        } else if cidr == 28 {
            assert(subnet_count_of(cidr) == 16 && block_size_of(cidr) == 16);
            assert(16 * 16 == 256 && 256int % 16int == 0 && 256int / 16int == 16);
        } else if cidr == 29 {
            assert(subnet_count_of(cidr) == 32 && block_size_of(cidr) == 8);
            assert(32 * 8 == 256 && 256int % 8int == 0 && 256int / 8int == 32);
        } else if cidr == 30 {
            assert(subnet_count_of(cidr) == 64 && block_size_of(cidr) == 4);
            assert(64 * 4 == 256 && 256int % 4int == 0 && 256int / 4int == 64);
        } else {
            assert(subnet_count_of(cidr) == 128 && block_size_of(cidr) == 2);
            assert(128 * 2 == 256 && 256int % 2int == 0 && 256int / 2int == 128);
        }
    }
    if cidr == 24 {
        assert(block_size_of(cidr) == 256 && subnet_count_of(cidr) == 1);
    } else if cidr == 25 {
        assert(block_size_of(cidr) == 128 && subnet_count_of(cidr) == 2);
    } else if cidr == 26 {
        assert(block_size_of(cidr) == 64 && subnet_count_of(cidr) == 4);
    } else if cidr == 27 {
        assert(block_size_of(cidr) == 32 && subnet_count_of(cidr) == 8);
    } else if cidr == 28 {
        assert(block_size_of(cidr) == 16 && subnet_count_of(cidr) == 16);
    } else if cidr == 29 {
        assert(block_size_of(cidr) == 8 && subnet_count_of(cidr) == 32);
    } else if cidr == 30 {
        assert(block_size_of(cidr) == 4 && subnet_count_of(cidr) == 64);
    } else {
        assert(block_size_of(cidr) == 2 && subnet_count_of(cidr) == 128);
    }
}

/// Number of bits the CIDR length borrows from the last octet.
pub fn bits_in_cidr(value: i32) -> (bits: i32)
    requires
        valid_cidr(value as int),
    ensures
        bits == value - 24,
{
    value - ((value / 8) * 8)
}

/// Converts a CIDR length into the fourth-octet subnet mask, the block
/// size and the subnet count. The mask is built by summing powers of two
/// from 128 downward, one per borrowed bit.
pub fn partition(cidr: i32) -> (r: (u16, u16, u16))
    requires
        valid_cidr(cidr as int),
    ensures
        r.0 == mask_of(cidr as int),
        r.1 == block_size_of(cidr as int),
        r.2 == subnet_count_of(cidr as int),
{
    let bits = bits_in_cidr(cidr);
    let mut addition: u16 = 128;
    let mut mask: u16 = 0;
    let mut k: i32 = 0;
    proof {
        lemma2_to64();
    }
    while k < bits
        invariant
            valid_cidr(cidr as int),
            bits == cidr - 24,
            0 <= k <= bits,
            addition as int == pow2((7 - k) as nat),
            mask as int == 256 - pow2((8 - k) as nat),
        decreases bits - k,
    {
        proof {
            lemma_pow2_unfold((8 - k) as nat);
        }
        mask = mask + addition;
        addition = addition / 2;
        k = k + 1;
        proof {
            lemma_pow2_unfold((8 - k) as nat);
        }
    }
    let block_size = 256 - mask;
    proof {
        lemma_cidr_arith(cidr as int);
    }
    let count = 256 / block_size;
    (mask, block_size, count)
}

/// Every supported CIDR length yields a power-of-two block size that
/// divides the 256 addresses of the last octet without remainder.
pub proof fn lemma_block_size_power_of_two(cidr: int)
    requires
        valid_cidr(cidr),
    ensures
        is_pow2(block_size_of(cidr)),
        256int % block_size_of(cidr) == 0,
{
    lemma_cidr_arith(cidr);
    lemma_pow2((32 - cidr) as nat);
    assert(is_pow2_exists(block_size_of(cidr)));
    is_pow2_equiv(block_size_of(cidr));
}

/// The subnets cover the last-octet address space exactly: the block
/// sizes of all subnets sum to 256, with no gap and no overlap.
pub proof fn lemma_full_coverage(cidr: int)
    requires
        valid_cidr(cidr),
    ensures
        subnet_count_of(cidr) * block_size_of(cidr) == 256,
{
    lemma_cidr_arith(cidr);
}

} // verus!
