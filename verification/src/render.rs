//! Rendering of octets, dotted-decimal addresses and the comma-delimited
//! export table.

use vstd::prelude::*;
use crate::subnet::{lemma_base_in_range, valid_block_size, NetworkPrefix};

verus! {

/// The character for one decimal digit.
pub open spec fn char_of_digit(d: int) -> char {
    if d == 0 {
        '0'
    } else if d == 1 {
        '1'
    } else if d == 2 {
        '2'
    } else if d == 3 {
        '3'
    } else if d == 4 {
        '4'
    } else if d == 5 {
        '5'
    } else if d == 6 {
        '6'
    } else if d == 7 {
        '7'
    } else if d == 8 {
        '8'
    } else {
        '9'
    }
}

/// Decimal notation of a non-negative integer, most significant digit
/// first, with no leading zero except for the number 0 itself.
pub open spec fn dec_digits(n: int) -> Seq<char>
    recommends
        n >= 0,
    decreases n,
{
    if n < 10 {
        seq![char_of_digit(n)]
    } else {
        dec_digits(n / 10).push(char_of_digit(n % 10))
    }
}

/// Dotted decimal notation of the three prefix octets.
pub open spec fn prefix_chars(p: NetworkPrefix) -> Seq<char> {
    dec_digits(p.o1 as int) + seq!['.'] + dec_digits(p.o2 as int) + seq!['.'] + dec_digits(
        p.o3 as int,
    )
}

/// Dotted decimal notation of a full address: the prefix octets followed
/// by the fourth-octet offset.
pub open spec fn addr_chars(p: NetworkPrefix, off: int) -> Seq<char> {
    prefix_chars(p) + seq!['.'] + dec_digits(off)
}

/// The single-character string for one decimal digit.
fn digit_str(d: u8) -> (s: &'static str)
    requires
        d < 10,
    ensures
        s@ == seq![char_of_digit(d as int)],
{
    proof {
        reveal_strlit("0");
        reveal_strlit("1");
        reveal_strlit("2");
        reveal_strlit("3");
        reveal_strlit("4");
        reveal_strlit("5");
        reveal_strlit("6");
        reveal_strlit("7");
        reveal_strlit("8");
        reveal_strlit("9");
    }
    let s = match d {
        0 => "0",
        1 => "1",
        2 => "2",
        3 => "3",
        4 => "4",
        5 => "5",
        6 => "6",
        7 => "7",
        8 => "8",
        _ => "9",
    };
    proof {
        assert(s@ =~= seq![char_of_digit(d as int)]);
    }
    s
}

/// Writes a number in decimal notation.
pub fn dec_str(n: u16) -> (s: String)
    ensures
        s@ == dec_digits(n as int),
    decreases n,
{
    if n < 10 {
        let mut s = String::new();
        s.append(digit_str(n as u8));
        proof {
            assert(s@ =~= dec_digits(n as int));
        }
        s
    } else {
        let mut s = dec_str(n / 10);
        s.append(digit_str((n % 10) as u8));
        proof {
            assert(s@ =~= dec_digits(n as int));
        }
        s
    }
}

/// Writes a full address in dotted decimal notation.
pub fn render_address(p: NetworkPrefix, off: u8) -> (s: String)
    ensures
        s@ == addr_chars(p, off as int),
{
    let mut s = render_prefix(p);
    s.append(".");
    let octet = dec_str(off as u16);
    s.append(octet.as_str());
    proof {
        reveal_strlit(".");
        assert(s@ =~= addr_chars(p, off as int));
    }
    s
}

/// Writes the three prefix octets in dotted decimal notation.
pub fn render_prefix(p: NetworkPrefix) -> (s: String)
    ensures
        s@ == prefix_chars(p),
{
    let mut s = dec_str(p.o1 as u16);
    s.append(".");
    let second = dec_str(p.o2 as u16);
    s.append(second.as_str());
    s.append(".");
    let third = dec_str(p.o3 as u16);
    s.append(third.as_str());
    proof {
        reveal_strlit(".");
        assert(s@ =~= prefix_chars(p));
    }
    s
}

/// Header row of the export table.
pub open spec fn csv_header() -> Seq<char> {
    "NETWORK,NET ID,GATEWAY,SWITCH,FIRST HOST, LAST HOST,BROADCAST\n"@
}

/// One row of the export table: the subnet index and its role addresses
/// in header order, comma-separated. Fields whose role is absent for the
/// block size are omitted together with their separator, so rows of small
/// blocks are shorter than the header.
pub open spec fn csv_row_chars(p: NetworkPrefix, bs: int, i: int) -> Seq<char> {
    dec_digits(i) + seq![','] + addr_chars(p, i * bs) + seq![','] + (if bs > 2 {
        addr_chars(p, i * bs + 1) + seq![',']
    } else {
        Seq::empty()
    }) + (if bs > 3 {
        addr_chars(p, i * bs + 2) + seq![',']
    } else {
        Seq::empty()
    }) + (if bs > 4 {
        addr_chars(p, i * bs + 3) + seq![','] + addr_chars(p, i * bs + bs - 2) + seq![',']
    } else {
        Seq::empty()
    }) + addr_chars(p, i * bs + bs - 1) + seq!['\n']
}

/// The first `n` rows of the export table.
pub open spec fn csv_rows_upto(p: NetworkPrefix, bs: int, n: int) -> Seq<char>
    decreases n,
{
    if n <= 0 {
        Seq::empty()
    } else {
        csv_rows_upto(p, bs, n - 1) + csv_row_chars(p, bs, n - 1)
    }
}

/// The whole export table: the header and one row per subnet.
pub open spec fn csv_table_chars(p: NetworkPrefix, bs: int) -> Seq<char> {
    csv_header() + csv_rows_upto(p, bs, 256int / bs)
}

/// Builds one row of the export table.
#[verifier::rlimit(50)]
fn csv_row(prefix: NetworkPrefix, block_size: u16, i: u16) -> (s: String)
    requires
        valid_block_size(block_size as int),
        i < 256int / (block_size as int),
    ensures
        s@ == csv_row_chars(prefix, block_size as int, i as int),
{
    let ghost bs = block_size as int;
    proof {
        lemma_base_in_range(bs, i as int);
    }
    let base = i * block_size;
    let mut s = dec_str(i);
    s.append(",");
    let net = render_address(prefix, base as u8);
    s.append(net.as_str());
    s.append(",");
    if block_size > 2 {
        let gw = render_address(prefix, (base + 1) as u8);
        s.append(gw.as_str());
        s.append(",");
    }
    if block_size > 3 {
        let sw = render_address(prefix, (base + 2) as u8);
        s.append(sw.as_str());
        s.append(",");
    }
    if block_size > 4 {
        let first = render_address(prefix, (base + 3) as u8);
        s.append(first.as_str());
        s.append(",");
        let last = render_address(prefix, (base + block_size - 2) as u8);
        s.append(last.as_str());
        s.append(",");
    }
    let bcast = render_address(prefix, (base + block_size - 1) as u8);
    s.append(bcast.as_str());
    s.append("\n");
    proof {
        reveal_strlit(",");
        reveal_strlit("\n");
        assert(s@ =~= csv_row_chars(prefix, bs, i as int));
    }
    s
}

/// Builds the comma-delimited export table for a partition: a header row
/// and one row per subnet in enumeration order.
pub fn csv_table(prefix: NetworkPrefix, block_size: u16) -> (s: String)
    requires
        valid_block_size(block_size as int),
    ensures
        s@ == csv_table_chars(prefix, block_size as int),
{
    let ghost bs = block_size as int;
    let count = 256 / block_size;
    proof {
        vstd::arithmetic::div_mod::lemma_fundamental_div_mod(256, bs);
    }
    let mut s = String::new();
    s.append("NETWORK,NET ID,GATEWAY,SWITCH,FIRST HOST, LAST HOST,BROADCAST\n");
    proof {
        assert(s@ =~= csv_header());
    }
    let mut i: u16 = 0;
    while i < count
        invariant
            valid_block_size(bs),
            bs == block_size as int,
            count == 256int / bs,
            0 <= i <= count,
            s@ == csv_header() + csv_rows_upto(prefix, bs, i as int),
        decreases count - i,
    {
        let row = csv_row(prefix, block_size, i);
        s.append(row.as_str());
        proof {
            assert(s@ =~= csv_header() + csv_rows_upto(prefix, bs, i as int + 1));
        }
        i = i + 1;
    }
    s
}

} // verus!
