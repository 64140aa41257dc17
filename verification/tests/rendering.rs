use subnet_calc::render::{csv_table, dec_str, render_address, render_prefix};
use subnet_calc::subnet::NetworkPrefix;

fn prefix(o1: u8, o2: u8, o3: u8) -> NetworkPrefix {
    NetworkPrefix { o1, o2, o3 }
}

#[test]
fn decimal_notation_is_exact() {
    assert_eq!(dec_str(0), "0");
    assert_eq!(dec_str(7), "7");
    assert_eq!(dec_str(10), "10");
    assert_eq!(dec_str(128), "128");
    assert_eq!(dec_str(255), "255");
    assert_eq!(dec_str(256), "256");
}

#[test]
fn addresses_render_in_dotted_decimal() {
    assert_eq!(render_prefix(prefix(192, 168, 10)), "192.168.10");
    assert_eq!(render_address(prefix(192, 168, 10), 15), "192.168.10.15");
    assert_eq!(render_address(prefix(0, 0, 0), 0), "0.0.0.0");
    assert_eq!(render_address(prefix(255, 255, 255), 255), "255.255.255.255");
}

#[test]
fn table_for_two_half_blocks() {
    let table = csv_table(prefix(10, 0, 0), 128);
    let expected = "NETWORK,NET ID,GATEWAY,SWITCH,FIRST HOST, LAST HOST,BROADCAST\n\
                    0,10.0.0.0,10.0.0.1,10.0.0.2,10.0.0.3,10.0.0.126,10.0.0.127\n\
                    1,10.0.0.128,10.0.0.129,10.0.0.130,10.0.0.131,10.0.0.254,10.0.0.255\n";
    assert_eq!(table, expected);
}

#[test]
fn small_blocks_give_short_rows() {
    let table = csv_table(prefix(192, 168, 1), 2);
    let mut lines = table.lines();
    assert_eq!(
        lines.next(),
        Some("NETWORK,NET ID,GATEWAY,SWITCH,FIRST HOST, LAST HOST,BROADCAST")
    );
    assert_eq!(lines.next(), Some("0,192.168.1.0,192.168.1.1"));
    assert_eq!(lines.next(), Some("1,192.168.1.2,192.168.1.3"));
    assert_eq!(table.lines().count(), 129);
}

#[test]
fn four_address_blocks_keep_gateway_and_switch_columns() {
    let table = csv_table(prefix(10, 1, 2), 4);
    let second_row = table.lines().nth(1).unwrap();
    assert_eq!(second_row, "0,10.1.2.0,10.1.2.1,10.1.2.2,10.1.2.3");
}

#[test]
fn repeated_tables_are_byte_identical() {
    let first = csv_table(prefix(172, 16, 0), 16);
    let second = csv_table(prefix(172, 16, 0), 16);
    assert_eq!(first, second);
}
