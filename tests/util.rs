use spice_core::util::{human_readable_bytes, pretty_print_number};

#[test]
fn test_human_readable_bytes() {
    assert_eq!(human_readable_bytes(0), "0 B");
    assert_eq!(human_readable_bytes(1), "1.00 B");
    assert_eq!(human_readable_bytes(1023), "1023.00 B");
    assert_eq!(human_readable_bytes(1024), "1.00 kiB");
    assert_eq!(human_readable_bytes(1025), "1.00 kiB");
    assert_eq!(human_readable_bytes(1024 * 1024), "1.00 MiB");
    assert_eq!(human_readable_bytes(1024 * 1024 * 1024), "1.00 GiB");
}

#[test]
fn test_print_number() {
    assert_eq!(pretty_print_number(123), "123");
    assert_eq!(pretty_print_number(1023), "1,023");
    assert_eq!(pretty_print_number(10_231_024), "10,231,024");
}

#[test]
fn human_readable_bytes_fractions_and_largest_unit() {
    assert_eq!(human_readable_bytes(1536), "1.50 kiB");
    assert_eq!(human_readable_bytes(5 * 1024 * 1024 + 256 * 1024), "5.25 MiB");
    assert_eq!(human_readable_bytes(2048 * 1024 * 1024 * 1024), "2048.00 GiB");
}

#[test]
fn pretty_print_number_edges() {
    assert_eq!(pretty_print_number(0), "0");
    assert_eq!(pretty_print_number(999), "999");
    assert_eq!(pretty_print_number(1000), "1,000");
    assert_eq!(pretty_print_number(1_000_000), "1,000,000");
}
