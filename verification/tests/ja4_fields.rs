use corvus_tui::ja4::{ciphers_of, extensions_of, ja4_counts};

#[test]
fn ja4_prefix_yields_the_constellation_coordinates() {
    assert_eq!(
        ja4_counts("t13d1516h2_8daaf6152771_e5627efa2ab1"),
        Some((15, 16))
    );
    assert_eq!(
        ja4_counts("q13d0310h3_55b375c5d22e_cd85d2d88918"),
        Some((3, 10))
    );
}

#[test]
fn a_malformed_prefix_is_not_plotted() {
    assert_eq!(ja4_counts("short"), None);
    assert_eq!(ja4_counts("t13dxxxxh2_a_b"), None);
}

#[test]
fn raw_splits_into_ciphers_and_extensions() {
    let raw = "t13d1516h2_002f,0035_0005,000a,000b_0403";
    assert_eq!(ciphers_of(raw), vec!["002f", "0035"]);
    assert_eq!(extensions_of(raw), vec!["0005", "000a", "000b"]);
}

#[test]
fn counts_accept_a_plus_sign_and_refuse_other_text() {
    assert_eq!(ja4_counts("t13d+5+6h2_a_b"), Some((5, 6)));
    assert_eq!(ja4_counts("t13d15-6h2_a_b"), None);
    assert_eq!(ja4_counts("t13d1516"), Some((15, 16)));
    assert_eq!(ja4_counts("t13d151"), None);
    assert_eq!(ja4_counts("t13_1516h2"), None);
    assert_eq!(ja4_counts(""), None);
}

#[test]
fn counts_are_read_at_byte_offsets() {
    // Two two-byte characters fill the first four bytes.
    assert_eq!(ja4_counts("\u{e9}\u{e9}1516h2_x"), Some((15, 16)));
    assert_eq!(ja4_counts("t13\u{e9}516h2_x"), None);
}

#[test]
fn lists_drop_empty_entries_and_missing_sections() {
    assert_eq!(ciphers_of("t13d"), Vec::<&str>::new());
    assert_eq!(extensions_of("t13d_002f"), Vec::<&str>::new());
    assert_eq!(ciphers_of("t_,,a,,b,_c"), vec!["a", "b"]);
    assert_eq!(extensions_of("t_a_"), Vec::<&str>::new());
    assert_eq!(extensions_of("t_a_x_y"), vec!["x"]);
}
