use turing::tokens::is_space;

#[test]
fn space_tab_line_feed_form_feed_and_carriage_return_are_whitespace() {
    for byte in [0x20u8, 0x09, 0x0a, 0x0c, 0x0d] {
        assert!(is_space(byte));
    }
}

#[test]
fn no_other_byte_is_whitespace() {
    for byte in 0..=255u8 {
        if ![0x20u8, 0x09, 0x0a, 0x0c, 0x0d].contains(&byte) {
            assert!(!is_space(byte));
        }
    }
}
