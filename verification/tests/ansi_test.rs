use sf_pkgen::ansi::strip_ansi_escapes;

#[test]
fn strips_ansi_escape_codes() {
    let input = "\x1b[31mError\x1b[0m: something failed";
    assert_eq!(strip_ansi_escapes(input), "Error: something failed");
}

#[test]
fn returns_plain_string_unchanged() {
    let input = "hello world";
    assert_eq!(strip_ansi_escapes(input), "hello world");
}

#[test]
fn returns_empty_string_unchanged() {
    assert_eq!(strip_ansi_escapes(""), "");
}

#[test]
fn strips_multiple_ansi_codes() {
    let input = "\x1b[1m\x1b[31mBold Red\x1b[0m and \x1b[32mGreen\x1b[0m";
    assert_eq!(strip_ansi_escapes(input), "Bold Red and Green");
}

#[test]
fn ansi_only_string_becomes_empty() {
    let input = "\x1b[31m\x1b[0m";
    assert_eq!(strip_ansi_escapes(input), "");
}

#[test]
fn strips_csi_with_intermediate_bytes() {
    // \x1b[?25l (hide cursor), \x1b[?25h (show cursor)
    let input = "\x1b[?25lhello\x1b[?25h";
    assert_eq!(strip_ansi_escapes(input), "hello");
}

#[test]
fn strips_csi_with_tilde_terminator() {
    // \x1b[3~ (Delete key sequence)
    let input = "before\x1b[3~after";
    assert_eq!(strip_ansi_escapes(input), "beforeafter");
}

#[test]
fn unterminated_sequence_is_kept() {
    // an escape with no final byte is not a complete sequence
    assert_eq!(strip_ansi_escapes("a\x1b[12"), "a\x1b[12");
    // an escape not followed by `[` is not a CSI sequence
    assert_eq!(strip_ansi_escapes("a\x1bxb"), "a\x1bxb");
}

#[test]
fn stripping_twice_changes_nothing_more() {
    let once = strip_ansi_escapes("\x1b[1mA\x1b[0mB");
    assert_eq!(strip_ansi_escapes(&once), once);
}
