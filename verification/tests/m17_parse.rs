//! Parsing of M17 protocol lines.

use linht_gui::extract_field;
use linht_gui::parse_m17_line;

#[test]
fn parses_a_full_line() {
    let line = "DST: N0CALL SRC: M17X TYPE: 0x05 META: hello LSF_CRC_OK";
    let msg = parse_m17_line(line).expect("message");
    assert_eq!(msg, "To: N0CALL\nFrom: M17X\nType: 0x05\nMeta: hello");
}

#[test]
fn ignores_lines_without_the_checksum_marker() {
    assert_eq!(parse_m17_line("DST: N0CALL SRC: M17X"), None);
    assert_eq!(parse_m17_line(""), None);
}

#[test]
fn a_marker_alone_yields_nothing() {
    assert_eq!(parse_m17_line("LSF_CRC_OK"), None);
    assert_eq!(parse_m17_line("noise LSF_CRC_OK noise"), None);
}

#[test]
fn partial_fields_are_reported() {
    let line = "SRC: ABCDEF LSF_CRC_OK";
    assert_eq!(parse_m17_line(line).unwrap(), "From: ABCDEF\n");
    let line = "META: one two LSF_CRC_OK";
    assert_eq!(parse_m17_line(line).unwrap(), "Meta: one two");
}

#[test]
fn extract_field_cuts_at_the_next_marker() {
    let line = "DST: AAA SRC: BBB TYPE: T META: M NONCE: N CRC: C LSF_CRC_OK";
    assert_eq!(extract_field(line, "DST:").unwrap(), "AAA");
    assert_eq!(extract_field(line, "SRC:").unwrap(), "BBB");
    assert_eq!(extract_field(line, "TYPE:").unwrap(), "T");
    assert_eq!(extract_field(line, "META:").unwrap(), "M");
}

#[test]
fn extract_field_handles_absent_and_empty_values() {
    assert_eq!(extract_field("SRC: X LSF_CRC_OK", "DST:"), None);
    // the value between the label and the next marker is all whitespace
    assert_eq!(extract_field("DST: SRC: X LSF_CRC_OK", "DST:"), None);
    assert_eq!(extract_field("DST:   \t  ", "DST:"), None);
}

#[test]
fn extract_field_trims_whitespace() {
    assert_eq!(extract_field("DST:   padded   ", "DST:").unwrap(), "padded");
}
