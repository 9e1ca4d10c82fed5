use libp2p_kad_fastboot::log::route_message;
use libp2p_kad_fastboot::peer::format_elapsed;
use libp2p_kad_fastboot::text::{char_is_whitespace, strip_leading_char, trim_whitespace};

#[test]
fn whitespace_matches_std() {
    for c in [' ', '\t', '\n', '\r', '\u{0b}', '\u{0c}', '\u{85}', '\u{a0}', '\u{1680}', '\u{2000}', '\u{200a}',
        '\u{2028}', '\u{2029}', '\u{202f}', '\u{205f}', '\u{3000}', 'a', '0', ']', '\u{200b}', '\u{feff}', '越'] {
        assert_eq!(char_is_whitespace(c), c.is_whitespace(), "{:?}", c);
    }
}

#[test]
fn trim_matches_std() {
    for s in ["", "   ", "  a b  ", "\t\nx\u{3000}", "no-space", " lead", "trail \n"] {
        assert_eq!(trim_whitespace(s), s.trim(), "{:?}", s);
    }
}

#[test]
fn strip_leading_char_matches_std() {
    for s in ["]]] a]", "]", "", "a]", " ]"] {
        assert_eq!(strip_leading_char(s, ']'), s.trim_start_matches(']'), "{:?}", s);
    }
}

#[test]
fn result_lines_lose_their_brackets_and_spaces() {
    assert_eq!(route_message("] bootstrap,Qm,00:00:05", "INFO"), Some("bootstrap,Qm,00:00:05".to_string()));
    assert_eq!(route_message("]]  x  ", "WARN"), Some("x".to_string()));
    assert_eq!(route_message("]", "INFO"), Some(String::new()));
}

#[test]
fn progress_lines_get_their_level() {
    assert_eq!(route_message(" Kademlia bootstrapped", "INFO"), Some("INFO: Kademlia bootstrapped".to_string()));
    assert_eq!(route_message("   Failed  ", "WARN"), Some("WARN: Failed".to_string()));
}

#[test]
fn other_lines_are_not_written() {
    assert_eq!(route_message("Dialing Qm", "DEBUG"), None);
    assert_eq!(route_message("", "INFO"), None);
    assert_eq!(route_message("a ] b", "INFO"), None);
}

#[test]
fn elapsed_time_formats() {
    assert_eq!(format_elapsed(None), "00:00:00");
    assert_eq!(format_elapsed(Some(0)), "00:00:00");
    assert_eq!(format_elapsed(Some(5)), "00:00:05");
    assert_eq!(format_elapsed(Some(59)), "00:00:59");
    assert_eq!(format_elapsed(Some(61)), "00:01:01");
    // The middle field counts all minutes, not those of the hour.
    assert_eq!(format_elapsed(Some(3725)), "01:62:05");
    assert_eq!(format_elapsed(Some(360000)), "100:6000:00");
    let s: u64 = 98765;
    assert_eq!(format_elapsed(Some(s)), format!("{:02}:{:02}:{:02}", s / 3600, s / 60, s % 60));
}
