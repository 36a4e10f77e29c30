use mounter::server::pattern::{is_apple_metadata, is_spotlight_inhibitor, smb_pattern_match};

#[test]
fn pattern_wildcard_matches_everything() {
    assert!(smb_pattern_match("*", "anything"));
    assert!(smb_pattern_match("*", ""));
    assert!(smb_pattern_match("*", ".DS_Store"));
}

#[test]
fn pattern_exact_case_insensitive() {
    assert!(smb_pattern_match("hello.txt", "hello.txt"));
    assert!(smb_pattern_match("Hello.TXT", "hello.txt"));
    assert!(smb_pattern_match("hello.txt", "HELLO.TXT"));
    assert!(!smb_pattern_match("hello.txt", "hello.tx"));
    assert!(!smb_pattern_match("hello.txt", "hello.txtt"));
}

#[test]
fn pattern_question_mark() {
    assert!(smb_pattern_match("?.txt", "a.txt"));
    assert!(!smb_pattern_match("?.txt", "ab.txt"));
    assert!(smb_pattern_match("he??o", "hello"));
    assert!(!smb_pattern_match("he??o", "helo"));
}

#[test]
fn pattern_star_prefix_suffix() {
    assert!(smb_pattern_match("*.txt", "readme.txt"));
    assert!(smb_pattern_match("*.txt", ".txt"));
    assert!(!smb_pattern_match("*.txt", "readme.md"));
    assert!(smb_pattern_match("readme.*", "readme.txt"));
    assert!(smb_pattern_match("readme.*", "readme."));
}

#[test]
fn pattern_star_middle() {
    assert!(smb_pattern_match("a*z", "az"));
    assert!(smb_pattern_match("a*z", "abcz"));
    assert!(!smb_pattern_match("a*z", "abcx"));
}

#[test]
fn pattern_empty_inputs() {
    assert!(smb_pattern_match("*", ""));
    assert!(!smb_pattern_match("a", ""));
    assert!(!smb_pattern_match("", "a"));
    assert!(smb_pattern_match("", ""));
}

#[test]
fn pattern_no_panic_on_long_star() {
    // A name that is shorter than the pattern
    assert!(smb_pattern_match("*", "x"));
    assert!(!smb_pattern_match("a*b*c", "ac"));
    assert!(smb_pattern_match("a*b*c", "abc"));
    assert!(smb_pattern_match("a*b*c", "aXXbYYc"));
}

#[test]
fn apple_metadata_detected() {
    assert!(is_apple_metadata(".DS_Store"));
    assert!(is_apple_metadata("._somefile"));
    assert!(is_apple_metadata(".Spotlight-V100"));
    assert!(is_apple_metadata(".Trashes"));
    assert!(is_apple_metadata(".fseventsd"));
    assert!(is_apple_metadata("Icon\r"));
}

#[test]
fn non_apple_metadata() {
    assert!(!is_apple_metadata("readme.md"));
    assert!(!is_apple_metadata(".gitignore"));
    assert!(!is_apple_metadata(".bashrc"));
    assert!(!is_apple_metadata("DS_Store")); // no leading dot
}

#[test]
fn pattern_case_outside_ascii_counts() {
    assert!(!smb_pattern_match("É", "é"));
    assert!(smb_pattern_match("*É?", "xÉz"));
    assert!(smb_pattern_match("A?C*", "abcdef"));
}

#[test]
fn the_inhibitor_is_one_file() {
    assert!(is_spotlight_inhibitor(".metadata_never_index"));
    assert!(!is_spotlight_inhibitor(".metadata_never_index_unless_rootfs"));
}
