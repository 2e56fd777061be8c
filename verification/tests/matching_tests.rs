use aster_dyndbg::matching::{
    has_wildcard, match_wildcard, path_segments_match, selector_match, split_bytes, value_matches,
};

#[test]
fn wildcard_star_and_question_mark() {
    assert!(match_wildcard(b"ext*", b"ext2"));
    assert!(match_wildcard(b"*dir?", b"fs/dir1"));
    assert!(match_wildcard(b"a*b*c", b"axxbyyc"));
    assert!(!match_wildcard(b"a?c", b"abd"));
    assert!(!match_wildcard(b"a*c", b"ab"));
}

#[test]
fn wildcard_edge_cases() {
    assert!(match_wildcard(b"*", b""));
    assert!(match_wildcard(b"", b""));
    assert!(!match_wildcard(b"", b"a"));
    assert!(match_wildcard(b"***", b"abc"));
    assert!(match_wildcard(b"*", b"*"));
    assert!(!match_wildcard(b"?", b""));
}

#[test]
fn wildcard_detection() {
    assert!(has_wildcard(b"a?"));
    assert!(has_wildcard(b"*"));
    assert!(!has_wildcard(b"abc"));
}

#[test]
fn value_matching_has_no_substring_channel() {
    let sep: &[u8] = b"::";
    assert!(value_matches(b"ext2", b"kernel::fs::ext2::dir", Some(sep)));
    assert!(value_matches(b"ext2::dir", b"kernel::fs::ext2::dir", Some(sep)));
    assert!(value_matches(b"dir::ext2", b"kernel::fs::ext2::dir", Some(sep)));
    assert!(!value_matches(b"ext", b"kernel::fs::ext2", Some(sep)));
    assert!(value_matches(b"kernel::fs::ext2", b"kernel::fs::ext2", Some(sep)));
    let slash: &[u8] = b"/";
    assert!(value_matches(b"dir.rs", b"fs/ext2/dir.rs", Some(slash)));
    assert!(value_matches(b"*/dir.rs", b"fs/ext2/dir.rs", Some(slash)));
    assert!(value_matches(b"read", b"read", None));
    assert!(!value_matches(b"rea", b"read", None));
    assert!(value_matches(b"re*", b"read", None));
}

#[test]
fn empty_segment_keyword_selects_everything() {
    assert!(path_segments_match(b"::", b"a::b", b"::"));
    assert!(path_segments_match(b"", b"a", b"/"));
    assert!(!path_segments_match(b"c", b"a::b", b"::"));
}

#[test]
fn absent_selector_selects_everything() {
    assert!(selector_match(None, None, None));
    let x: &[u8] = b"x";
    assert!(!selector_match(Some(x), None, None));
    assert!(selector_match(Some(x), Some(x), None));
}

#[test]
fn split_keeps_empty_pieces() {
    let parts = split_bytes(b"a::b::::c", b"::");
    let expected: Vec<Vec<u8>> = vec![b"a".to_vec(), b"b".to_vec(), b"".to_vec(), b"c".to_vec()];
    assert_eq!(parts, expected);
    let one = split_bytes(b"abc", b"/");
    assert_eq!(one, vec![b"abc".to_vec()]);
}
