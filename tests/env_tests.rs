use stitch::env::{find_binaries, get_ffmpeg, get_ffprobe, BinaryError};
use stitch::paths::{data_root, data_root_in, logs_root, logs_root_in, PRODUCT_NAME};
use stitch::text::is_whitespace;

#[test]
fn explicit_paths_win() {
    let dirs = vec!["/usr/bin".to_string()];
    let validate = |p: &String| Some(format!("canon:{p}"));
    let b = find_binaries(Some("/opt/ff".to_string()), Some("/opt/fp".to_string()), &dirs, &validate).unwrap();
    assert_eq!(get_ffmpeg(&b), "canon:/opt/ff");
    assert_eq!(get_ffprobe(&b), "canon:/opt/fp");
}

#[test]
fn search_directories_are_tried_in_order() {
    let sep = std::path::MAIN_SEPARATOR;
    let dirs = vec!["/a".to_string(), "".to_string(), "/c".to_string()];
    let found = format!("/c{sep}ffmpeg");
    let validate = |p: &String| if *p == found || p == "ffprobe" { Some(p.clone()) } else { None };
    let b = find_binaries(Some("/bad".to_string()), None, &dirs, &validate).unwrap();
    assert_eq!(b.ffmpeg, found);
    assert_eq!(b.ffprobe, "ffprobe");
}

#[test]
fn a_missing_binary_is_reported() {
    let dirs = vec!["/a".to_string()];
    let validate = |p: &String| if p.ends_with("ffmpeg") { Some(p.clone()) } else { None };
    match find_binaries(None, None, &dirs, &validate) {
        Err(BinaryError::NotFound { bin }) => assert_eq!(bin, "ffprobe"),
        other => panic!("unexpected {:?}", other),
    }
    let none = |_p: &String| None;
    match find_binaries(None, None, &vec![], &none) {
        Err(BinaryError::NotFound { bin }) => assert_eq!(bin, "ffmpeg"),
        other => panic!("unexpected {:?}", other),
    }
}

#[test]
fn tool_directories_end_in_their_names() {
    let sep = std::path::MAIN_SEPARATOR;
    if let Some(root) = data_root() {
        assert!(root.ends_with(&format!("{sep}{PRODUCT_NAME}")));
        let logs = logs_root().unwrap();
        assert_eq!(logs, format!("{root}{sep}logs"));
    } else {
        assert!(logs_root().is_none());
    }
}

#[test]
fn tool_directories_inside_a_given_base() {
    let sep = std::path::MAIN_SEPARATOR;
    assert_eq!(data_root_in("/home/u/.local/share"), format!("/home/u/.local/share{sep}dev.thmsn.stitch"));
    assert_eq!(logs_root_in("/home/u/.local/share"), format!("/home/u/.local/share{sep}dev.thmsn.stitch{sep}logs"));
}

#[test]
fn whitespace_is_the_unicode_set() {
    for c in [' ', '\t', '\n', '\r', '\u{b}', '\u{c}', '\u{85}', '\u{a0}', '\u{1680}', '\u{2000}', '\u{200a}', '\u{2028}', '\u{2029}', '\u{202f}', '\u{205f}', '\u{3000}'] {
        assert!(is_whitespace(c), "{:?}", c);
        assert_eq!(is_whitespace(c), c.is_whitespace());
    }
    for c in ['a', '_', '\u{200b}', '\u{feff}', '\u{8}', '\u{e}', '\u{1f}'] {
        assert!(!is_whitespace(c), "{:?}", c);
        assert_eq!(is_whitespace(c), c.is_whitespace());
    }
}
