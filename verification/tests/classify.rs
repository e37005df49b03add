use cloc::classify::classify;
use cloc::config::LanguageInfo;
use cloc::Language;

fn go_info() -> LanguageInfo {
    LanguageInfo {
        language: Language::Go,
        single: vec![b"//".to_vec()],
        multi: vec![(b"/*".to_vec(), b"*/".to_vec())],
    }
}

fn rust_info() -> LanguageInfo {
    LanguageInfo {
        language: Language::Rust,
        single: vec![b"//".to_vec()],
        multi: vec![(b"/*".to_vec(), b"*/".to_vec())],
    }
}

#[test]
fn go_comment_then_code() {
    let content = b"// hello\nfunc x() {}".to_vec();
    let c = classify(&content, &go_info());
    assert_eq!(c.comment, 1);
    assert_eq!(c.code, 1);
    assert_eq!(c.blank, 0);
}

#[test]
fn rust_block_spans_two_lines() {
    let content = b"/* a\n b */\ncode();".to_vec();
    let c = classify(&content, &rust_info());
    assert_eq!(c.blank, 0);
    assert_eq!(c.comment, 2);
    assert_eq!(c.code, 1);
}

#[test]
fn empty_file_counts_nothing() {
    let content = Vec::new();
    let c = classify(&content, &rust_info());
    assert_eq!(c.blank, 0);
    assert_eq!(c.comment, 0);
    assert_eq!(c.code, 0);
}

#[test]
fn whitespace_only_lines_are_blank() {
    let content = b"   \n\t\n".to_vec();
    let c = classify(&content, &go_info());
    assert_eq!(c.blank, 2);
    assert_eq!(c.comment, 0);
    assert_eq!(c.code, 0);
}

#[test]
fn single_space_is_one_blank_line() {
    let content = b" ".to_vec();
    let c = classify(&content, &go_info());
    assert_eq!(c.blank, 1);
    assert_eq!(c.comment, 0);
    assert_eq!(c.code, 0);
}

#[test]
fn no_markers_means_no_comments() {
    let content = b"a\nb\n\nc".to_vec();
    let c = classify(&content, &rust_info());
    assert_eq!(c.comment, 0);
    assert_eq!(c.code, 3);
    assert_eq!(c.blank, 1);
}

#[test]
fn lone_start_marker_stays_open() {
    let content = b"/*\nx".to_vec();
    let c = classify(&content, &rust_info());
    assert_eq!(c.comment, 2);
    assert_eq!(c.code, 0);
}

#[test]
fn start_and_end_back_to_back_closes() {
    // four bytes: exactly start length plus end length, so the block closes
    let content = b"/**/\nx".to_vec();
    let c = classify(&content, &rust_info());
    assert_eq!(c.comment, 1);
    assert_eq!(c.code, 1);
}

#[test]
fn start_space_end_closes() {
    let content = b"/* */\nx".to_vec();
    let c = classify(&content, &rust_info());
    assert_eq!(c.comment, 1);
    assert_eq!(c.code, 1);
}

#[test]
fn start_marker_inside_open_block_closes_it() {
    let content = b"/*\n/* more\ncode();".to_vec();
    let c = classify(&content, &rust_info());
    assert_eq!(c.comment, 2);
    assert_eq!(c.code, 1);
}

#[test]
fn single_prefix_inside_open_block_is_comment_and_keeps_block_open() {
    let content = b"/*\n// x\ncode();".to_vec();
    let c = classify(&content, &rust_info());
    assert_eq!(c.comment, 3);
    assert_eq!(c.code, 0);
}

#[test]
fn classifying_twice_gives_identical_counts() {
    let content = b"// a\n\ncode();\n/* b */".to_vec();
    let first = classify(&content, &rust_info());
    let second = classify(&content, &rust_info());
    assert_eq!(first, second);
}

#[test]
fn trailing_newline_adds_no_line() {
    let content = b"code();\n".to_vec();
    let c = classify(&content, &go_info());
    assert_eq!(c.code, 1);
    assert_eq!(c.blank, 0);
    assert_eq!(c.comment, 0);
}

#[test]
fn indented_comment_counts_as_comment() {
    let content = b"    // note\n\tcode();".to_vec();
    let c = classify(&content, &go_info());
    assert_eq!(c.comment, 1);
    assert_eq!(c.code, 1);
}
