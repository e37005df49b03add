use cloc::engine::{calculate_file, Engine, FileInput};
use cloc::error::ClocError;
use cloc::Language;

fn ok(path: &str, content: &str) -> FileInput {
    FileInput { path: path.as_bytes().to_vec(), read: Ok(content.as_bytes().to_vec()) }
}

#[test]
fn go_file_is_classified() {
    let engine = Engine::new(String::from("root"));
    let (details, total, ignored) = engine.calculate(vec![ok("dir/main.go", "// hello\nfunc x() {}")]);
    assert_eq!(total, 1);
    assert_eq!(ignored, 0);
    assert_eq!(details.len(), 1);
    assert_eq!(details[0].language, Language::Go);
    assert_eq!(details[0].bytes, 20);
    assert_eq!(details[0].blank, 0);
    assert_eq!(details[0].comment, 1);
    assert_eq!(details[0].code, 1);
}

#[test]
fn unsupported_extension_counts_only_ignored() {
    let engine = Engine::new(String::from("root"));
    let (details, total, ignored) = engine.calculate(vec![ok("dir/foo.zig", "x")]);
    assert_eq!(total, 1);
    assert_eq!(ignored, 1);
    assert!(details.is_empty());
}

#[test]
fn empty_rust_file_has_zero_counts_and_zero_bytes() {
    let engine = Engine::new(String::from("root"));
    let (details, total, ignored) = engine.calculate(vec![ok("lib.rs", "")]);
    assert_eq!(total, 1);
    assert_eq!(ignored, 0);
    assert_eq!(details.len(), 1);
    assert_eq!(details[0].bytes, 0);
    assert_eq!(details[0].blank, 0);
    assert_eq!(details[0].comment, 0);
    assert_eq!(details[0].code, 0);
}

#[test]
fn non_text_file_is_ignored() {
    let engine = Engine::new(String::from("root"));
    let file = FileInput { path: b"a.rs".to_vec(), read: Err(ClocError::NonTextFile) };
    let (details, total, ignored) = engine.calculate(vec![file]);
    assert_eq!(total, 1);
    assert_eq!(ignored, 1);
    assert!(details.is_empty());
}

#[test]
fn io_failure_is_ignored() {
    let engine = Engine::new(String::from("root"));
    let file = FileInput { path: b"a.go".to_vec(), read: Err(ClocError::IoFailure) };
    let (details, total, ignored) = engine.calculate(vec![file]);
    assert_eq!(total, 1);
    assert_eq!(ignored, 1);
    assert!(details.is_empty());
}

fn mixed_tree() -> Vec<FileInput> {
    vec![
        ok("src/main.go", "// hello\nfunc x() {}"),
        ok("src/lib.rs", "/* a\n b */\ncode();"),
        ok("README.md", "# title"),
        ok("noextension", "text"),
        ok(".rs", "hidden();"),
        FileInput { path: b"bad.go".to_vec(), read: Err(ClocError::NonTextFile) },
        FileInput { path: b"gone.rs".to_vec(), read: Err(ClocError::IoFailure) },
        ok("deep/dir/tool.go", "\n\ncode()"),
    ]
}

#[test]
fn every_file_is_counted_exactly_once() {
    let engine = Engine::new(String::from("root"));
    let files = mixed_tree();
    let n = files.len();
    let (details, total, ignored) = engine.calculate(files);
    assert_eq!(total, n);
    assert_eq!(total, ignored + details.len());
    assert_eq!(details.len(), 3);
    assert_eq!(ignored, 5);
}

#[test]
fn reversed_input_gives_same_totals() {
    let forward = Engine::new(String::from("root")).calculate(mixed_tree());
    let mut files = mixed_tree();
    files.reverse();
    let backward = Engine::new(String::from("root")).calculate(files);
    assert_eq!(forward.1, backward.1);
    assert_eq!(forward.2, backward.2);
    assert_eq!(forward.0.len(), backward.0.len());
    for d in &forward.0 {
        assert!(backward.0.contains(d));
    }
    for d in &backward.0 {
        assert!(forward.0.contains(d));
    }
}

#[test]
fn calculate_file_classifies_known_extension() {
    let engine = Engine::new(String::from("root"));
    let detail = calculate_file(&engine.config, &ok("x.rs", "code();")).unwrap();
    assert_eq!(detail.language, Language::Rust);
    assert_eq!(detail.code, 1);
    assert_eq!(detail.comment, 0);
    assert_eq!(detail.blank, 0);
    assert_eq!(detail.bytes, 7);
}

#[test]
fn calculate_file_yields_nothing_for_unknown_extension() {
    let engine = Engine::new(String::from("root"));
    assert!(calculate_file(&engine.config, &ok("x.py", "code()")).is_none());
}

#[test]
fn dotted_extension_uses_last_dot() {
    let engine = Engine::new(String::from("root"));
    let (details, total, ignored) = engine.calculate(vec![ok("pkg/archive.tar.rs", "x();")]);
    assert_eq!(total, 1);
    assert_eq!(ignored, 0);
    assert_eq!(details.len(), 1);
    assert_eq!(details[0].language, Language::Rust);
}
