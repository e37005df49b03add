use cloc::paths::extension_of;
use cloc::Language;

#[test]
fn display_names() {
    assert_eq!(Language::Go.as_str(), "Go");
    assert_eq!(Language::Rust.as_str(), "Rust");
}

#[test]
fn from_name_or_extension() {
    assert_eq!(Language::from("Go"), Some(Language::Go));
    assert_eq!(Language::from("go"), Some(Language::Go));
    assert_eq!(Language::from("Rust"), Some(Language::Rust));
    assert_eq!(Language::from("rs"), Some(Language::Rust));
    assert_eq!(Language::from("C"), None);
    assert_eq!(Language::from(""), None);
    assert_eq!(Language::from("gopher"), None);
}

#[test]
fn from_then_as_str_round_trips() {
    let lang = Language::from("go").unwrap();
    assert_eq!(lang.as_str(), "Go");
    let lang = Language::from("rs").unwrap();
    assert_eq!(lang.as_str(), "Rust");
}

#[test]
fn extension_after_last_dot_of_file_name() {
    assert_eq!(extension_of(&b"dir/a.rs".to_vec()), Some(b"rs".to_vec()));
    assert_eq!(extension_of(&b"x/y.tar.gz".to_vec()), Some(b"gz".to_vec()));
    assert_eq!(extension_of(&b"main.go".to_vec()), Some(b"go".to_vec()));
}

#[test]
fn names_without_usable_dot_have_no_extension() {
    assert_eq!(extension_of(&b"noext".to_vec()), None);
    assert_eq!(extension_of(&b".hidden".to_vec()), None);
    assert_eq!(extension_of(&b"dir.d/noext".to_vec()), None);
    assert_eq!(extension_of(&b"".to_vec()), None);
}

#[test]
fn trailing_dot_gives_empty_extension() {
    assert_eq!(extension_of(&b"weird.".to_vec()), Some(Vec::new()));
}
