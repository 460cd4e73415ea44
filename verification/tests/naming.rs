use thingmirror::naming::{filename, string_is};

#[test]
fn filename_slugifies_the_stem_and_keeps_the_extension() {
    assert_eq!(filename("My File.STL"), "my-file.STL");
    assert_eq!(filename("photo 1.jpg"), "photo-1.jpg");
}

#[test]
fn filename_slugifies_a_name_without_a_dot_whole() {
    assert_eq!(filename("My Test String!!!1!1"), "my-test-string-1-1");
    assert_eq!(filename("README"), "readme");
}

#[test]
fn filename_splits_at_the_last_dot() {
    assert_eq!(filename("a.b.c"), "a-b.c");
}

#[test]
fn filename_handles_unicode_and_messy_input() {
    assert_eq!(filename("  --test_-_cool"), "test-cool");
    assert_eq!(filename("Æúű--cool?.zip"), "aeuu-cool.zip");
}

#[test]
fn string_is_compares_by_contents() {
    assert!(string_is(&String::from("display"), "display"));
    assert!(!string_is(&String::from("display"), "thumb"));
    assert!(!string_is(&String::from(""), "x"));
    assert!(string_is(&String::from(""), ""));
}
