use daystrom_core::format::{fit, fit_path};

#[test]
fn fit_exact_width() {
    assert_eq!(fit("hello", 5), "hello");
}

#[test]
fn fit_shorter_pads_right() {
    assert_eq!(fit("hi", 5), "hi   ");
}

#[test]
fn fit_longer_truncates_left() {
    assert_eq!(fit("abcdef", 4), "cdef");
}

#[test]
fn fit_empty_string() {
    assert_eq!(fit("", 5), "     ");
}

#[test]
fn fit_multibyte_truncates_left() {
    // "über" is four characters in five bytes
    assert_eq!(fit("über", 3), "ber");
}

#[test]
fn fit_multibyte_pads_right() {
    assert_eq!(fit("ü", 3), "ü  ");
}

#[test]
fn fit_path_exact_width() {
    assert_eq!(fit_path("src/main.rs", 11), "src/main.rs");
}

#[test]
fn fit_path_shorter_pads_right() {
    assert_eq!(fit_path("lib.rs", 10), "lib.rs    ");
}

#[test]
fn fit_path_longer_middle_truncates() {
    // width 15 leaves 12 characters around the dots: 6 before, 6 behind
    let result = fit_path("src/game/entitlements.rs", 15);
    assert_eq!(result.len(), 15);
    assert!(result.contains("..."), "expected '...' in '{result}'");
}

#[test]
fn fit_path_preserves_extension() {
    let result = fit_path("some/very/deep/nested/path/file.rs", 20);
    assert!(result.ends_with(".rs"), "expected '.rs' suffix in '{result}'");
}

#[test]
fn fit_path_empty_string() {
    assert_eq!(fit_path("", 10), "          ");
}

#[test]
fn fit_path_multibyte_middle_truncates() {
    // "src/müll/datei.rs" is 17 characters
    let result = fit_path("src/müll/datei.rs", 15);
    assert_eq!(result.chars().count(), 15);
    assert!(result.contains("..."), "expected '...' in '{result}'");
}

#[test]
fn fit_path_splits_with_the_odd_character_behind() {
    assert_eq!(fit_path("src/game/entitlements.rs", 15), "src/ga...nts.rs");
    assert_eq!(fit_path("abcdefghijklmnop", 10), "abc...mnop");
    assert_eq!(fit_path("abcdef", 3), "...");
    assert_eq!(fit_path("abcdef", 4), "...f");
}

#[test]
fn fit_to_width_zero_is_empty() {
    assert_eq!(fit("abc", 0), "");
    assert_eq!(fit("", 0), "");
}
