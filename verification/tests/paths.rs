use notechart_cache::new::{full_path, get_parent, is_notechart};
use notechart_cache::{get_hash, to_hex};

#[test]
fn notechart_extension_is_recognized() {
    assert!(is_notechart("songs/set1/chart.osu"));
    assert!(is_notechart("chart.osu"));
    assert!(!is_notechart("songs/set1/chart.sm"));
    assert!(!is_notechart("songs/set1/chart.ssc"));
    assert!(!is_notechart("songs/set1/chart"));
    assert!(!is_notechart("songs/set1/.osu"));
    assert!(!is_notechart("songs/set1/chart.OSU"));
    assert!(!is_notechart(""));
    assert!(is_notechart("a/b.c.osu"));
}

#[test]
fn parent_is_everything_before_last_slash() {
    assert_eq!(get_parent("R/SetA/chart1.osu"), "R/SetA");
    assert_eq!(get_parent("R/SetA"), "R");
    assert_eq!(get_parent("chart1.osu"), "");
    assert_eq!(get_parent(""), "");
    assert_eq!(get_parent("/x"), "");
    assert_eq!(get_parent("a//b"), "a/");
}

#[test]
fn full_path_joins_with_separator() {
    assert_eq!(full_path("R/SetA", "chart1.osu"), "R/SetA/chart1.osu");
    assert_eq!(full_path("", "x"), "/x");
}

#[test]
fn content_hash_is_sha256_hex() {
    // a published SHA-256 test vector
    assert_eq!(
        get_hash(b"abc"),
        "ba7816bf8f01cfea414140de5dae2223b00361a396177a9cb410ff61f20015ad"
    );
    assert_eq!(
        get_hash(b""),
        "e3b0c44298fc1c149afbf4c8996fb92427ae41e4649b934ca495991b7852b855"
    );
    assert_ne!(get_hash(b"abc"), get_hash(b"abd"));
}

#[test]
fn to_hex_renders_lowercase_pairs() {
    assert_eq!(to_hex(&vec![]), "");
    assert_eq!(to_hex(&vec![0u8, 15u8, 16u8, 255u8, 0xabu8]), "000f10ffab");
}
