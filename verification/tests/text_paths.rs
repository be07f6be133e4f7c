use transcoder::paths::{get_format, map_dst, replace_extension};
use transcoder::text::{str_cmp, to_lowercase, u32_to_string};

#[test]
fn lowercase_folds_ascii() {
    assert_eq!(to_lowercase("MP4"), "mp4");
    assert_eq!(to_lowercase("H264"), "h264");
    assert_eq!(to_lowercase("already lower"), "already lower");
    assert_eq!(to_lowercase("MiXeD-123_Case"), "mixed-123_case");
    assert_eq!(to_lowercase(""), "");
}

#[test]
fn decimal_notation_is_exact() {
    assert_eq!(u32_to_string(0), "0");
    assert_eq!(u32_to_string(7), "7");
    assert_eq!(u32_to_string(42), "42");
    assert_eq!(u32_to_string(1234567890), "1234567890");
    assert_eq!(u32_to_string(u32::MAX), "4294967295");
}

#[test]
fn string_comparison_is_lexicographic() {
    assert_eq!(str_cmp("abc", "abc"), std::cmp::Ordering::Equal);
    assert_eq!(str_cmp("abc", "abd"), std::cmp::Ordering::Less);
    assert_eq!(str_cmp("b", "aaaa"), std::cmp::Ordering::Greater);
    assert_eq!(str_cmp("", "a"), std::cmp::Ordering::Less);
    assert_eq!(str_cmp("ab", "a"), std::cmp::Ordering::Greater);
}

#[test]
fn extension_is_final_and_lowercased() {
    assert_eq!(get_format("/films/a.MKV"), Some("mkv".to_string()));
    assert_eq!(get_format("a.tar.gz"), Some("gz".to_string()));
    assert_eq!(get_format("noext"), None);
    assert_eq!(get_format("/x/.bashrc"), None);
    assert_eq!(get_format("dir.d/file"), None);
    assert_eq!(get_format("trailing."), Some("".to_string()));
}

#[test]
fn replace_extension_rewrites_the_final_component() {
    assert_eq!(replace_extension("dst/a/b.mkv", "mp4"), "dst/a/b.mp4");
    assert_eq!(replace_extension("dst/a/b", "mp4"), "dst/a/b.mp4");
    assert_eq!(replace_extension("a.tar.gz", "xz"), "a.tar.xz");
    assert_eq!(replace_extension("dir.d/file", "mp4"), "dir.d/file.mp4");
    assert_eq!(replace_extension("a.mkv", ""), "a");
}

#[test]
fn mapping_prefixes_the_destination_root() {
    assert_eq!(
        map_dst("/src/a/b.mkv", "/src", "/dst"),
        Some("/dst/a/b.mkv".to_string())
    );
    assert_eq!(
        map_dst("/src/a/b.mkv", "/src/", "/dst/"),
        Some("/dst/a/b.mkv".to_string())
    );
    assert_eq!(map_dst("/src", "/src", "/dst"), Some("/dst".to_string()));
    assert_eq!(map_dst("/elsewhere/a", "/src", "/dst"), None);
    assert_eq!(map_dst("/srcx/a", "/src", "/dst"), None);
}

#[test]
fn transcoded_destination_carries_the_preferred_extension() {
    let out = replace_extension("/dst/a/b.mkv", "mp4");
    assert_eq!(get_format(&out), Some("mp4".to_string()));
}
