use media_downloader::paths::{
    is_partial_of, join_path, output_path, part_path, segment_dir, stream_path,
};
use media_downloader::rewrite::splice;
use media_downloader::table::Table;
use media_downloader::text::{
    decimal_chars, from_chars, line_list, signed_64, split_char, to_chars, trim_str,
    unsigned_at_most,
};

fn chars(s: &str) -> Vec<char> {
    to_chars(s)
}

#[test]
fn numbers_are_read_as_they_are_written() {
    assert_eq!(unsigned_at_most(&chars("250"), 255), Some(250));
    assert_eq!(unsigned_at_most(&chars("256"), 255), None);
    assert_eq!(unsigned_at_most(&chars("+7"), 255), Some(7));
    assert_eq!(unsigned_at_most(&chars("-7"), 255), None);
    assert_eq!(unsigned_at_most(&chars(""), 255), None);
    assert_eq!(
        unsigned_at_most(&chars("18446744073709551615"), u64::MAX),
        Some(u64::MAX)
    );
    assert_eq!(unsigned_at_most(&chars("18446744073709551616"), u64::MAX), None);
    assert_eq!(signed_64(&chars("-9223372036854775808")), Some(i64::MIN));
    assert_eq!(signed_64(&chars("-9223372036854775809")), None);
    assert_eq!(signed_64(&chars("9223372036854775807")), Some(i64::MAX));
    assert_eq!(signed_64(&chars("9223372036854775808")), None);
    assert_eq!(signed_64(&chars("+12")), Some(12));
    assert_eq!(signed_64(&chars("-")), None);
    assert_eq!(signed_64(&chars("12a")), None);
}

#[test]
fn numbers_are_written_in_decimal() {
    assert_eq!(from_chars(&decimal_chars(0)), "0");
    assert_eq!(from_chars(&decimal_chars(u64::MAX)), u64::MAX.to_string());
}

#[test]
fn texts_are_trimmed_and_split() {
    assert_eq!(trim_str(" \t\u{3000}a b\n"), "a b");
    assert_eq!(trim_str("  "), "");
    let parts: Vec<String> =
        split_char(&chars("a||b"), '|').iter().map(|p| from_chars(p)).collect();
    assert_eq!(parts, ["a", "", "b"]);
    let lines: Vec<String> =
        line_list(&chars("a\r\nb\n\nc")).iter().map(|p| from_chars(p)).collect();
    assert_eq!(lines, ["a", "b", "", "c"]);
}

#[test]
fn spans_are_replaced() {
    let text = chars("one two three");
    let replaced = splice(&text, &vec![(0, 3), (8, 13)], &vec![chars("1"), chars("3")]);
    assert_eq!(from_chars(&replaced), "1 two 3");
    let same = splice(&text, &vec![(4, 7)], &vec![chars("two")]);
    assert_eq!(same, text);
}

#[test]
fn tables_hold_one_value_for_each_key() {
    let mut table: Table<u32> = Table::new();
    table.insert("a", 1);
    table.insert("b", 2);
    table.insert("a", 3);
    assert_eq!(table.get("a"), Some(&3));
    assert_eq!(table.keys().len(), 2);
    assert_eq!(table.remove("a"), Some(3));
    assert_eq!(table.remove("a"), None);
    assert!(!table.has("a"));
    assert!(table.has("b"));
}

#[test]
fn output_and_part_paths_are_stable() {
    let final_path = output_path("/tmp/downloads", "1950234389", "a/b:c");
    assert_eq!(final_path, "/tmp/downloads/1950234389 - a_b_c.mp4");
    assert_eq!(
        part_path(&final_path),
        "/tmp/downloads/1950234389 - a_b_c.mp4.part"
    );
}

#[test]
fn paths_are_joined() {
    assert_eq!(join_path("/tmp/", "a"), "/tmp/a");
    assert_eq!(join_path("/tmp", "/a"), "/a");
    assert_eq!(join_path("", "a"), "a");
    assert_eq!(segment_dir("/tmp/partial", "abp-123"), "/tmp/partial/temp_abp-123");
}

#[test]
fn streams_have_their_own_extension() {
    assert_eq!(stream_path("/d/1 - a.mp4"), "/d/1 - a.ts");
    assert_eq!(stream_path("/d/a.mkv"), "/d/a.ts");
    assert_eq!(stream_path("/d/a.b.c"), "/d/a.b.ts");
    assert_eq!(stream_path("/d.x/a"), "/d.x/a.ts");
    assert_eq!(stream_path("/d/.mp4"), "/d/.mp4.ts");
    assert_eq!(stream_path("/d/a."), "/d/a.ts");
    assert_eq!(stream_path("/d/a.mp4/"), "/d/a.ts");
    assert_eq!(stream_path("/d/.."), "/d/..");
    assert_eq!(stream_path("/"), "/");
    assert_eq!(stream_path(""), "");
}

#[test]
fn outputs_of_different_videos_are_apart() {
    assert_ne!(output_path("/d", "1", "title"), output_path("/d", "2", "title"));
    assert_ne!(stream_path("/d/1 - a.mp4"), "/d/1 - a.mp4");
    assert!(is_partial_of("1 - a.mp4.part", "1"));
    assert!(!is_partial_of("12 - a.mp4.part", "1"));
    assert!(!is_partial_of("1 - a.mp4", "1"));
}
