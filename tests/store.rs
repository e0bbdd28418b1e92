use hyut::front_matter::split_front_matter;
use hyut::memo::parse_memo_file_at;
use hyut::timestamp::{read_timestamp, MAX_SECS, MIN_SECS};
use hyut::{extract_title, parse_memo_file, serialize_memo, Memo, MemoMeta, Timestamp};

fn ts(secs: i64, nanos: u32) -> Timestamp {
    Timestamp { secs, nanos }
}

fn memo(id: &str, created: Timestamp, updated: Timestamp, body: &str) -> Memo {
    Memo {
        meta: MemoMeta { id: id.to_string(), created_at: created, updated_at: updated },
        body: body.to_string(),
    }
}

fn assert_round_trip(m: &Memo) {
    let text = serialize_memo(m);
    let back = parse_memo_file(&text, &m.meta.id).expect("serialized text must parse");
    assert_eq!(back.meta.id, m.meta.id);
    assert_eq!(back.meta.created_at, m.meta.created_at);
    assert_eq!(back.meta.updated_at, m.meta.updated_at);
    assert_eq!(back.body, m.body);
}

#[test]
fn round_trip_plain_body() {
    assert_round_trip(&memo("abc", ts(1704067200, 0), ts(1704067260, 0), "hello\nworld"));
}

#[test]
fn round_trip_empty_body() {
    assert_round_trip(&memo("e", ts(0, 0), ts(0, 0), ""));
}

#[test]
fn round_trip_body_with_delimiters_and_blank_lines() {
    assert_round_trip(&memo(
        "d",
        ts(1704067200, 123_000_000),
        ts(1704067201, 123_456_789),
        "\n\n---\nnot a header\n---\n",
    ));
}

#[test]
fn round_trip_awkward_id() {
    assert_round_trip(&memo("a: b\n---\nc", ts(-86400, 5), ts(253402300799, 999_999_999), "x"));
}

#[test]
fn round_trip_leap_second() {
    assert_round_trip(&memo("leap", ts(1483228799, 1_500_000_000), ts(1483228800, 0), "x"));
}

#[test]
fn serialized_text_layout() {
    let m = memo("abc", ts(1704067200, 0), ts(1704067200, 0), "body\n");
    let text = serialize_memo(&m);
    assert!(text.starts_with("---\nid: abc\n"));
    assert!(text.contains("2024-01-01T00:00:00Z"));
    assert!(text.ends_with("\n---\nbody\n"));
}

#[test]
fn parse_reads_header_and_body() {
    let text = "---\nid: m1\ncreated_at: 2024-01-01T00:00:00Z\nupdated_at: 2024-01-01T00:00:01.5Z\n---\nbody";
    let m = parse_memo_file_at(text, "file", ts(7, 0)).unwrap();
    assert_eq!(m.meta.id, "m1");
    assert_eq!(m.meta.created_at, ts(1704067200, 0));
    assert_eq!(m.meta.updated_at, ts(1704067201, 500_000_000));
    assert_eq!(m.body, "body");
}

#[test]
fn parse_strips_one_newline_only() {
    let text = "---\nid: m1\ncreated_at: 2024-01-01T00:00:00Z\nupdated_at: 2024-01-01T00:00:00Z\n---\n\n\nbody";
    let m = parse_memo_file_at(text, "file", ts(7, 0)).unwrap();
    assert_eq!(m.body, "\n\nbody");
}

#[test]
fn parse_closing_line_at_end() {
    let m = parse_memo_file_at("---\n---", "f", ts(7, 0)).unwrap();
    assert_eq!(m.body, "");
    assert_eq!(m.meta.id, "f");
}

#[test]
fn parse_unreadable_header_falls_back() {
    let text = "---\n: : [not yaml\n---\nthe body\nstays";
    let m = parse_memo_file_at(text, "fallback", ts(42, 7)).unwrap();
    assert_eq!(m.meta.id, "fallback");
    assert_eq!(m.meta.created_at, ts(42, 7));
    assert_eq!(m.meta.updated_at, ts(42, 7));
    assert_eq!(m.body, "the body\nstays");
}

#[test]
fn parse_missing_field_falls_back() {
    let text = "---\nid: m1\ncreated_at: 2024-01-01T00:00:00Z\n---\nb";
    let m = parse_memo_file_at(text, "fallback", ts(42, 0)).unwrap();
    assert_eq!(m.meta.id, "fallback");
    assert_eq!(m.body, "b");
}

#[test]
fn parse_bad_timestamp_falls_back() {
    let text = "---\nid: m1\ncreated_at: yesterday\nupdated_at: 2024-01-01T00:00:00Z\n---\nb";
    let m = parse_memo_file_at(text, "fallback", ts(42, 0)).unwrap();
    assert_eq!(m.meta.id, "fallback");
    assert_eq!(m.meta.created_at, ts(42, 0));
}

#[test]
fn parse_without_header_is_none() {
    assert!(parse_memo_file("just text", "x").is_none());
    assert!(parse_memo_file("", "x").is_none());
    assert!(parse_memo_file("\n---\nid: a\n---\n", "x").is_none());
}

#[test]
fn parse_unterminated_header_is_none() {
    assert!(parse_memo_file("---\nid: a\nbody", "x").is_none());
    assert!(parse_memo_file("---\nid: a\n----\nbody", "x").is_none());
    assert!(parse_memo_file("---", "x").is_none());
}

#[test]
fn split_takes_first_closing_line() {
    let (block, body) = split_front_matter("---\na: 1\n---\nb\n---\nc").unwrap();
    assert_eq!(block, "a: 1\n");
    assert_eq!(body, "b\n---\nc");
}

#[test]
fn timestamp_with_offset_is_read_in_utc() {
    assert_eq!(read_timestamp("2024-01-01T00:00:00+09:00"), Some(ts(1704034800, 0)));
    assert_eq!(read_timestamp("2024-01-01T00:00:00.25Z"), Some(ts(1704067200, 250_000_000)));
    assert_eq!(read_timestamp("not a time"), None);
}

#[test]
fn title_from_heading() {
    assert_eq!(extract_title("# Hello World\n\nmore text"), "Hello World");
    assert_eq!(extract_title("\n  #   Spaced   \nx"), "Spaced");
}

#[test]
fn title_truncated_to_fifty_chars() {
    let line = "plain first line that is quite long and keeps going past the limit";
    let body = format!("   \n{}", line);
    let expected: String = line.chars().take(50).collect();
    assert_eq!(extract_title(&body), expected);
    assert_eq!(extract_title(&body).chars().count(), 50);
}

#[test]
fn title_counts_characters_not_bytes() {
    let line = "あ".repeat(60);
    assert_eq!(extract_title(&line), "あ".repeat(50));
}

#[test]
fn title_of_short_line_is_trimmed_line() {
    assert_eq!(extract_title("\t  short  \r\nnext"), "short");
}

#[test]
fn title_untitled_for_blank_body() {
    assert_eq!(extract_title(""), "Untitled");
    assert_eq!(extract_title("\n   \n\t\n"), "Untitled");
}

#[test]
fn timestamp_validity() {
    assert!(ts(0, 0).is_valid());
    assert!(ts(59, 1_500_000_000).is_valid());
    assert!(!ts(58, 1_500_000_000).is_valid());
    assert!(!ts(i64::MAX, 0).is_valid());
    assert!(ts(1, 0).is_before(&ts(1, 1)));
    assert!(!ts(2, 0).is_before(&ts(1, 9)));
}

#[test]
fn timestamp_range_matches_chrono() {
    assert!(chrono::DateTime::from_timestamp(MAX_SECS, 999_999_999).is_some());
    assert!(chrono::DateTime::from_timestamp(MAX_SECS + 1, 0).is_none());
    assert!(chrono::DateTime::from_timestamp(MIN_SECS, 0).is_some());
    assert!(chrono::DateTime::from_timestamp(MIN_SECS - 1, 999_999_999).is_none());
    assert!(!ts(MAX_SECS + 1, 0).is_valid());
    assert!(!ts(MIN_SECS - 1, 0).is_valid());
}

#[test]
fn round_trip_range_ends() {
    assert_round_trip(&memo("ends", ts(MIN_SECS, 0), ts(MAX_SECS, 999_999_999), "far"));
}

#[test]
fn round_trip_ids_that_look_like_delimiters() {
    for id in ["---", "\n---\n", "--- ", "", "a\r\n---\r\nb", "- --\n---x\n---", "  ---  "] {
        assert_round_trip(&memo(id, ts(1, 0), ts(2, 0), "---\nbody"));
    }
}

#[test]
fn white_space_matches_std() {
    for u in 0u32..=0x10FFFF {
        if let Some(c) = char::from_u32(u) {
            assert_eq!(hyut::text::is_white_char(c), c.is_whitespace(), "{:#x}", u);
        }
    }
}

#[test]
fn parse_takes_scalar_header_values_as_written() {
    let text = "---\nid: 42\ncreated_at: 2024-01-01T00:00:00Z\nupdated_at: 2024-01-01T00:00:00Z\n---\nb";
    let m = parse_memo_file_at(text, "fallback", ts(9, 0)).unwrap();
    assert_eq!(m.meta.id, "42");
    assert_eq!(m.meta.created_at, ts(1704067200, 0));
    let text = "---\nid: true\ncreated_at: 2024-01-01T00:00:00Z\nupdated_at: 2024-01-01T00:00:00Z\n---\nb";
    assert_eq!(parse_memo_file_at(text, "fallback", ts(9, 0)).unwrap().meta.id, "true");
}

#[test]
fn parse_ignores_extra_scalar_header_fields() {
    let text = "---\nid: m1\ntags: a b\ncreated_at: 2024-01-01T00:00:00Z\nupdated_at: 2024-01-01T00:00:00Z\n---\nb";
    let m = parse_memo_file_at(text, "fallback", ts(9, 0)).unwrap();
    assert_eq!(m.meta.id, "m1");
    assert_eq!(m.meta.updated_at, ts(1704067200, 0));
}

#[test]
fn parse_header_with_nested_value_falls_back() {
    let text = "---\nid: m1\ntags: [a, b]\ncreated_at: 2024-01-01T00:00:00Z\nupdated_at: 2024-01-01T00:00:00Z\n---\nb";
    let m = parse_memo_file_at(text, "fallback", ts(9, 0)).unwrap();
    assert_eq!(m.meta.id, "fallback");
    assert_eq!(m.meta.updated_at, ts(9, 0));
    assert_eq!(m.body, "b");
}

#[test]
fn parse_header_of_id_only_falls_back() {
    let m = parse_memo_file_at("---\nid: x\n---\nbody", "fallback", ts(3, 0)).unwrap();
    assert_eq!(m.meta.id, "fallback");
    assert_eq!(m.meta.created_at, ts(3, 0));
    assert_eq!(m.body, "body");
}

#[test]
fn serialized_text_splits_into_block_and_body() {
    let m = memo("a\n---\nb", ts(1, 0), ts(2, 0), "\n---\nbody");
    let text = serialize_memo(&m);
    let (block, body) = split_front_matter(&text).unwrap();
    assert_eq!(body, "\n---\nbody");
    assert!(block.ends_with('\n'));
    assert!(!block.lines().any(|l| l == "---"));
    let under_other_id = parse_memo_file_at(&text, "other", ts(5, 0)).unwrap();
    assert_eq!(under_other_id.meta.id, "a\n---\nb");
}
