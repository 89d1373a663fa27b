use ytamp::lyrics::{line_offset, lrc_line, lrc_offset, stamp_parts, timed_lines, TimedLine};
use ytamp::model::Span;
use ytamp::numbers::{parse_i64, parse_u32};

fn at(ms: u64, text: &str) -> TimedLine {
    TimedLine {
        at: Span { secs: ms / 1000, nanos: ((ms % 1000) * 1_000_000) as u32 },
        text: text.to_string(),
    }
}

#[test]
fn numbers_read_as_str_parse_reads_them() {
    assert_eq!(parse_u32("042"), Some(42));
    assert_eq!(parse_u32("+7"), Some(7));
    assert_eq!(parse_u32("-7"), None);
    assert_eq!(parse_u32(""), None);
    assert_eq!(parse_u32("4294967295"), Some(u32::MAX));
    assert_eq!(parse_u32("4294967296"), None);
    assert_eq!(parse_i64("-250"), Some(-250));
    assert_eq!(parse_i64("-9223372036854775808"), Some(i64::MIN));
    assert_eq!(parse_i64("9223372036854775808"), None);
    assert_eq!(parse_i64("1.5"), None);
}

#[test]
fn the_last_offset_tag_wins() {
    assert_eq!(lrc_offset("[offset:100]\n[00:01.00]a\n [offset:-250] \n"), -250);
    assert_eq!(lrc_offset("[offset:abc]\n"), 0);
    assert_eq!(line_offset("[offset:+5]"), Some(5));
}

#[test]
fn a_line_splits_into_its_tags_and_words() {
    let line = lrc_line(" [00:01.00][00:02.50] Hello [x] ");
    assert_eq!(line.tags, vec!["00:01.00", "00:02.50"]);
    assert_eq!(line.text, "Hello [x]");
    let open = lrc_line("[00:01.00][unclosed words");
    assert_eq!(open.tags, vec!["00:01.00"]);
    assert_eq!(open.text, "[unclosed words");
    assert_eq!(stamp_parts("01:02.5"), Some((1, "02.5".to_string())));
    assert_eq!(stamp_parts("ar:Someone"), None);
}

#[test]
fn simultaneous_lines_combine_in_source_order() {
    let lines = timed_lines(vec![at(2000, "b"), at(1000, "a"), at(2000, ""), at(2000, "c")]);
    assert_eq!(lines, vec![at(1000, "a"), at(2000, "b\nc")]);
}

#[test]
fn lyrics_without_words_have_no_timed_lines() {
    assert!(timed_lines(vec![at(1000, ""), at(2000, "")]).is_empty());
}
