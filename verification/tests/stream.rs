use std::path::PathBuf;

use ytamp::model::Span;
use ytamp::stream::buffer::{
    copy_available, decide_read, end_from_state, offset_by, BufferState, BufferStatus,
    ReadDecision, ReadOutcome,
};
use ytamp::stream::chain::{
    classify, join_failures, Attempt, ChainBreakers, ChainRun, ChainStep, CircuitBreaker,
};
use ytamp::stream::disk_cache::{is_valid_video_id, select_evictions, track_path, CacheEntry};
use ytamp::stream::sources::{
    audio_from_output, best_decodable_index, parse_visitor_data, YtDlpSource,
};

fn entry(path: &str, size: u64, age_seconds: u64) -> CacheEntry {
    CacheEntry {
        path: path.to_string(),
        size,
        modified: Span { secs: 1_000_000 - age_seconds, nanos: 0 },
    }
}

#[test]
fn decide_read_reports_ready_when_bytes_cover_the_position() {
    assert!(matches!(
        decide_read(10, 5, &BufferStatus::Filling),
        ReadDecision::Ready
    ));
}

#[test]
fn decide_read_reports_eof_at_the_end_of_a_complete_buffer() {
    assert!(matches!(
        decide_read(10, 10, &BufferStatus::Complete),
        ReadDecision::Eof
    ));
}

#[test]
fn decide_read_reports_blocked_at_the_end_of_a_filling_buffer() {
    assert!(matches!(
        decide_read(10, 10, &BufferStatus::Filling),
        ReadDecision::Blocked
    ));
}

#[test]
fn decide_read_reports_the_failure_at_the_end_of_a_failed_buffer() {
    assert_eq!(
        decide_read(3, 7, &BufferStatus::Failed("network gone".to_string())),
        ReadDecision::Failed("network gone".to_string())
    );
}

#[test]
fn copy_available_copies_what_fits() {
    let mut buf = [9u8; 3];
    assert_eq!(copy_available(&[1, 2], &mut buf), 2);
    assert_eq!(buf, [1, 2, 9]);
    let mut small = [0u8; 1];
    assert_eq!(copy_available(&[5, 6, 7], &mut small), 1);
    assert_eq!(small, [5]);
}

#[test]
fn the_end_is_known_once_complete_or_announced() {
    assert_eq!(end_from_state(7, Some(100), &BufferStatus::Complete), Some(7));
    assert_eq!(end_from_state(7, Some(100), &BufferStatus::Filling), Some(100));
    assert_eq!(end_from_state(7, None, &BufferStatus::Filling), None);
}

#[test]
fn a_seek_below_zero_is_invalid() {
    assert_eq!(offset_by(100, -10), Some(90));
    assert_eq!(offset_by(5, -6), None);
    assert_eq!(offset_by(u64::MAX, 1), None);
}

#[test]
fn a_dropped_primary_writer_fails_a_filling_buffer() {
    let mut state = BufferState::new(None);
    assert!(state.take_writer());
    assert!(!state.take_writer());
    state.writer_dropped(false);
    assert_eq!(state.status, BufferStatus::Filling);
    state.writer_dropped(true);
    assert_eq!(
        state.status,
        BufferStatus::Failed("the download ended early".to_string())
    );
}

#[test]
fn a_read_copies_then_waits_then_ends() {
    let mut state = BufferState::new(Some(10));
    state.push(b"0123456789");
    assert!(state.delivered_any);
    let mut out = [0u8; 5];
    assert_eq!(state.read_at(5, &mut out), ReadOutcome::Read(5));
    assert_eq!(&out, b"56789");
    assert_eq!(state.read_at(10, &mut out), ReadOutcome::Blocked);
    state.set_status(BufferStatus::Complete);
    assert_eq!(state.read_at(10, &mut out), ReadOutcome::Eof);
    assert_eq!(state.known_len(), Some(10));
}

#[test]
fn valid_video_id_accepts_eleven_id_characters() {
    assert!(is_valid_video_id("dQw4w9WgXcQ"));
    assert!(is_valid_video_id("a-b_c-d_e-f"));
}

#[test]
fn valid_video_id_rejects_wrong_shape() {
    assert!(!is_valid_video_id("short"));
    assert!(!is_valid_video_id("twelve-chars"));
    assert!(!is_valid_video_id("../../etc/pw"));
    assert!(!is_valid_video_id("has space!!"));
}

#[test]
fn track_path_rejects_invalid_id() {
    let dir = "/cache/audio";
    assert!(track_path(dir, "not an id!!").is_none());
}

#[test]
fn track_path_builds_file_name_from_id() {
    let dir = "/cache/audio";
    let path = track_path(dir, "dQw4w9WgXcQ").expect("valid id");
    assert_eq!(PathBuf::from(path), PathBuf::from("/cache/audio/dQw4w9WgXcQ.m4a"));
}

#[test]
fn select_evictions_keeps_everything_under_cap() {
    let entries = vec![entry("a", 100, 10), entry("b", 100, 5)];
    assert!(select_evictions(&entries, 1000).is_empty());
}

#[test]
fn select_evictions_removes_oldest_first_until_under_cap() {
    let entries = vec![
        entry("newest", 100, 1),
        entry("oldest", 100, 100),
        entry("middle", 100, 50),
    ];
    let victims = select_evictions(&entries, 250);
    assert_eq!(victims, vec!["oldest".to_string()]);
}

#[test]
fn select_evictions_removes_enough_to_clear_the_cap() {
    let entries = vec![
        entry("oldest", 100, 100),
        entry("middle", 100, 50),
        entry("newest", 100, 1),
    ];
    let victims = select_evictions(&entries, 100);
    assert_eq!(victims, vec!["oldest".to_string(), "middle".to_string()]);
}

#[test]
fn select_evictions_keeps_listing_order_among_equal_times() {
    let entries = vec![entry("first", 10, 5), entry("second", 10, 5), entry("third", 10, 5)];
    let victims = select_evictions(&entries, 15);
    assert_eq!(victims, vec!["first".to_string(), "second".to_string()]);
}

#[test]
fn a_breaker_stays_closed_under_the_threshold() {
    let mut breaker = CircuitBreaker::new();
    assert!(!breaker.record_failure());
    assert!(!breaker.record_failure());
    assert!(!breaker.is_open());
}

#[test]
fn a_breaker_trips_on_the_third_failure() {
    let mut breaker = CircuitBreaker::new();
    assert!(!breaker.record_failure());
    assert!(!breaker.record_failure());
    assert!(breaker.record_failure());
    assert!(breaker.is_open());
}

#[test]
fn a_tripped_breaker_reports_no_further_trips() {
    let mut breaker = CircuitBreaker::new();
    for _ in 0..3 {
        breaker.record_failure();
    }
    assert!(!breaker.record_failure());
    assert!(breaker.is_open());
}

#[test]
fn join_failures_names_every_source_when_some_ran() {
    let failures = vec![
        "rustypipe: boom".to_string(),
        "yt-dlp: also boom".to_string(),
    ];
    let message = join_failures(&failures);
    assert!(message.contains("rustypipe: boom"));
    assert!(message.contains("yt-dlp: also boom"));
}

#[test]
fn join_failures_reports_an_all_tripped_chain() {
    assert!(join_failures(&[]).contains("tripped"));
}

fn run_chain(breakers: &mut ChainBreakers, outcomes: &[(Result<(), String>, bool)]) -> ChainStep {
    let (run, mut step) = breakers.start();
    let mut run: ChainRun = match run {
        Some(run) => run,
        None => return step,
    };
    loop {
        let index = match step {
            ChainStep::Try(index) => index,
            other => return other,
        };
        let (outcome, delivered) = outcomes[index].clone();
        let attempt = classify(outcome, delivered);
        step = breakers.advance(&mut run, attempt, &format!("source{index}"));
    }
}

#[test]
fn a_source_trips_only_when_a_later_source_delivers() {
    let mut breakers = ChainBreakers::new(2);
    let outcomes = [(Err("broken".to_string()), false), (Ok(()), true)];
    for _ in 0..2 {
        assert_eq!(run_chain(&mut breakers, &outcomes), ChainStep::Succeeded(vec![]));
    }
    assert_eq!(run_chain(&mut breakers, &outcomes), ChainStep::Succeeded(vec![0]));
    assert!(breakers.breakers[0].is_open());
    assert!(!breakers.breakers[1].is_open());
    assert_eq!(run_chain(&mut breakers, &outcomes), ChainStep::Succeeded(vec![]));
}

#[test]
fn a_video_no_source_delivers_never_trips_a_breaker() {
    let mut breakers = ChainBreakers::new(2);
    let outcomes = [(Err("a".to_string()), false), (Err("b".to_string()), false)];
    for _ in 0..5 {
        assert_eq!(
            run_chain(&mut breakers, &outcomes),
            ChainStep::Exhausted("No source produced audio. source0: a / source1: b".to_string())
        );
    }
    assert_eq!(breakers.breakers[0].failures, 0);
    assert_eq!(breakers.breakers[1].failures, 0);
}

#[test]
fn a_failure_after_bytes_ends_the_chain() {
    let mut breakers = ChainBreakers::new(2);
    let outcomes = [(Err("first failed".to_string()), true), (Ok(()), true)];
    assert_eq!(
        run_chain(&mut breakers, &outcomes),
        ChainStep::Ended("first failed".to_string())
    );
    assert_eq!(classify(Ok(()), false), Attempt::Succeeded);
}

#[test]
fn the_highest_bitrate_decodable_stream_wins() {
    let streams = [(false, 160_000), (true, 128_000), (true, 48_000)];
    assert_eq!(best_decodable_index(&streams), Some(1));
}

#[test]
fn undecodable_only_lists_resolve_to_nothing() {
    assert_eq!(best_decodable_index(&[(false, 160_000)]), None);
}

#[test]
fn the_last_of_equal_bitrates_wins() {
    let streams = [(true, 128_000), (false, 200_000), (true, 128_000)];
    assert_eq!(best_decodable_index(&streams), Some(2));
}

#[test]
fn parse_visitor_data_finds_a_present_token() {
    let html = r#"foo "VISITOR_DATA":"CgtabmFtZQ%3D%3D" bar"#;
    assert_eq!(
        parse_visitor_data(html),
        Some("CgtabmFtZQ%3D%3D".to_string())
    );
}

#[test]
fn parse_visitor_data_reports_none_when_absent() {
    assert_eq!(parse_visitor_data("no token on this page"), None);
}

#[test]
fn parse_visitor_data_reports_none_for_an_empty_value() {
    assert_eq!(parse_visitor_data(r#""VISITOR_DATA":""#), None);
}

#[test]
fn parse_visitor_data_reports_none_for_an_unclosed_field() {
    assert_eq!(parse_visitor_data(r#""VISITOR_DATA":"unterminated"#), None);
}

#[test]
fn stdout_bytes_become_audio() {
    assert_eq!(
        audio_from_output(true, vec![1, 2, 3], b""),
        Ok(vec![1, 2, 3])
    );
}

#[test]
fn a_failure_reports_the_first_stderr_line() {
    let result = audio_from_output(false, vec![], b"ERROR: video unavailable\nmore");
    assert_eq!(result.unwrap_err(), "ERROR: video unavailable");
}

#[test]
fn empty_output_is_an_error() {
    assert!(audio_from_output(true, vec![], b"").is_err());
}

#[test]
fn a_silent_failure_and_blank_lines_have_their_messages() {
    assert_eq!(audio_from_output(false, vec![1], b"").unwrap_err(), "yt-dlp failed");
    assert_eq!(
        audio_from_output(false, vec![], b"  \r\n\n  late line \r\n").unwrap_err(),
        "late line"
    );
}

#[test]
fn yt_dlp_writes_the_audio_of_the_video_to_stdout() {
    let source = YtDlpSource::new();
    assert_eq!(source.binary, "yt-dlp");
    assert_eq!(
        source.arguments("abc"),
        vec![
            "--quiet",
            "--no-warnings",
            "--format",
            "140/bestaudio[ext=m4a]",
            "--output",
            "-",
            "https://music.youtube.com/watch?v=abc",
        ]
    );
}
