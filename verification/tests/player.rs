use ytamp::model::Span;
use ytamp::player::{played_duration, position_from, samples_at};

fn secs(secs: u64) -> Span {
    Span { secs, nanos: 0 }
}

fn millis(ms: u64) -> Span {
    Span { secs: ms / 1000, nanos: ((ms % 1000) * 1_000_000) as u32 }
}

#[test]
fn samples_at_inverts_played_duration() {
    assert_eq!(samples_at(secs(2), 88_200), 176_400);
    assert_eq!(samples_at(millis(500), 96_000), 48_000);
    assert_eq!(samples_at(Span { secs: 0, nanos: 0 }, 96_000), 0);
}

#[test]
fn played_duration_counts_samples_of_every_channel() {
    assert_eq!(played_duration(96_000, 96_000), secs(1));
    assert_eq!(played_duration(48_000, 96_000), millis(500));
    assert_eq!(played_duration(5, 0), Span { secs: 0, nanos: 0 });
}

#[test]
fn one_sample_rounds_down_on_the_way_back() {
    let span = played_duration(1, 96_000);
    assert_eq!(span, Span { secs: 0, nanos: 10_416 });
    assert_eq!(samples_at(span, 96_000), 0);
}

#[test]
fn the_position_adds_the_seek_base_and_what_played() {
    let position = position_from(1_500_000_000, 48_000, 96_000);
    assert_eq!(position, Span { secs: 2, nanos: 0 });
}
