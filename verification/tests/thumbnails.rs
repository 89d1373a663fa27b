use ytamp::thumbnails::{preferred, sized, track_art, video_thumbnail, Thumbnail};

fn thumbnail(width: u64, height: u64, url: &str) -> Thumbnail {
    Thumbnail {
        width,
        height,
        url: url.to_string(),
    }
}

#[test]
fn the_smallest_thumbnail_at_or_above_300_wins() {
    let thumbnails = vec![
        thumbnail(60, 60, "tiny"),
        thumbnail(320, 320, "just_over"),
        thumbnail(544, 544, "large"),
    ];
    assert_eq!(preferred(&thumbnails), Some("just_over".into()));
}

#[test]
fn the_largest_thumbnail_wins_when_none_reach_300() {
    let thumbnails = vec![thumbnail(60, 60, "tiny"), thumbnail(120, 120, "small")];
    assert_eq!(preferred(&thumbnails), Some("small".into()));
}

#[test]
fn an_empty_thumbnail_list_has_no_preferred_url() {
    assert_eq!(preferred(&[]), None);
}

#[test]
fn a_video_thumbnail_url_uses_the_video_id() {
    assert_eq!(
        video_thumbnail("abc123"),
        "https://i.ytimg.com/vi/abc123/hqdefault.jpg"
    );
}

#[test]
fn track_art_falls_back_to_the_video_thumbnail() {
    assert_eq!(
        track_art(&[], "abc123"),
        Some("https://i.ytimg.com/vi/abc123/hqdefault.jpg".into())
    );
}

#[test]
fn track_art_prefers_a_listed_thumbnail_over_the_fallback() {
    let thumbnails = vec![thumbnail(544, 544, "listed")];
    assert_eq!(track_art(&thumbnails, "abc123"), Some("listed".into()));
}

#[test]
fn a_google_user_content_w_h_suffix_is_replaced() {
    let url = "https://lh3.googleusercontent.com/abc=w544-h544-p-l90-rj";
    assert_eq!(
        sized(url, 72),
        "https://lh3.googleusercontent.com/abc=w72-h72-l90-rj"
    );
}

#[test]
fn a_google_user_content_s_suffix_is_replaced() {
    let url = "https://yt3.googleusercontent.com/abc=s1200";
    assert_eq!(
        sized(url, 168),
        "https://yt3.googleusercontent.com/abc=w168-h168-l90-rj"
    );
}

#[test]
fn a_ytimg_url_gets_the_still_matching_the_pixel_size() {
    let url = "https://i.ytimg.com/vi/abc123/hqdefault.jpg";
    assert_eq!(
        sized(url, 72),
        "https://i.ytimg.com/vi/abc123/mqdefault.jpg"
    );
    assert_eq!(
        sized(url, 400),
        "https://i.ytimg.com/vi/abc123/hqdefault.jpg"
    );
    assert_eq!(
        sized(url, 600),
        "https://i.ytimg.com/vi/abc123/hqdefault.jpg"
    );
}

#[test]
fn an_unrecognized_host_url_is_unchanged() {
    assert_eq!(
        sized("https://example.com/x.jpg", 72),
        "https://example.com/x.jpg"
    );
}

#[test]
fn equal_widths_pick_the_first_wide_one_and_the_last_narrow_one() {
    let wide = vec![thumbnail(400, 400, "w1"), thumbnail(400, 400, "w2")];
    assert_eq!(preferred(&wide), Some("w1".into()));
    let narrow = vec![thumbnail(100, 100, "n1"), thumbnail(100, 100, "n2")];
    assert_eq!(preferred(&narrow), Some("n2".into()));
}

#[test]
fn a_googleusercontent_url_without_a_size_suffix_is_unchanged() {
    let url = "https://lh3.googleusercontent.com/plain";
    assert_eq!(sized(url, 72), url);
    assert_eq!(
        sized("https://lh3.googleusercontent.com/a=w1=s2", 0),
        "https://lh3.googleusercontent.com/a=w0-h0-l90-rj"
    );
}
