//! The pure parts of the stream sources: which listed stream to take,
//! what a yt-dlp run produced, and the visitor token of a home page.
use vstd::prelude::*;
use crate::text::{
    decimal, push_decimal, chars_of, find_char, find_char_index, find_seq, first_occurrence, segments, split_on, trim,
    trim_str, str_views,
};

verus! {

/// Stream `i` is the one to take: decodable, and no decodable stream
/// has a higher bitrate; among equal bitrates the last one listed wins
/// (as `Iterator::max_by_key` picks it).
pub open spec fn is_best_decodable(streams: Seq<(bool, u32)>, i: int) -> bool {
    &&& 0 <= i < streams.len()
    &&& streams[i].0
    &&& forall|j: int|
        0 <= j < streams.len() && #[trigger] streams[j].0 ==> streams[j].1 < streams[i].1 || (
        streams[j].1 == streams[i].1 && j <= i)
}

/// One stream at most is the one to take.
pub proof fn law_best_decodable_is_unique(streams: Seq<(bool, u32)>, i: int, j: int)
    requires
        is_best_decodable(streams, i),
        is_best_decodable(streams, j),
    ensures
        i == j,
{
}

/// The index of the highest-bitrate entry marked decodable.
pub fn best_decodable_index(streams: &[(bool, u32)]) -> (r: Option<usize>)
    ensures
        match r {
            Some(i) => is_best_decodable(streams@, i as int),
            None => forall|j: int| 0 <= j < streams@.len() ==> !(#[trigger] streams@[j]).0,
        },
{
    let mut best: Option<usize> = None;
    let mut i: usize = 0;
    while i < streams.len()
        invariant
            i <= streams@.len(),
            match best {
                Some(b) => {
                    &&& b < i
                    &&& streams@[b as int].0
                    &&& forall|j: int|
                        0 <= j < i && #[trigger] streams@[j].0 ==> streams@[j].1 < streams@[b as int].1
                            || (streams@[j].1 == streams@[b as int].1 && j <= b)
                },
                None => forall|j: int| 0 <= j < i ==> !(#[trigger] streams@[j]).0,
            },
        decreases streams@.len() - i,
    {
        let (decodable, bitrate) = streams[i];
        if decodable {
            match best {
                None => {
                    best = Some(i);
                },
                Some(b) => {
                    if bitrate >= streams[b].1 {
                        best = Some(i);
                    }
                },
            }
        }
        i = i + 1;
    }
    best
}

/// The text std makes of bytes, with each invalid UTF-8 sequence
/// replaced by U+FFFD.
pub uninterp spec fn utf8_lossy(bytes: Seq<u8>) -> Seq<char>;

/// Decodes `bytes` with `String::from_utf8_lossy`. std documents that
/// the result is the bytes' text, with each invalid sequence replaced
/// by U+FFFD; the contract names that result, and states the one case
/// the callers need spelled out: bytes below 0x80 are their own
/// characters.
#[verifier::external_body]
fn lossy_text(bytes: &[u8]) -> (r: String)
    ensures
        r@ == utf8_lossy(bytes@),
        (forall|i: int| 0 <= i < bytes@.len() ==> #[trigger] bytes@[i] < 0x80) ==> r@ == bytes@.map_values(
            |b: u8| b as char,
        ),
{
    String::from_utf8_lossy(bytes).into_owned()
}

/// The first of `lines` that is not blank, trimmed.
pub open spec fn first_nonblank(lines: Seq<Seq<char>>) -> Option<Seq<char>>
    decreases lines.len(),
{
    if lines.len() == 0 {
        None
    } else if trim(lines[0]).len() > 0 {
        Some(trim(lines[0]))
    } else {
        first_nonblank(lines.drop_first())
    }
}

/// The first line of `text` that is not blank, trimmed.
pub open spec fn first_line_of(text: Seq<char>) -> Option<Seq<char>> {
    first_nonblank(segments(text, '\n'))
}

/// The first line of `text` that is not blank, trimmed. (A line's
/// trailing carriage return is whitespace, so trimming removes it.)
pub fn first_nonblank_line(text: &str) -> (r: Option<String>)
    ensures
        match r {
            Some(l) => first_line_of(text@) == Some(l@),
            None => first_line_of(text@) is None,
        },
{
    let lines = split_on(text, '\n');
    let ghost all = str_views(lines@);
    assert(all.skip(0) =~= all);
    let mut i: usize = 0;
    while i < lines.len()
        invariant
            i <= lines@.len(),
            all == str_views(lines@),
            all == segments(text@, '\n'),
            first_nonblank(all) == first_nonblank(all.skip(i as int)),
        decreases lines@.len() - i,
    {
        let line = trim_str(lines[i]);
        proof {
            assert(all.skip(i as int)[0] == lines@[i as int]@);
            assert(all.skip(i as int).drop_first() =~= all.skip(i + 1));
        }
        if !line.is_empty() {
            return Some(line.to_owned());
        }
        i = i + 1;
    }
    None
}

/// The first line of `bytes`, read as text, that is not blank.
pub fn first_line(bytes: &[u8]) -> (r: Option<String>)
    ensures
        match r {
            Some(l) => first_line_of(utf8_lossy(bytes@)) == Some(l@),
            None => first_line_of(utf8_lossy(bytes@)) is None,
        },
{
    let text = lossy_text(bytes);
    first_nonblank_line(text.as_str())
}

/// The message of a failed yt-dlp run that wrote nothing to stderr.
pub const YTDLP_FAILED: &'static str = "yt-dlp failed";

/// The message of a yt-dlp run that succeeded with no bytes.
pub const YTDLP_NO_AUDIO: &'static str = "yt-dlp produced no audio";

/// What a yt-dlp run means, given its decoded stderr text.
pub open spec fn output_outcome(succeeded: bool, stdout: Seq<u8>, stderr_text: Seq<char>) -> Result<
    Seq<u8>,
    Seq<char>,
> {
    if !succeeded {
        Err(
            match first_line_of(stderr_text) {
                Some(l) => l,
                None => YTDLP_FAILED@,
            },
        )
    } else if stdout.len() == 0 {
        Err(YTDLP_NO_AUDIO@)
    } else {
        Ok(stdout)
    }
}

/// The audio of a yt-dlp run: its stdout, or the reason it has none.
pub fn audio_from_output(succeeded: bool, stdout: Vec<u8>, stderr: &[u8]) -> (r: Result<
    Vec<u8>,
    String,
>)
    ensures
        match r {
            Ok(a) => output_outcome(succeeded, stdout@, utf8_lossy(stderr@)) == Ok::<
                Seq<u8>,
                Seq<char>,
            >(a@),
            Err(e) => output_outcome(succeeded, stdout@, utf8_lossy(stderr@)) == Err::<
                Seq<u8>,
                Seq<char>,
            >(e@),
        },
{
    if !succeeded {
        return Err(
            match first_line(stderr) {
                Some(line) => line,
                None => YTDLP_FAILED.to_owned(),
            },
        );
    }
    if stdout.len() == 0 {
        return Err(YTDLP_NO_AUDIO.to_owned());
    }
    Ok(stdout)
}

/// itag 140 is AAC 128kbps in M4A, the format the player decodes.
pub const FORMAT_SELECTION: &'static str = "140/bestaudio[ext=m4a]";

/// The yt-dlp source: a subprocess fallback that writes the audio to
/// stdout. A URL from `--get-url` binds to yt-dlp's own session and
/// answers 403 to another program's fetch, so handing over bytes is
/// the only reliable contract.
pub struct YtDlpSource {
    pub binary: String,
}

impl YtDlpSource {
    /// The source that runs the `yt-dlp` on the search path.
    pub fn new() -> (r: Self)
        ensures
            r.binary@ == "yt-dlp"@,
    {
        YtDlpSource { binary: "yt-dlp".to_owned() }
    }

    /// The command line that writes `video_id`'s audio to stdout.
    pub fn arguments(&self, video_id: &str) -> (r: Vec<String>)
        ensures
            str_string_views(r@) == seq![
                "--quiet"@,
                "--no-warnings"@,
                "--format"@,
                FORMAT_SELECTION@,
                "--output"@,
                "-"@,
                "https://music.youtube.com/watch?v="@ + video_id@,
            ],
    {
        let mut url = "https://music.youtube.com/watch?v=".to_owned();
        url.append(video_id);
        let r = vec![
            "--quiet".to_owned(),
            "--no-warnings".to_owned(),
            "--format".to_owned(),
            FORMAT_SELECTION.to_owned(),
            "--output".to_owned(),
            "-".to_owned(),
            url,
        ];
        assert(str_string_views(r@) =~= seq![
            "--quiet"@,
            "--no-warnings"@,
            "--format"@,
            FORMAT_SELECTION@,
            "--output"@,
            "-"@,
            "https://music.youtube.com/watch?v="@ + video_id@,
        ]);
        r
    }
}

/// The views of a sequence of strings.
pub open spec fn str_string_views(s: Seq<String>) -> Seq<Seq<char>> {
    s.map_values(|p: String| p@)
}

/// The field that holds the visitor token in a YouTube page.
pub const VISITOR_MARKER: &'static str = "\"VISITOR_DATA\":\"";

/// The `VISITOR_DATA` value of a page body: what follows the first
/// `"VISITOR_DATA":"`, up to the next `"`, when that is not empty.
pub open spec fn visitor_data_spec(html: Seq<char>) -> Option<Seq<char>> {
    match first_occurrence(html, VISITOR_MARKER@) {
        None => None,
        Some(at) => {
            let rest = html.skip(at + VISITOR_MARKER@.len());
            match find_char(rest, '"') {
                None => None,
                Some(end) => if end > 0 {
                    Some(rest.take(end))
                } else {
                    None
                },
            }
        },
    }
}

/// Pulls the `VISITOR_DATA` value out of a YouTube page body. The
/// value sits in a `"VISITOR_DATA":"..."` field, URL-safe base64
/// with `%3D` padding, and is returned exactly as it appears, since
/// yt-dlp expects it verbatim.
pub fn parse_visitor_data(html: &str) -> (r: Option<String>)
    ensures
        match r {
            Some(v) => visitor_data_spec(html@) == Some(v@),
            None => visitor_data_spec(html@) is None,
        },
{
    let chars = chars_of(html);
    let marker = chars_of(VISITOR_MARKER);
    let at = match find_seq(&chars, &marker) {
        Some(at) => at,
        None => {
            return None;
        },
    };
    let n = chars.len();
    let m = marker.len();
    proof {
        crate::text::lemma_first_occurrence_occurs(html@, VISITOR_MARKER@);
        assert(at + m <= n);
    }
    let start = at + m;
    let rest = html.substring_char(start, n);
    let rest_chars = chars_of(rest);
    proof {
        assert(rest@ =~= html@.skip(start as int));
    }
    match find_char_index(&rest_chars, '"') {
        None => None,
        Some(end) => {
            if end == 0 {
                return None;
            }
            proof {
                crate::cookie_paste::lemma_find_char_contains(rest@, '"');
            }
            let value = rest.substring_char(0, end);
            proof {
                assert(value@ =~= rest@.take(end as int));
            }
            Some(value.to_owned())
        },
    }
}

/// A direct stream URL with what its download needs.
pub struct ResolvedStream {
    pub url: String,
    /// The user agent of the client that produced the URL. googlevideo
    /// rejects a download whose user agent does not match.
    pub user_agent: Option<String>,
    /// The audio size in bytes, when the resolver knows it.
    pub size: Option<u64>,
}

/// A download that failed.
pub struct DownloadError {
    pub message: String,
    /// HTTP 403: the server rejected this URL outright, so the caller
    /// retries with a different client instead of the same URL.
    pub forbidden: bool,
}

/// The bytes one ranged request asks googlevideo for.
pub const DOWNLOAD_CHUNK: u64 = 9_000_000;

/// The last byte of the chunk that starts at `offset` of `size` bytes.
pub open spec fn chunk_end(offset: u64, size: u64) -> int {
    if offset + DOWNLOAD_CHUNK - 1 < size - 1 {
        offset + DOWNLOAD_CHUNK - 1
    } else {
        size - 1
    }
}

/// The request for the chunk of `url`'s stream that starts at
/// `offset`: the URL with its `range` parameter, and the chunk's last
/// byte. googlevideo throttles or rejects plain full-file GETs, so the
/// stream comes in chunks of about 9 MB.
pub fn chunk_request(url: &str, offset: u64, size: u64) -> (r: (String, u64))
    requires
        offset < size,
        offset + DOWNLOAD_CHUNK <= u64::MAX,
    ensures
        r.1 == chunk_end(offset, size),
        r.0@ == url@ + "&range="@ + decimal(offset as nat) + "-"@ + decimal(r.1 as nat),
{
    let last = offset + DOWNLOAD_CHUNK - 1;
    let end = if last < size - 1 {
        last
    } else {
        size - 1
    };
    let mut request = url.to_owned();
    request.append("&range=");
    push_decimal(&mut request, offset);
    request.append("-");
    push_decimal(&mut request, end);
    (request, end)
}

} // verus!
