//! Pure rules for thumbnail choice and sizing.
//!
//! A source hands back a list of thumbnail sizes, or none at all. This
//! module picks one URL from that list, builds a fallback URL from a
//! video id, and rewrites a chosen URL to the pixel size a widget asks
//! for.
use vstd::prelude::*;
use crate::text::{
    chars_of, contains_seq, contains_str, decimal, last_occurrence, push_decimal, rfind_seq,
};

verus! {

/// One size of a thumbnail, as the catalogue lists it.
#[derive(Debug, PartialEq, Eq)]
pub struct Thumbnail {
    pub width: u64,
    pub height: u64,
    pub url: String,
}

/// Some thumbnail of the list is at least 300 pixels wide.
pub open spec fn has_wide(ts: Seq<Thumbnail>) -> bool {
    exists|j: int| 0 <= j < ts.len() && #[trigger] ts[j].width >= 300
}

/// Thumbnail `i` is the one to draw: the narrowest at width 300 or
/// more, or, when none reaches 300, the widest; among equal widths the
/// one listed first wins in the first case and the one listed last in
/// the second (the order a stable sort by width leaves them in).
pub open spec fn is_preferred(ts: Seq<Thumbnail>, i: int) -> bool {
    &&& 0 <= i < ts.len()
    &&& if has_wide(ts) {
        &&& ts[i].width >= 300
        &&& forall|j: int|
            0 <= j < ts.len() && #[trigger] ts[j].width >= 300 ==> ts[i].width < ts[j].width || (
            ts[i].width == ts[j].width && i <= j)
    } else {
        forall|j: int|
            0 <= j < ts.len() ==> #[trigger] ts[j].width < ts[i].width || (ts[j].width
                == ts[i].width && j <= i)
    }
}

/// The preferred thumbnail's URL. A search result or a playlist row
/// draws small, so a huge banner wastes bandwidth; a row still wants
/// enough pixels to look sharp at a bigger size later.
pub fn preferred(thumbnails: &[Thumbnail]) -> (r: Option<String>)
    ensures
        match r {
            None => thumbnails@.len() == 0,
            Some(u) => exists|i: int| is_preferred(thumbnails@, i) && u@ == thumbnails@[i].url@,
        },
{
    let n = thumbnails.len();
    if n == 0 {
        return None;
    }
    let mut wide: Option<usize> = None;
    let mut widest: usize = 0;
    let mut i: usize = 0;
    while i < n
        invariant
            i <= n,
            n == thumbnails@.len(),
            n > 0,
            widest < n,
            i > 0 ==> widest < i,
            i > 0 ==> forall|j: int|
                0 <= j < i ==> #[trigger] thumbnails@[j].width < thumbnails@[widest as int].width || (
                thumbnails@[j].width == thumbnails@[widest as int].width && j <= widest),
            match wide {
                Some(k) => {
                    &&& k < i
                    &&& thumbnails@[k as int].width >= 300
                    &&& forall|j: int|
                        0 <= j < i && #[trigger] thumbnails@[j].width >= 300
                            ==> thumbnails@[k as int].width < thumbnails@[j].width || (
                        thumbnails@[k as int].width == thumbnails@[j].width && k <= j)
                },
                None => forall|j: int| 0 <= j < i ==> #[trigger] thumbnails@[j].width < 300,
            },
        decreases n - i,
    {
        let w = thumbnails[i].width;
        if i == 0 || w >= thumbnails[widest].width {
            widest = i;
        }
        if w >= 300 {
            match wide {
                None => {
                    wide = Some(i);
                },
                Some(k) => {
                    if w < thumbnails[k].width {
                        wide = Some(i);
                    }
                },
            }
        }
        i = i + 1;
    }
    match wide {
        Some(k) => {
            proof {
                assert(thumbnails@[k as int].width >= 300);
                assert(has_wide(thumbnails@));
                assert(is_preferred(thumbnails@, k as int));
            }
            Some(thumbnails[k].url.clone())
        },
        None => {
            proof {
                assert(!has_wide(thumbnails@));
                assert(is_preferred(thumbnails@, widest as int));
            }
            Some(thumbnails[widest].url.clone())
        },
    }
}

/// The default thumbnail URL of a video.
pub open spec fn video_thumbnail_spec(video_id: Seq<char>) -> Seq<char> {
    "https://i.ytimg.com/vi/"@ + video_id + "/hqdefault.jpg"@
}

/// The default YouTube video thumbnail for `video_id`. Every video id
/// has one, so this is the fallback when a source carries no
/// thumbnail list of its own.
pub fn video_thumbnail(video_id: &str) -> (r: String)
    ensures
        r@ == video_thumbnail_spec(video_id@),
{
    let mut url = "https://i.ytimg.com/vi/".to_owned();
    url.append(video_id);
    url.append("/hqdefault.jpg");
    url
}

/// A track's art: the preferred thumbnail when the source lists one,
/// else the video thumbnail built from `video_id`. Keeps the
/// thumbnail-or-fallback rule in one place for every track conversion.
pub fn track_art(thumbnails: &[Thumbnail], video_id: &str) -> (r: Option<String>)
    ensures
        match r {
            None => false,
            Some(u) => if thumbnails@.len() == 0 {
                u@ == video_thumbnail_spec(video_id@)
            } else {
                exists|i: int| is_preferred(thumbnails@, i) && u@ == thumbnails@[i].url@
            },
        },
{
    match preferred(thumbnails) {
        Some(url) => Some(url),
        None => Some(video_thumbnail(video_id)),
    }
}

/// A googleusercontent URL's last `=w` (or, lacking one, `=s`) size
/// suffix, replaced with a fresh `=w{px}-h{px}-l90-rj` suffix.
pub open spec fn resized_googleusercontent_spec(url: Seq<char>, px: u32) -> Seq<char> {
    let cut = match last_occurrence(url, "=w"@) {
        Some(c) => Some(c),
        None => last_occurrence(url, "=s"@),
    };
    match cut {
        None => url,
        Some(c) => url.take(c) + "=w"@ + decimal(px as nat) + "-h"@ + decimal(px as nat)
            + "-l90-rj"@,
    }
}

/// The still of an `i.ytimg.com/vi/<id>/<name>.jpg` URL that best
/// matches `px`: `mqdefault` up to 320px, else `hqdefault`.
pub open spec fn resized_ytimg_spec(url: Seq<char>, px: u32) -> Seq<char> {
    match last_occurrence(url, seq!['/']) {
        None => url,
        Some(c) => url.take(c) + "/"@ + if px <= 320 {
            "mqdefault.jpg"@
        } else {
            "hqdefault.jpg"@
        },
    }
}

/// `url` resized to about `px` pixels on a side, for the two thumbnail
/// hosts the app draws; any other URL unchanged.
pub open spec fn sized_spec(url: Seq<char>, px: u32) -> Seq<char> {
    if contains_seq(url, "googleusercontent.com"@) {
        resized_googleusercontent_spec(url, px)
    } else if contains_seq(url, "i.ytimg.com/vi/"@) {
        resized_ytimg_spec(url, px)
    } else {
        url
    }
}

/// `url` resized to about `px` pixels on a side, for the two thumbnail
/// hosts the app draws. Any other URL comes back unchanged.
pub fn sized(url: &str, px: u32) -> (r: String)
    ensures
        r@ == sized_spec(url@, px),
{
    if contains_str(url, "googleusercontent.com") {
        return resized_googleusercontent(url, px);
    }
    if contains_str(url, "i.ytimg.com/vi/") {
        return resized_ytimg(url, px);
    }
    url.to_owned()
}

/// A googleusercontent URL with its size suffix replaced. A URL with
/// no such suffix comes back unchanged.
pub fn resized_googleusercontent(url: &str, px: u32) -> (r: String)
    ensures
        r@ == resized_googleusercontent_spec(url@, px),
{
    let chars = chars_of(url);
    let w = chars_of("=w");
    let s = chars_of("=s");
    let cut = match rfind_seq(&chars, &w) {
        Some(c) => Some(c),
        None => rfind_seq(&chars, &s),
    };
    match cut {
        None => url.to_owned(),
        Some(c) => {
            proof {
                lemma_last_occurrence_bounds(url@, "=w"@);
                lemma_last_occurrence_bounds(url@, "=s"@);
            }
            let mut out = url.substring_char(0, c).to_owned();
            out.append("=w");
            push_decimal(&mut out, px as u64);
            out.append("-h");
            push_decimal(&mut out, px as u64);
            out.append("-l90-rj");
            proof {
                assert(url@.subrange(0, c as int) =~= url@.take(c as int));
            }
            out
        },
    }
}

/// An `i.ytimg.com/vi/<id>/<name>.jpg` URL, resized by naming the
/// still that best matches `px`. Larger stills do not exist for every
/// video, and a missing image leaves a blank square.
pub fn resized_ytimg(url: &str, px: u32) -> (r: String)
    ensures
        r@ == resized_ytimg_spec(url@, px),
{
    let chars = chars_of(url);
    let slash = vec!['/'];
    assert(slash@ =~= seq!['/']);
    match rfind_seq(&chars, &slash) {
        None => url.to_owned(),
        Some(c) => {
            proof {
                lemma_last_occurrence_bounds(url@, seq!['/']);
            }
            let mut out = url.substring_char(0, c).to_owned();
            out.append("/");
            if px <= 320 {
                out.append("mqdefault.jpg");
            } else {
                out.append("hqdefault.jpg");
            }
            proof {
                assert(url@.subrange(0, c as int) =~= url@.take(c as int));
            }
            out
        },
    }
}

/// Where `last_occurrence` finds a pattern, the pattern fits in the text.
pub proof fn lemma_last_occurrence_bounds(s: Seq<char>, pat: Seq<char>)
    ensures
        match last_occurrence(s, pat) {
            Some(c) => 0 <= c && c + pat.len() <= s.len(),
            None => true,
        },
{
}

/// One thumbnail at most is the one to draw, so `preferred` names a
/// single URL for every list.
pub proof fn law_preferred_is_unique(ts: Seq<Thumbnail>, i: int, j: int)
    requires
        is_preferred(ts, i),
        is_preferred(ts, j),
    ensures
        i == j,
{
    let (wi, wj) = (ts[i].width, ts[j].width);
    if has_wide(ts) {
        assert(wi >= 300 && wj >= 300);
        assert(wi < wj || (wi == wj && i <= j));
        assert(wj < wi || (wj == wi && j <= i));
    } else {
        assert(wj < wi || (wj == wi && j <= i));
        assert(wi < wj || (wi == wj && i <= j));
    }
}

} // verus!
