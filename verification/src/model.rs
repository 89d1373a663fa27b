//! Domain types shared by the state, the queue, and the stream layer.
//!
//! Every type carries a view made of plain mathematical values, and
//! every clone is proved to keep that view.
use vstd::prelude::*;
use crate::text::{join, join_strs, str_views};

verus! {

/// A length of time: whole seconds plus the nanoseconds below one second.
#[derive(Clone, Copy, Debug, PartialEq, Eq, Structural)]
pub struct Span {
    pub secs: u64,
    pub nanos: u32,
}

impl Span {
    /// A span is well formed when its nanoseconds stay below one second.
    pub open spec fn wf(self) -> bool {
        self.nanos < 1_000_000_000
    }

    /// The span as a count of nanoseconds.
    pub open spec fn total_nanos(self) -> int {
        self.secs * 1_000_000_000 + self.nanos
    }
}

/// The view of an optional string.
pub open spec fn opt_str(o: Option<String>) -> Option<Seq<char>> {
    match o {
        Some(s) => Some(s@),
        None => None,
    }
}

/// Clones an optional string, keeping its view.
pub fn clone_opt_str(o: &Option<String>) -> (r: Option<String>)
    ensures
        opt_str(r) == opt_str(*o),
{
    match o {
        Some(s) => Some(s.clone()),
        None => None,
    }
}

/// A YouTube video id, the identity of a playable song.
#[derive(Debug, PartialEq, Eq, Hash)]
pub struct TrackId(pub String);

#[derive(Debug, PartialEq, Eq, Hash)]
pub struct PlaylistId(pub String);

#[derive(Debug, PartialEq, Eq, Hash)]
pub struct AlbumId(pub String);

#[derive(Debug, PartialEq, Eq, Hash)]
pub struct ArtistId(pub String);

impl View for TrackId {
    type V = Seq<char>;

    open spec fn view(&self) -> Seq<char> {
        self.0@
    }
}

impl View for PlaylistId {
    type V = Seq<char>;

    open spec fn view(&self) -> Seq<char> {
        self.0@
    }
}

impl View for AlbumId {
    type V = Seq<char>;

    open spec fn view(&self) -> Seq<char> {
        self.0@
    }
}

impl View for ArtistId {
    type V = Seq<char>;

    open spec fn view(&self) -> Seq<char> {
        self.0@
    }
}

impl Clone for TrackId {
    fn clone(&self) -> (r: Self)
        ensures
            r@ == self@,
    {
        TrackId(self.0.clone())
    }
}

impl Clone for PlaylistId {
    fn clone(&self) -> (r: Self)
        ensures
            r@ == self@,
    {
        PlaylistId(self.0.clone())
    }
}

impl Clone for AlbumId {
    fn clone(&self) -> (r: Self)
        ensures
            r@ == self@,
    {
        AlbumId(self.0.clone())
    }
}

impl Clone for ArtistId {
    fn clone(&self) -> (r: Self)
        ensures
            r@ == self@,
    {
        ArtistId(self.0.clone())
    }
}

impl TrackId {
    /// Whether two ids name the same track.
    pub fn same(&self, other: &TrackId) -> (r: bool)
        ensures
            r == (self@ == other@),
    {
        self.0 == other.0
    }
}

impl PlaylistId {
    /// Whether two ids name the same playlist.
    pub fn same(&self, other: &PlaylistId) -> (r: bool)
        ensures
            r == (self@ == other@),
    {
        self.0 == other.0
    }
}

/// The view of an optional id.
pub open spec fn opt_id<T: View<V = Seq<char>>>(o: Option<T>) -> Option<Seq<char>> {
    match o {
        Some(s) => Some(s@),
        None => None,
    }
}

/// One artist credit on a track: a display name, and the artist's
/// channel id when the source carries one. A click on a name with an
/// id opens that artist page; a click on a bare name searches for it.
#[derive(Debug, PartialEq)]
pub struct ArtistRef {
    pub name: String,
    pub id: Option<ArtistId>,
}

pub struct ArtistRefView {
    pub name: Seq<char>,
    pub id: Option<Seq<char>>,
}

impl View for ArtistRef {
    type V = ArtistRefView;

    open spec fn view(&self) -> ArtistRefView {
        ArtistRefView { name: self.name@, id: opt_id(self.id) }
    }
}

impl Clone for ArtistRef {
    fn clone(&self) -> (r: Self)
        ensures
            r@ == self@,
    {
        let id = match &self.id {
            Some(id) => Some(id.clone()),
            None => None,
        };
        ArtistRef { name: self.name.clone(), id }
    }
}

impl ArtistRef {
    /// An artist credit with a name only, for a source that carries
    /// no channel id.
    pub fn named(name: String) -> (r: Self)
        ensures
            r.name@ == name@,
            r.id.is_none(),
    {
        ArtistRef { name, id: None }
    }
}

/// Where a track's audio comes from.
#[derive(Debug, PartialEq)]
pub enum MediaSource {
    /// Streamed from YouTube by its video id.
    YouTube,
    /// A file the user imported from disk.
    LocalFile { path: String },
}

pub enum MediaSourceView {
    YouTube,
    LocalFile { path: Seq<char> },
}

impl View for MediaSource {
    type V = MediaSourceView;

    open spec fn view(&self) -> MediaSourceView {
        match self {
            MediaSource::YouTube => MediaSourceView::YouTube,
            MediaSource::LocalFile { path } => MediaSourceView::LocalFile { path: path@ },
        }
    }
}

impl Clone for MediaSource {
    fn clone(&self) -> (r: Self)
        ensures
            r@ == self@,
    {
        match self {
            MediaSource::YouTube => MediaSource::YouTube,
            MediaSource::LocalFile { path } => MediaSource::LocalFile { path: path.clone() },
        }
    }
}

impl Default for MediaSource {
    fn default() -> (r: Self)
        ensures
            r@ == MediaSourceView::YouTube,
    {
        MediaSource::YouTube
    }
}

/// A playable song, streamed or imported.
#[derive(Debug, PartialEq)]
pub struct Track {
    pub source: MediaSource,
    pub id: TrackId,
    pub title: String,
    pub artists: Vec<ArtistRef>,
    pub album: Option<String>,
    /// Absent in sessions saved before the field existed.
    pub album_id: Option<AlbumId>,
    pub duration: Option<Span>,
    pub thumbnail_url: Option<String>,
    /// The row's id inside the playlist it was loaded from, when any.
    pub playlist_item_id: Option<String>,
}

pub struct TrackView {
    pub source: MediaSourceView,
    pub id: Seq<char>,
    pub title: Seq<char>,
    pub artists: Seq<ArtistRefView>,
    pub album: Option<Seq<char>>,
    pub album_id: Option<Seq<char>>,
    pub duration: Option<Span>,
    pub thumbnail_url: Option<Seq<char>>,
    pub playlist_item_id: Option<Seq<char>>,
}

impl TrackView {
    /// The track was imported from a local file.
    pub open spec fn is_local(self) -> bool {
        self.source is LocalFile
    }
}

/// The views of a sequence of artist credits.
pub open spec fn artist_views(s: Seq<ArtistRef>) -> Seq<ArtistRefView> {
    s.map_values(|a: ArtistRef| a@)
}

impl View for Track {
    type V = TrackView;

    open spec fn view(&self) -> TrackView {
        TrackView {
            source: self.source@,
            id: self.id@,
            title: self.title@,
            artists: artist_views(self.artists@),
            album: opt_str(self.album),
            album_id: opt_id(self.album_id),
            duration: self.duration,
            thumbnail_url: opt_str(self.thumbnail_url),
            playlist_item_id: opt_str(self.playlist_item_id),
        }
    }
}

/// Clones a list of artist credits, keeping every view.
pub fn clone_artists(artists: &Vec<ArtistRef>) -> (r: Vec<ArtistRef>)
    ensures
        artist_views(r@) == artist_views(artists@),
{
    let mut out: Vec<ArtistRef> = Vec::new();
    let mut i: usize = 0;
    while i < artists.len()
        invariant
            i <= artists.len(),
            out@.len() == i,
            forall|k: int| 0 <= k < i ==> #[trigger] out@[k]@ == artists@[k]@,
        decreases artists.len() - i,
    {
        out.push(artists[i].clone());
        i = i + 1;
    }
    assert(artist_views(out@) =~= artist_views(artists@));
    out
}

impl Clone for Track {
    fn clone(&self) -> (r: Self)
        ensures
            r@ == self@,
    {
        let album_id = match &self.album_id {
            Some(id) => Some(id.clone()),
            None => None,
        };
        Track {
            source: self.source.clone(),
            id: self.id.clone(),
            title: self.title.clone(),
            artists: clone_artists(&self.artists),
            album: clone_opt_str(&self.album),
            album_id,
            duration: self.duration,
            thumbnail_url: clone_opt_str(&self.thumbnail_url),
            playlist_item_id: clone_opt_str(&self.playlist_item_id),
        }
    }
}

/// The views of a sequence of tracks.
pub open spec fn track_views(s: Seq<Track>) -> Seq<TrackView> {
    s.map_values(|t: Track| t@)
}

/// The views of a concatenation are the concatenated views.
pub proof fn lemma_track_views_add(a: Seq<Track>, b: Seq<Track>)
    ensures
        track_views(a + b) =~= track_views(a) + track_views(b),
{
    assert forall|i: int| 0 <= i < (a + b).len() implies #[trigger] track_views(a + b)[i] == (
    track_views(a) + track_views(b))[i] by {
        if i < a.len() {
            assert((a + b)[i] == a[i]);
        } else {
            assert((a + b)[i] == b[i - a.len()]);
        }
    }
}

/// The views of a sequence with one more track.
pub proof fn lemma_track_views_push(a: Seq<Track>, t: Track)
    ensures
        track_views(a.push(t)) =~= track_views(a).push(t@),
{
    assert forall|i: int| 0 <= i < a.len() + 1 implies #[trigger] track_views(a.push(t))[i] == track_views(
    a).push(t@)[i] by {
        if i < a.len() {
            assert(a.push(t)[i] == a[i]);
        }
    }
}

/// The names of a sequence of artist credits.
pub open spec fn artist_names_of(s: Seq<ArtistRefView>) -> Seq<Seq<char>> {
    s.map_values(|a: ArtistRefView| a.name)
}

impl Track {
    /// The track's artist names, joined for a caption-line display.
    pub fn artist_names(&self) -> (r: String)
        ensures
            r@ == join(artist_names_of(self@.artists), ", "@),
    {
        let mut names: Vec<&str> = Vec::new();
        let mut i: usize = 0;
        while i < self.artists.len()
            invariant
                i <= self.artists@.len(),
                names@.len() == i,
                forall|k: int| 0 <= k < i ==> #[trigger] names@[k]@ == self.artists@[k].name@,
            decreases self.artists@.len() - i,
        {
            names.push(self.artists[i].name.as_str());
            i = i + 1;
        }
        assert(str_views(names@) =~= artist_names_of(self@.artists));
        join_strs(&names, ", ")
    }

    /// Whether the track was imported from a local file.
    pub fn is_local(&self) -> (r: bool)
        ensures
            r == self@.is_local(),
    {
        match &self.source {
            MediaSource::LocalFile { .. } => true,
            MediaSource::YouTube => false,
        }
    }
}

#[derive(Debug, PartialEq)]
pub struct Playlist {
    pub id: PlaylistId,
    pub title: String,
    pub track_count: Option<usize>,
    pub thumbnail_url: Option<String>,
}

pub struct PlaylistView {
    pub id: Seq<char>,
    pub title: Seq<char>,
    pub track_count: Option<usize>,
    pub thumbnail_url: Option<Seq<char>>,
}

impl View for Playlist {
    type V = PlaylistView;

    open spec fn view(&self) -> PlaylistView {
        PlaylistView {
            id: self.id@,
            title: self.title@,
            track_count: self.track_count,
            thumbnail_url: opt_str(self.thumbnail_url),
        }
    }
}

impl Clone for Playlist {
    fn clone(&self) -> (r: Self)
        ensures
            r@ == self@,
    {
        Playlist {
            id: self.id.clone(),
            title: self.title.clone(),
            track_count: self.track_count,
            thumbnail_url: clone_opt_str(&self.thumbnail_url),
        }
    }
}

/// The views of a sequence of playlists.
pub open spec fn playlist_views(s: Seq<Playlist>) -> Seq<PlaylistView> {
    s.map_values(|p: Playlist| p@)
}

/// Clones a list of tracks, keeping every view.
pub fn clone_tracks(tracks: &Vec<Track>) -> (r: Vec<Track>)
    ensures
        track_views(r@) == track_views(tracks@),
{
    let mut out: Vec<Track> = Vec::new();
    let mut i: usize = 0;
    while i < tracks.len()
        invariant
            i <= tracks@.len(),
            out@.len() == i,
            forall|k: int| 0 <= k < i ==> #[trigger] out@[k]@ == tracks@[k]@,
        decreases tracks@.len() - i,
    {
        out.push(tracks[i].clone());
        i = i + 1;
    }
    assert(track_views(out@) =~= track_views(tracks@));
    out
}

/// Clones a list of playlists, keeping every view.
pub fn clone_playlists(playlists: &Vec<Playlist>) -> (r: Vec<Playlist>)
    ensures
        playlist_views(r@) == playlist_views(playlists@),
{
    let mut out: Vec<Playlist> = Vec::new();
    let mut i: usize = 0;
    while i < playlists.len()
        invariant
            i <= playlists@.len(),
            out@.len() == i,
            forall|k: int| 0 <= k < i ==> #[trigger] out@[k]@ == playlists@[k]@,
        decreases playlists@.len() - i,
    {
        out.push(playlists[i].clone());
        i = i + 1;
    }
    assert(playlist_views(out@) =~= playlist_views(playlists@));
    out
}

#[derive(Clone, Debug, PartialEq)]
pub struct Album {
    pub id: AlbumId,
    pub title: String,
    pub artists: Vec<String>,
    pub year: Option<String>,
    pub thumbnail_url: Option<String>,
}

#[derive(Clone, Debug, PartialEq)]
pub struct Artist {
    pub id: ArtistId,
    pub name: String,
    pub thumbnail_url: Option<String>,
}

/// One page of search results across every result type.
#[derive(Clone, Debug, PartialEq)]
pub struct SearchResults {
    pub songs: Vec<Track>,
    pub albums: Vec<Album>,
    pub artists: Vec<Artist>,
    pub playlists: Vec<Playlist>,
}

/// An artist's browse page: top songs, then albums and singles.
#[derive(Clone, Debug, PartialEq)]
pub struct ArtistPage {
    pub id: ArtistId,
    pub name: String,
    pub thumbnail_url: Option<String>,
    pub top_songs: Vec<Track>,
    pub albums: Vec<Album>,
    pub singles: Vec<Album>,
}

/// An album's browse page: the album and its track list.
#[derive(Clone, Debug, PartialEq)]
pub struct AlbumPage {
    pub album: Album,
    pub tracks: Vec<Track>,
}

} // verus!
