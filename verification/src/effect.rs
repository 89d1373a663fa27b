//! What the app asks of the outside world, as data: requests to the
//! YouTube API and writes to the library cache.
use vstd::prelude::*;
use crate::discovery::{FeedPage, Target};
use crate::model::{AlbumId, ArtistId, Playlist, PlaylistId, Span, Track, TrackId};

verus! {

/// One way to authenticate the YouTube Music session.
#[derive(Clone, Debug, PartialEq)]
pub enum AuthMethod {
    /// A serialized OAuth token, from the device flow. It embeds the
    /// client id and secret, so it refreshes itself.
    OAuthToken(String),
}

/// One fresh network result to persist to the library cache.
#[derive(Debug, PartialEq)]
pub enum LibraryCacheWrite {
    Discovery(FeedPage),
    Playlists(Vec<Playlist>),
    Liked(Vec<Track>),
    PlaylistTracks(PlaylistId, Vec<Track>),
}

/// One request to the YouTube API.
#[derive(Debug, PartialEq)]
pub enum ApiRequest {
    VerifyAuth(AuthMethod),
    /// Runs the whole OAuth device flow: gets a device code, reports
    /// the verification URL back, and polls until the user finishes.
    StartOAuth { client_id: String, client_secret: String },
    Search { request_id: u64, query: String },
    FetchDiscovery { request_id: u64, target: Target, continuation: Option<String> },
    FetchHistory { request_id: u64, continuation: Option<String> },
    FetchPlaylists,
    FetchLiked,
    FetchPlaylistTracks(PlaylistId),
    FetchArtist(ArtistId),
    FetchAlbum(AlbumId),
    /// A radio of songs related to a track, for autoplay at the
    /// queue end.
    FetchRadio(TrackId),
    StartRadio { request_id: u64, playback_generation: u64, seed: Track },
    /// The custom cover art of every playlist in the list, for a
    /// playlist whose thumbnail is not one already.
    FetchPlaylistCovers(Vec<PlaylistId>),
    /// Likes or unlikes a track on the server.
    RateTrack { id: TrackId, liked: bool },
    /// Adds a track to a playlist on the server.
    AddToPlaylist { playlist: PlaylistId, track: Track },
    /// Removes one row from a playlist on the server, by its item id.
    RemoveFromPlaylist { playlist: PlaylistId, item_id: String },
    /// Creates a private playlist with the given title.
    CreatePlaylist(u64, String),
}

/// A command to the player engine. The volume, balance and equalizer
/// settings are floating point; the shell sends those to the engine
/// itself.
#[derive(Debug, PartialEq)]
pub enum PlayerCommand {
    Load(Track),
    Prefetch(Track),
    PrepareNext(Option<Track>),
    Pause,
    Resume,
    Seek(Span),
    Stop,
}

/// Something the reducer asks the outside world to do.
#[derive(Debug, PartialEq)]
pub enum Effect {
    Api(ApiRequest),
    Player(PlayerCommand),
    FetchLyrics(Option<(u64, TrackId)>),
    LoadStoredAuth,
    ClearCredentials,
    LoadLibraryCache,
    LoadPlaylistTracksCache(PlaylistId),
    SaveLibraryCache(LibraryCacheWrite),
    ClearLibraryCache,
    LoadSkin(Option<String>),
    InstallSkin(String),
    RefreshSkinList,
}

} // verus!
