//! The application state's parts that carry no audio settings: what
//! arrives over the network, where the user is, and what they enter.
use vstd::prelude::*;
use crate::discovery::{Entry, Shelf};
use crate::model::{AlbumId, AlbumPage, ArtistId, ArtistPage, Playlist, PlaylistId, SearchResults, Track};

verus! {

/// A value that arrives over the network.
#[derive(Clone, Debug, PartialEq)]
pub enum Loadable<T> {
    NotAsked,
    Loading,
    /// A cached value shows while the network refresh still runs. The
    /// UI renders this like `Loaded`, with no spinner.
    Refreshing(T),
    Loaded(T),
    Failed(String),
}

impl<T> Loadable<T> {
    /// The value on screen, cached or fresh.
    pub open spec fn shown(self) -> Option<T> {
        match self {
            Loadable::Refreshing(v) => Some(v),
            Loadable::Loaded(v) => Some(v),
            _ => None,
        }
    }

    /// The value on screen, cached or fresh, if any.
    pub fn loaded(&self) -> (r: Option<&T>)
        ensures
            match r {
                Some(v) => self.shown() == Some(*v),
                None => self.shown() is None,
            },
    {
        match self {
            Loadable::Loaded(value) => Some(value),
            Loadable::Refreshing(value) => Some(value),
            _ => None,
        }
    }
}

impl<T> Default for Loadable<T> {
    fn default() -> (r: Self)
        ensures
            r is NotAsked,
    {
        Loadable::NotAsked
    }
}

/// Where signing in stands.
#[derive(Clone, Debug, PartialEq)]
pub enum AuthState {
    SignedOut,
    Verifying,
    SignedIn,
    Failed(String),
    ConnectionFailed,
    Expired,
}

impl Default for AuthState {
    fn default() -> (r: Self)
        ensures
            r is SignedOut,
    {
        AuthState::SignedOut
    }
}

/// The page on screen.
#[derive(Clone, Debug, PartialEq)]
pub enum Page {
    SignIn,
    Search,
    Home,
    NowPlaying,
    DiscoveryShelf(Box<Shelf>),
    Discovery(Box<Entry>),
    Library,
    ListeningHistory,
    Playlist(PlaylistId),
    Artist(ArtistId),
    Album(AlbumId),
}

impl Default for Page {
    fn default() -> (r: Self)
        ensures
            r is SignIn,
    {
        Page::SignIn
    }
}

/// A modal dialog on top of the page. Only one shows at a time.
#[derive(Clone, Debug, PartialEq)]
pub enum Dialog {
    /// The "New playlist" window. `then_add` is the track that opened
    /// it from a row's context menu, remembered so the playlist that
    /// comes back from the create request also receives that track.
    CreatePlaylist { title_draft: String, then_add: Option<Track> },
}

/// What the user is entering on the sign-in page.
#[derive(Clone, Debug, Default)]
pub struct SignInState {
    pub saved_account: bool,
    /// The user's own Google Cloud OAuth client (TV type).
    pub client_id_draft: String,
    pub client_secret_draft: String,
    /// The verification URL of a running device flow, once known.
    pub oauth_url: Option<String>,
}

#[derive(Clone, Debug)]
pub struct SearchState {
    pub request_id: u64,
    pub input: String,
    pub results: Loadable<SearchResults>,
}

#[derive(Clone, Debug)]
pub struct LibraryState {
    pub playlists: Loadable<Vec<Playlist>>,
    pub liked: Loadable<Vec<Track>>,
    /// True while more pages of the liked list are still arriving,
    /// so the UI can show a spinner row under the visible tracks.
    pub liked_loading_more: bool,
    /// Pages that have arrived while `liked` still shows cached data,
    /// held here until the stream finishes and they swap in together.
    pub incoming_liked: Vec<Track>,
    /// The tracks of the playlist page the user has open.
    pub open_playlist: Loadable<Vec<Track>>,
    /// True while more pages of the open playlist are still arriving.
    pub open_playlist_loading_more: bool,
    /// Pages that have arrived while `open_playlist` still shows
    /// cached data, held here until the stream finishes.
    pub incoming_playlist: Vec<Track>,
}

/// The artist and album pages the user has opened, each loaded on its
/// own so a visit to one never disturbs the other's cached page.
#[derive(Clone, Debug)]
pub struct BrowseState {
    pub artist: Loadable<ArtistPage>,
    pub album: Loadable<AlbumPage>,
    /// The name behind the artist link the user clicked. A channel id
    /// from the library is not always an artist, so a failed page
    /// falls back to a search for this name.
    pub artist_fallback: Option<String>,
}

#[derive(Clone, Copy, Debug, PartialEq, Eq, Structural)]
pub enum PlayStatus {
    Stopped,
    Loading,
    Playing,
    Paused,
}

impl Default for PlayStatus {
    fn default() -> (r: Self)
        ensures
            r == PlayStatus::Stopped,
    {
        PlayStatus::Stopped
    }
}

/// The Winamp skin window's settings: whether it is open, and how it
/// is shown. Saved in the session.
#[derive(Clone, Debug, PartialEq)]
pub struct WinampSettings {
    pub open: bool,
    /// Screen pixels per skin pixel, from 1 to 4.
    pub scale: u8,
    pub on_top: bool,
    /// The skin file name in the skins folder, or `None` for the
    /// built-in skin.
    pub skin: Option<String>,
    /// The skins folder's contents, as last listed. Not saved: a
    /// fresh listing runs whenever the window opens.
    pub available_skins: Vec<String>,
}

impl Default for WinampSettings {
    fn default() -> (r: Self)
        ensures
            !r.open,
            r.scale == 2,
            !r.on_top,
            r.skin is None,
            r.available_skins@.len() == 0,
    {
        WinampSettings {
            open: false,
            scale: 2,
            on_top: false,
            skin: None,
            available_skins: Vec::new(),
        }
    }
}

} // verus!
