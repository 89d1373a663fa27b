//! The answers that come back for API requests, and the answer a
//! request gets when it fails: each failure reaches the part of the
//! state that asked, tagged the way that part recognizes its own
//! requests.
use vstd::prelude::*;
use crate::discovery::{FeedPage, Target};
use crate::effect::ApiRequest;
use crate::listening_history::HistoryPage;
use crate::model::{AlbumId, AlbumPage, ArtistId, ArtistPage, Playlist, PlaylistId, SearchResults, Track, TrackId};
use crate::sign_in::{classify_spec, SignInFailure};

verus! {

/// Which library write finished.
#[derive(Debug, PartialEq)]
pub enum LibraryWrite {
    Liked,
    Playlist(PlaylistId),
}

/// The result of one API request, as the reducer receives it.
#[derive(Debug, PartialEq)]
pub enum ApiReply {
    AuthVerified(Result<(), SignInFailure>),
    SearchLoaded(u64, Result<SearchResults, String>),
    DiscoveryLoaded { request_id: u64, target: Target, result: Result<FeedPage, String> },
    HistoryLoaded { request_id: u64, result: Result<HistoryPage, String> },
    PlaylistsLoaded(Result<Vec<Playlist>, String>),
    LikedLoaded(Result<Vec<Track>, String>),
    PlaylistTracksLoaded(PlaylistId, Result<Vec<Track>, String>),
    ArtistLoaded(ArtistId, Result<ArtistPage, String>),
    AlbumLoaded(AlbumId, Result<AlbumPage, String>),
    RadioStarted {
        request_id: u64,
        playback_generation: u64,
        seed: Track,
        result: Result<Vec<Track>, String>,
    },
    RadioLoaded(TrackId, Result<Vec<Track>, String>),
    PlaylistCoversLoaded(Vec<(PlaylistId, String)>),
    LibraryWriteFinished { what: LibraryWrite, result: Result<(), String> },
    PlaylistItemAdded { playlist: PlaylistId, track: Track, result: Result<String, String> },
    PlaylistCreated(u64, Result<Playlist, String>),
}

/// `e` is the error `message`.
pub open spec fn is_error<T>(r: Result<T, String>, message: Seq<char>) -> bool {
    r matches Err(m) && m@ == message
}

/// `reply` is the failure answer to `request` with `message`: the reply
/// of the request's kind, carrying the request's own tags (request id,
/// target, ids, seed, playlist and track) and the message as its
/// error. A failed sign-in check gives the failure the message names;
/// a failed cover fetch gives no covers.
pub open spec fn failure_reply(request: ApiRequest, message: Seq<char>, reply: ApiReply) -> bool {
    match request {
        ApiRequest::VerifyAuth(_) => reply == ApiReply::AuthVerified(Err(classify_spec(message))),
        ApiRequest::StartOAuth { .. } => reply == ApiReply::AuthVerified(Err(classify_spec(message))),
        ApiRequest::Search { request_id, .. } => reply matches ApiReply::SearchLoaded(id, r) && id
            == request_id && is_error(r, message),
        ApiRequest::FetchDiscovery { request_id, target, .. } => reply matches ApiReply::DiscoveryLoaded {
            request_id: id,
            target: t,
            result: r,
        } && id == request_id && t == target && is_error(r, message),
        ApiRequest::FetchHistory { request_id, .. } => reply matches ApiReply::HistoryLoaded {
            request_id: id,
            result: r,
        } && id == request_id && is_error(r, message),
        ApiRequest::FetchPlaylists => reply matches ApiReply::PlaylistsLoaded(r) && is_error(r, message),
        ApiRequest::FetchLiked => reply matches ApiReply::LikedLoaded(r) && is_error(r, message),
        ApiRequest::FetchPlaylistTracks(id) => reply matches ApiReply::PlaylistTracksLoaded(i, r) && i
            == id && is_error(r, message),
        ApiRequest::FetchArtist(id) => reply matches ApiReply::ArtistLoaded(i, r) && i == id
            && is_error(r, message),
        ApiRequest::FetchAlbum(id) => reply matches ApiReply::AlbumLoaded(i, r) && i == id && is_error(
            r,
            message,
        ),
        ApiRequest::FetchRadio(id) => reply matches ApiReply::RadioLoaded(i, r) && i == id && is_error(
            r,
            message,
        ),
        ApiRequest::StartRadio { request_id, playback_generation, seed } => reply matches ApiReply::RadioStarted {
            request_id: i,
            playback_generation: g,
            seed: s,
            result: r,
        } && i == request_id && g == playback_generation && s == seed && is_error(r, message),
        ApiRequest::FetchPlaylistCovers(_) => reply matches ApiReply::PlaylistCoversLoaded(covers)
            && covers@.len() == 0,
        ApiRequest::RateTrack { .. } => reply matches ApiReply::LibraryWriteFinished { what, result }
            && what == LibraryWrite::Liked && is_error(result, message),
        ApiRequest::AddToPlaylist { playlist, track } => reply matches ApiReply::PlaylistItemAdded {
            playlist: p,
            track: t,
            result: r,
        } && p == playlist && t == track && is_error(r, message),
        ApiRequest::RemoveFromPlaylist { playlist, .. } => reply matches ApiReply::LibraryWriteFinished {
            what,
            result,
        } && what == LibraryWrite::Playlist(playlist) && is_error(result, message),
        ApiRequest::CreatePlaylist(request_id, _) => reply matches ApiReply::PlaylistCreated(i, r) && i
            == request_id && is_error(r, message),
    }
}

/// The answer a request gets when it fails with `message`.
pub fn request_failure(request: ApiRequest, message: String) -> (r: ApiReply)
    ensures
        failure_reply(request, message@, r),
{
    match request {
        ApiRequest::VerifyAuth(_) | ApiRequest::StartOAuth { .. } => {
            ApiReply::AuthVerified(Err(SignInFailure::classify(message.as_str())))
        },
        ApiRequest::Search { request_id, .. } => ApiReply::SearchLoaded(request_id, Err(message)),
        ApiRequest::FetchDiscovery { request_id, target, .. } => ApiReply::DiscoveryLoaded {
            request_id,
            target,
            result: Err(message),
        },
        ApiRequest::FetchHistory { request_id, .. } => ApiReply::HistoryLoaded {
            request_id,
            result: Err(message),
        },
        ApiRequest::FetchPlaylists => ApiReply::PlaylistsLoaded(Err(message)),
        ApiRequest::FetchLiked => ApiReply::LikedLoaded(Err(message)),
        ApiRequest::FetchPlaylistTracks(id) => ApiReply::PlaylistTracksLoaded(id, Err(message)),
        ApiRequest::FetchArtist(id) => ApiReply::ArtistLoaded(id, Err(message)),
        ApiRequest::FetchAlbum(id) => ApiReply::AlbumLoaded(id, Err(message)),
        ApiRequest::StartRadio { request_id, playback_generation, seed } => ApiReply::RadioStarted {
            request_id,
            playback_generation,
            seed,
            result: Err(message),
        },
        ApiRequest::FetchRadio(id) => ApiReply::RadioLoaded(id, Err(message)),
        ApiRequest::FetchPlaylistCovers(_) => ApiReply::PlaylistCoversLoaded(Vec::new()),
        ApiRequest::RateTrack { .. } => ApiReply::LibraryWriteFinished {
            what: LibraryWrite::Liked,
            result: Err(message),
        },
        ApiRequest::AddToPlaylist { playlist, track } => ApiReply::PlaylistItemAdded {
            playlist,
            track,
            result: Err(message),
        },
        ApiRequest::RemoveFromPlaylist { playlist, .. } => ApiReply::LibraryWriteFinished {
            what: LibraryWrite::Playlist(playlist),
            result: Err(message),
        },
        ApiRequest::CreatePlaylist(request_id, _) => ApiReply::PlaylistCreated(
            request_id,
            Err(message),
        ),
    }
}

} // verus!
