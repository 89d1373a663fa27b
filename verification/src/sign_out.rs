//! What signing out does to playback: only local tracks outlive the
//! account, and a track from YouTube stops at once.
use vstd::prelude::*;
use crate::model::{track_views, Track, TrackView};
use crate::queue::{opt_track, Queue};
use crate::queue_view::{local_keep, QueueView};

verus! {

/// What the player does after a sign-out.
#[derive(Debug, PartialEq)]
pub enum PlayerStep {
    /// A YouTube track was playing: stop it.
    Stop,
    /// A local track plays on: prepare the one after it.
    PrepareNext(Option<Track>),
    /// Nothing plays.
    Nothing,
}

/// The playback side of a sign-out.
#[derive(Debug, PartialEq)]
pub struct SignOutPlan {
    /// The current track came from YouTube.
    pub had_remote_current: bool,
    /// The app stays in local mode: an import runs, or a local track
    /// is current or upcoming.
    pub local_mode: bool,
    pub player: PlayerStep,
}

/// Some track of `tracks` is a local file.
pub open spec fn any_local(tracks: Seq<TrackView>) -> bool {
    exists|i: int| 0 <= i < tracks.len() && #[trigger] tracks[i].is_local()
}

/// The current track of `q` is a local file.
pub open spec fn local_current(q: QueueView) -> bool {
    q.current_track() matches Some(t) && t.is_local()
}

/// Whether one of `tracks` is a local file.
fn has_local(tracks: &Vec<Track>) -> (r: bool)
    ensures
        r == any_local(track_views(tracks@)),
{
    let mut i: usize = 0;
    while i < tracks.len()
        invariant
            i <= tracks@.len(),
            forall|k: int| 0 <= k < i ==> !(#[trigger] tracks@[k]@).is_local(),
        decreases tracks@.len() - i,
    {
        if tracks[i].is_local() {
            assert(track_views(tracks@)[i as int].is_local());
            return true;
        }
        i = i + 1;
    }
    proof {
        assert forall|k: int| 0 <= k < track_views(tracks@).len() implies !(#[trigger] track_views(tracks@)[k]).is_local() by {
            assert(track_views(tracks@)[k] == tracks@[k]@);
        }
    }
    false
}

/// Drops every track from YouTube from the queue, and says what the
/// player and the app's mode do next: a YouTube track that was
/// current stops; a local one plays on, with the next one prepared.
pub fn sign_out_queue(queue: &mut Queue, pending_import: bool) -> (r: SignOutPlan)
    requires
        old(queue)@.wf(),
    ensures
        final(queue)@ == old(queue)@.retain(local_keep(None)),
        final(queue)@.wf(),
        r.had_remote_current == (old(queue)@.current_track() matches Some(t) && !t.is_local()),
        r.local_mode == (pending_import || local_current(final(queue)@) || any_local(
            final(queue)@.upcoming(),
        )),
        r.had_remote_current ==> r.player == PlayerStep::Stop,
        !r.had_remote_current && local_current(final(queue)@) ==> (r.player matches PlayerStep::PrepareNext(n)
            && opt_track(n) == final(queue)@.peek_next()),
        !r.had_remote_current && !local_current(final(queue)@) ==> r.player == PlayerStep::Nothing,
{
    let had_remote_current = match queue.current() {
        Some(track) => !track.is_local(),
        None => false,
    };
    queue.retain_local();
    let local_now = match queue.current() {
        Some(track) => track.is_local(),
        None => false,
    };
    let upcoming = queue.upcoming();
    let local_mode = pending_import || local_now || has_local(&upcoming);
    let player = if had_remote_current {
        PlayerStep::Stop
    } else if local_now {
        PlayerStep::PrepareNext(queue.peek_next())
    } else {
        PlayerStep::Nothing
    };
    SignOutPlan { had_remote_current, local_mode, player }
}

} // verus!
