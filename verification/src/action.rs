//! What the player engine reports back.
use vstd::prelude::*;
use crate::model::Span;

verus! {

/// One report of the player engine.
#[derive(Clone, Debug, PartialEq)]
pub enum PlayerEvent {
    /// The stream resolved and decoding started. Carries the real
    /// duration and the decoded stream's shape, for the Winamp
    /// window's mono/stereo lamps and kHz text.
    TrackStarted { duration: Option<Span>, channels: u16, sample_rate: u32 },
    PositionChanged(Span),
    TrackEnded,
    Failed(String),
}

/// A choice in the menu-bar item.
#[derive(Clone, Copy, Debug, PartialEq, Eq, Structural)]
pub enum MenuAction {
    PlayPause,
    Previous,
    Next,
    Visibility,
    Lyrics,
    Quit,
}

} // verus!
