//! Playback bookkeeping of the video player: its position, duration and pause state,
//! clock times, and its errors.
use vstd::prelude::*;

verus! {

/// Errors that can occur during video playback.
#[derive(Debug)]
pub enum VideoPlayerError {
    MpvError(String),
    InitializationError(String),
    InvalidFilePath,
    CommandError(String),
}

/// The text an error is displayed as.
pub open spec fn error_text(e: VideoPlayerError) -> Seq<char> {
    match e {
        VideoPlayerError::MpvError(m) => "mpv error: "@ + m@,
        VideoPlayerError::InitializationError(m) => "Initialization error: "@ + m@,
        VideoPlayerError::InvalidFilePath => "Invalid file path"@,
        VideoPlayerError::CommandError(m) => "Command error: "@ + m@,
    }
}

impl VideoPlayerError {
    /// The text the error is displayed as.
    pub fn message(&self) -> (r: String)
        ensures
            r@ == error_text(*self),
    {
        match self {
            VideoPlayerError::MpvError(m) => {
                let mut s = String::from_str("mpv error: ");
                s.append(m.as_str());
                s
            },
            VideoPlayerError::InitializationError(m) => {
                let mut s = String::from_str("Initialization error: ");
                s.append(m.as_str());
                s
            },
            VideoPlayerError::InvalidFilePath => String::from_str("Invalid file path"),
            VideoPlayerError::CommandError(m) => {
                let mut s = String::from_str("Command error: ");
                s.append(m.as_str());
                s
            },
        }
    }
}

/// The value the player's subtitle track (`sid`) is set to when subtitles are shown or
/// hidden: the chosen track when shown (an error without one), `None` ("no") when hidden.
pub fn subtitle_track_setting(enabled: bool, track_index: Option<i32>) -> (r: Result<
    Option<i64>,
    VideoPlayerError,
>)
    ensures
        enabled && track_index is Some ==> r == Ok::<Option<i64>, VideoPlayerError>(
            Some(track_index->0 as i64),
        ),
        enabled && track_index is None ==> (r matches Err(VideoPlayerError::CommandError(m)) && m@
            == "No track index provided"@),
        !enabled ==> r == Ok::<Option<i64>, VideoPlayerError>(None),
{
    if enabled {
        match track_index {
            Some(index) => Ok(Some(index as i64)),
            None => Err(VideoPlayerError::CommandError(String::from_str("No track index provided"))),
        }
    } else {
        Ok(None)
    }
}

/// The player's record of where playback stands.
pub struct PlaybackState {
    position_ns: u64,
    duration_ns: u64,
    paused: bool,
}

impl PlaybackState {
    /// The position, in nanoseconds.
    pub closed spec fn position(&self) -> u64 {
        self.position_ns
    }

    /// The duration, in nanoseconds.
    pub closed spec fn duration(&self) -> u64 {
        self.duration_ns
    }

    /// Whether playback is paused.
    pub closed spec fn is_paused_spec(&self) -> bool {
        self.paused
    }

    /// A record at position 0, of duration 0, paused.
    pub fn new() -> (r: Self)
        ensures
            r.position() == 0,
            r.duration() == 0,
            r.is_paused_spec(),
    {
        Self { position_ns: 0, duration_ns: 0, paused: true }
    }

    pub fn set_position(&mut self, ns: u64)
        ensures
            final(self).position() == ns,
            final(self).duration() == old(self).duration(),
            final(self).is_paused_spec() == old(self).is_paused_spec(),
    {
        self.position_ns = ns;
    }

    pub fn get_position(&self) -> (r: u64)
        ensures
            r == self.position(),
    {
        self.position_ns
    }

    pub fn set_duration(&mut self, ns: u64)
        ensures
            final(self).duration() == ns,
            final(self).position() == old(self).position(),
            final(self).is_paused_spec() == old(self).is_paused_spec(),
    {
        self.duration_ns = ns;
    }

    pub fn get_duration(&self) -> (r: u64)
        ensures
            r == self.duration(),
    {
        self.duration_ns
    }

    pub fn set_paused(&mut self, paused: bool)
        ensures
            final(self).is_paused_spec() == paused,
            final(self).position() == old(self).position(),
            final(self).duration() == old(self).duration(),
    {
        self.paused = paused;
    }

    pub fn is_paused(&self) -> (r: bool)
        ensures
            r == self.is_paused_spec(),
    {
        self.paused
    }
}

/// A point in time on the playback clock, in nanoseconds.
#[derive(Debug, Clone, Copy)]
pub struct ClockTime(pub u64);

impl ClockTime {
    /// Create from nanoseconds.
    pub fn from_nseconds(ns: u64) -> (r: Self)
        ensures
            r.0 == ns,
    {
        ClockTime(ns)
    }

    /// Get nanoseconds value.
    pub fn nseconds(&self) -> (r: u64)
        ensures
            r == self.0,
    {
        self.0
    }
}

} // verus!
