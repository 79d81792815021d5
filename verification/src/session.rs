//! What the player does once "next" or "previous" has moved through the
//! queue: play the track reached, restart the current one, or — at the end
//! of the queue — pause or stop.
use vstd::prelude::*;
use crate::playback::{bumped, PlaybackService, PlaybackView};

verus! {

/// What remains for the caller to do after a transport request.
#[derive(Debug, Clone, Copy, PartialEq, Eq, Structural)]
pub enum TransportAction {
    /// Load and play this track.
    Play(i64),
    /// Seek the current track back to its start.
    Restart,
    /// Playback was stopped (the queue is empty).
    Stopped,
    /// Playback was paused at the end of the queue.
    Paused,
    /// Nothing changed.
    Nothing,
}

impl PlaybackService {
    /// After "next" moved to `reached` (as `navigate_next` returned it):
    /// play that track; with none reached, stop when the queue is empty and
    /// otherwise (the end of the queue with repeat off) pause if playing, so
    /// that the user can resume or go back.
    pub fn finish_next(&mut self, reached: Option<i64>) -> (a: TransportAction)
        requires
            old(self)@.version < u64::MAX,
        ensures
            reached matches Some(id) ==> a == TransportAction::Play(id) && final(self)@ == old(
                self,
            )@,
            reached is None && old(self)@.play_queue.len() == 0 ==> a == TransportAction::Stopped
                && final(self)@ == bumped(PlaybackView { is_playing: false, ..old(self)@ }),
            reached is None && old(self)@.play_queue.len() > 0 && old(self)@.is_playing ==> a
                == TransportAction::Paused && final(self)@ == bumped(
                PlaybackView { is_playing: false, ..old(self)@ },
            ),
            reached is None && old(self)@.play_queue.len() > 0 && !old(self)@.is_playing ==> a
                == TransportAction::Nothing && final(self)@ == old(self)@,
    {
        match reached {
            Some(id) => TransportAction::Play(id),
            None => {
                if self.state().play_queue.len() == 0 {
                    self.stop_playback();
                    TransportAction::Stopped
                } else if self.state().is_playing {
                    self.toggle_playback();
                    TransportAction::Paused
                } else {
                    TransportAction::Nothing
                }
            },
        }
    }

    /// After "previous" moved to `reached` (as `navigate_prev` returned it):
    /// the current track is restarted, with the seek and the restart of the
    /// play-time accounting recorded; another track is played; with none
    /// reached nothing happens.
    pub fn finish_prev(&mut self, reached: Option<i64>) -> (a: TransportAction)
        requires
            old(self)@.version < u64::MAX - 1,
        ensures
            reached is None ==> a == TransportAction::Nothing && final(self)@ == old(self)@,
            reached matches Some(id) ==> if old(self)@.current_track_id == Some(id) {
                a == TransportAction::Restart && final(self)@ == bumped(bumped(old(self)@))
            } else {
                a == TransportAction::Play(id) && final(self)@ == old(self)@
            },
    {
        match reached {
            Some(id) => {
                if self.state().current_track_id == Some(id) {
                    self.seek();
                    self.reset_play_started_at();
                    TransportAction::Restart
                } else {
                    TransportAction::Play(id)
                }
            },
            None => TransportAction::Nothing,
        }
    }
}

} // verus!
