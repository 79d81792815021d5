//! Gapless playback: the slot that holds the next track's pre-built
//! session. A preload starts a build elsewhere; the build reports back,
//! and the session waits in the slot until the current track ends.
use vstd::prelude::*;

verus! {

/// What the slot holds.
pub enum PreloadState<S> {
    /// Nothing is being built and nothing is ready.
    Idle,
    /// A session for the next track is being built.
    Building,
    /// A session for the next track is ready to be swapped in.
    Ready(S),
    /// The build was cancelled; its session, if any, was dropped.
    Cancelled,
}

/// The slot of the next track's session.
pub struct GaplessPreloader<S> {
    state: PreloadState<S>,
}

impl<S> GaplessPreloader<S> {
    /// What the slot holds.
    pub closed spec fn slot(&self) -> PreloadState<S> {
        self.state
    }

    /// An empty slot.
    pub fn new() -> (p: Self)
        ensures
            p.slot() == PreloadState::<S>::Idle,
    {
        GaplessPreloader { state: PreloadState::Idle }
    }

    /// A build of the next track's session was started (any earlier build
    /// is cancelled by the caller).
    pub fn preload(&mut self)
        ensures
            final(self).slot() == PreloadState::<S>::Building,
    {
        self.state = PreloadState::Building;
    }

    /// A build saw its cancellation before it began.
    pub fn build_skipped(&mut self)
        ensures
            final(self).slot() == PreloadState::<S>::Cancelled,
    {
        self.state = PreloadState::Cancelled;
    }

    /// A build ended: with the session it built (`None` when building
    /// failed or could not be started), and whether it had been cancelled
    /// meanwhile. A cancelled build's session is dropped.
    pub fn build_finished(&mut self, cancelled: bool, built: Option<S>)
        ensures
            final(self).slot() == (match built {
                Some(s) => if cancelled {
                    PreloadState::<S>::Cancelled
                } else {
                    PreloadState::Ready(s)
                },
                None => PreloadState::<S>::Idle,
            }),
    {
        self.state = match built {
            Some(s) => if cancelled {
                PreloadState::Cancelled
            } else {
                PreloadState::Ready(s)
            },
            None => PreloadState::Idle,
        };
    }

    /// Whether a session is ready.
    pub fn is_ready(&self) -> (r: bool)
        ensures
            r == (self.slot() is Ready),
    {
        match self.state {
            PreloadState::Ready(_) => true,
            _ => false,
        }
    }

    /// Take the ready session, leaving the slot empty; when none is ready
    /// the slot is left as it was.
    pub fn take_ready(&mut self) -> (r: Option<S>)
        ensures
            old(self).slot() matches PreloadState::Ready(s) ==> r == Some(s) && final(self).slot()
                == PreloadState::<S>::Idle,
            !(old(self).slot() is Ready) ==> r is None && final(self).slot() == old(self).slot(),
    {
        let mut st = PreloadState::Idle;
        std::mem::swap(&mut st, &mut self.state);
        match st {
            PreloadState::Ready(s) => Some(s),
            other => {
                self.state = other;
                None
            },
        }
    }

    /// Cancel the preload: the slot is emptied.
    pub fn cancel(&mut self)
        ensures
            final(self).slot() == PreloadState::<S>::Idle,
    {
        self.state = PreloadState::Idle;
    }
}

} // verus!
