//! Play queue, shuffle and repeat navigation.
//!
//! `PlaybackService` owns the part of the playback state that decides what
//! plays next: the queue of track ids, the position in it, the shuffle order
//! and the repeat mode, plus a version counter that changes on every
//! mutation so that readers can tell when to copy the queue again. Timing and
//! volume (which the engine reports as floating-point values) are kept by the
//! caller.
use vstd::prelude::*;
use crate::shuffle::{is_permutation_of_range, shuffle_order_from_seed, shuffled_order};

verus! {

/// What happens at the end of the queue.
#[derive(Debug, Clone, Copy, PartialEq, Eq, Structural)]
pub enum RepeatMode {
    Off,
    All,
    One,
}

/// The repeat mode that the repeat button moves to from `mode`:
/// off, then all, then one, then off again.
pub fn next_repeat_mode(mode: RepeatMode) -> (next: RepeatMode)
    ensures
        mode == RepeatMode::Off ==> next == RepeatMode::All,
        mode == RepeatMode::All ==> next == RepeatMode::One,
        mode == RepeatMode::One ==> next == RepeatMode::Off,
{
    match mode {
        RepeatMode::Off => RepeatMode::All,
        RepeatMode::All => RepeatMode::One,
        RepeatMode::One => RepeatMode::Off,
    }
}

/// Scrobble threshold check result.
#[derive(Debug, Clone)]
pub enum ScrobbleCheck {
    Ready(i64),
    NotYet,
    Error(String),
}

/// What a play/pause toggle did.
#[derive(Debug, Clone, Copy, PartialEq, Eq, Structural)]
pub enum ToggleOutcome {
    /// Playback was running and is now paused.
    Paused,
    /// A current track was paused and is now playing again.
    Resumed,
    /// Nothing is loaded but the queue is not empty: the caller picks a track.
    QueuePending,
    /// Nothing is loaded and the queue is empty.
    Unchanged,
}

/// Queue-related playback state.
#[derive(Debug, Clone)]
pub struct PlaybackState {
    pub current_track_id: Option<i64>,
    pub is_playing: bool,
    pub is_favorited: bool,
    pub shuffle: bool,
    pub repeat: RepeatMode,
    pub play_queue: Vec<i64>,
    pub play_queue_index: Option<usize>,
    pub shuffle_order: Vec<usize>,
    pub shuffle_position: usize,
    /// Increments on every state mutation.
    pub version: u64,
    /// Whether the resampler has been disabled after creation or rebuild failures.
    pub resampler_disabled: bool,
    /// Whether the loaded impulse response needs a reload after a sample-rate change.
    pub convolution_ir_needs_reload: bool,
}

/// Mathematical model of `PlaybackState`.
#[verifier::ext_equal]
pub struct PlaybackView {
    pub current_track_id: Option<i64>,
    pub is_playing: bool,
    pub is_favorited: bool,
    pub shuffle: bool,
    pub repeat: RepeatMode,
    pub play_queue: Seq<i64>,
    pub play_queue_index: Option<usize>,
    pub shuffle_order: Seq<usize>,
    pub shuffle_position: usize,
    pub version: u64,
    pub resampler_disabled: bool,
    pub convolution_ir_needs_reload: bool,
}

impl View for PlaybackState {
    type V = PlaybackView;

    open spec fn view(&self) -> PlaybackView {
        PlaybackView {
            current_track_id: self.current_track_id,
            is_playing: self.is_playing,
            is_favorited: self.is_favorited,
            shuffle: self.shuffle,
            repeat: self.repeat,
            play_queue: self.play_queue@,
            play_queue_index: self.play_queue_index,
            shuffle_order: self.shuffle_order@,
            shuffle_position: self.shuffle_position,
            version: self.version,
            resampler_disabled: self.resampler_disabled,
            convolution_ir_needs_reload: self.convolution_ir_needs_reload,
        }
    }
}

/// The state a fresh service starts from.
pub open spec fn initial_view(shuffle: bool, repeat: RepeatMode) -> PlaybackView {
    PlaybackView {
        current_track_id: None,
        is_playing: false,
        is_favorited: false,
        shuffle: shuffle,
        repeat: repeat,
        play_queue: Seq::empty(),
        play_queue_index: None,
        shuffle_order: Seq::empty(),
        shuffle_position: 0,
        version: 0,
        resampler_disabled: false,
        convolution_ir_needs_reload: false,
    }
}

impl Default for PlaybackState {
    fn default() -> (s: Self)
        ensures
            s@ == initial_view(false, RepeatMode::Off),
    {
        PlaybackState {
            current_track_id: None,
            is_playing: false,
            is_favorited: false,
            shuffle: false,
            repeat: RepeatMode::Off,
            play_queue: Vec::new(),
            play_queue_index: None,
            shuffle_order: Vec::new(),
            shuffle_position: 0,
            version: 0,
            resampler_disabled: false,
            convolution_ir_needs_reload: false,
        }
    }
}

/// Queue entry at position `i`, if there is one.
pub open spec fn queue_entry(q: Seq<i64>, i: usize) -> Option<i64> {
    if (i as int) < q.len() {
        Some(q[i as int])
    } else {
        None
    }
}

/// `r` is the first position of `x` in `s`, or `None` when `x` does not occur.
pub open spec fn is_first_position<A>(s: Seq<A>, x: A, r: Option<usize>) -> bool {
    match r {
        Some(i) => (i as int) < s.len() && s[i as int] == x && forall|j: int|
            0 <= j < i ==> #[trigger] s[j] != x,
        None => forall|j: int| 0 <= j < s.len() ==> #[trigger] s[j] != x,
    }
}

/// Shuffle is on but the order is used up (or was never built).
pub open spec fn needs_reshuffle(m: PlaybackView) -> bool {
    m.shuffle && (m.shuffle_order.len() == 0 || m.shuffle_position >= m.shuffle_order.len())
}

/// Position that "next" moves to from `m` once the shuffle order is
/// available; `None` at the end of the queue with repeat off.
pub open spec fn next_target(m: PlaybackView) -> Option<usize> {
    match m.play_queue_index {
        Some(idx) => if m.shuffle {
            Some(
                if m.shuffle_position < m.shuffle_order.len() {
                    m.shuffle_order[m.shuffle_position as int]
                } else {
                    0
                },
            )
        } else if idx + 1 < m.play_queue.len() {
            Some((idx + 1) as usize)
        } else {
            match m.repeat {
                RepeatMode::All => Some(0),
                RepeatMode::One => Some(idx),
                RepeatMode::Off => None,
            }
        },
        None => Some(0),
    }
}

/// Position reported by `compute_next_index`.
pub open spec fn predicted_next_index(m: PlaybackView) -> Option<usize> {
    if m.play_queue.len() == 0 {
        None
    } else {
        match m.play_queue_index {
            Some(idx) => if m.shuffle {
                if m.shuffle_order.len() == 0 || m.shuffle_position >= m.shuffle_order.len() {
                    Some(0)
                } else {
                    Some(m.shuffle_order[m.shuffle_position as int])
                }
            } else if idx + 1 < m.play_queue.len() {
                Some((idx + 1) as usize)
            } else {
                match m.repeat {
                    RepeatMode::All => Some(0),
                    RepeatMode::One => Some(idx),
                    RepeatMode::Off => None,
                }
            },
            None => Some(0),
        }
    }
}

/// Position that "previous" moves to from `m` (when not restarting the
/// current track); `None` when there is nowhere to go.
pub open spec fn prev_target(m: PlaybackView) -> Option<usize> {
    match m.play_queue_index {
        Some(idx) => if idx > 0 {
            Some((idx - 1) as usize)
        } else {
            match m.repeat {
                RepeatMode::All => Some((m.play_queue.len() - 1) as usize),
                _ => None,
            }
        },
        None => None,
    }
}

/// Position reported by `compute_prev_index`.
pub open spec fn predicted_prev_index(m: PlaybackView, past_restart_point: bool) -> Option<usize> {
    if m.play_queue.len() == 0 {
        None
    } else if past_restart_point {
        m.play_queue_index
    } else {
        prev_target(m)
    }
}

/// `m` with its version advanced by one.
pub open spec fn bumped(m: PlaybackView) -> PlaybackView {
    PlaybackView { version: (m.version + 1) as u64, ..m }
}

/// `m` after moving forward to `t`.
pub open spec fn advanced_to(m: PlaybackView, t: usize) -> PlaybackView {
    PlaybackView {
        play_queue_index: Some(t),
        shuffle_position: if m.shuffle {
            (m.shuffle_position + 1) as usize
        } else {
            m.shuffle_position
        },
        version: (m.version + 1) as u64,
        ..m
    }
}

/// `m` with a freshly built shuffle order `order`, read from the start.
pub open spec fn reshuffled(m: PlaybackView, order: Seq<usize>) -> PlaybackView {
    PlaybackView { shuffle_order: order, shuffle_position: 0, ..m }
}

/// `compute_next_index` predicts where `navigate_next` moves whenever no new
/// shuffle order has to be drawn first.
pub proof fn lemma_next_prediction_matches_navigation(m: PlaybackView)
    requires
        m.play_queue.len() > 0,
        !needs_reshuffle(m),
    ensures
        predicted_next_index(m) == next_target(m),
{
}

/// Without shuffle, "next" does what `compute_next_index` predicts: with a
/// predicted position `k` it moves there, returns the queue entry at `k`
/// and counts one change, leaving every other field as it was; with no
/// prediction (an empty queue, or the end of the queue with repeat off) it
/// returns nothing and changes nothing.
pub proof fn lemma_plain_next_follows_prediction(m: PlaybackView)
    requires
        !m.shuffle,
    ensures
        !needs_reshuffle(m),
        predicted_next_index(m) matches Some(k) ==> next_target(m) == Some(k) && advanced_to(m, k)
            == (PlaybackView { play_queue_index: Some(k), version: (m.version + 1) as u64, ..m }),
        predicted_next_index(m) is None ==> m.play_queue.len() == 0 || next_target(m) is None,
{
}

/// From queue position `i`, "previous" (not past the restart point) moves
/// to `i - 1` whatever the repeat mode, and "next" without shuffle moves to
/// `i + 1`, each returning the queue entry there. At the first position,
/// "previous" wraps to the last one with repeat all and goes nowhere
/// otherwise; at the last position, "next" without shuffle wraps to the
/// first with repeat all, stays with repeat one and goes nowhere with
/// repeat off.
pub proof fn lemma_neighbouring_steps(m: PlaybackView, i: usize)
    requires
        m.play_queue_index == Some(i),
        (i as int) < m.play_queue.len(),
        m.play_queue.len() <= usize::MAX,
    ensures
        i > 0 ==> prev_target(m) == Some((i - 1) as usize) && queue_entry(
            m.play_queue,
            (i - 1) as usize,
        ) == Some(m.play_queue[i - 1]),
        i == 0 && m.repeat == RepeatMode::All ==> prev_target(m) == Some(
            (m.play_queue.len() - 1) as usize,
        ),
        i == 0 && m.repeat != RepeatMode::All ==> prev_target(m) is None,
        !m.shuffle && i + 1 < m.play_queue.len() ==> next_target(m) == Some((i + 1) as usize)
            && queue_entry(m.play_queue, (i + 1) as usize) == Some(m.play_queue[i + 1]),
        !m.shuffle && i + 1 == m.play_queue.len() ==> next_target(m) == (match m.repeat {
            RepeatMode::All => Some(0usize),
            RepeatMode::One => Some(i),
            RepeatMode::Off => None,
        }),
{
}

/// `compute_prev_index` predicts `navigate_prev`: when not restarting it
/// names the position moved to, and when restarting it names the position
/// that is kept.
pub proof fn lemma_prev_prediction_matches_navigation(m: PlaybackView)
    requires
        m.play_queue.len() > 0,
    ensures
        predicted_prev_index(m, false) == prev_target(m),
        predicted_prev_index(m, true) == m.play_queue_index,
{
}

/// From a position inside the queue, with a shuffle order that holds each
/// queue position once, "next" and "previous" never leave the queue.
pub proof fn lemma_navigation_stays_in_queue(m: PlaybackView)
    requires
        m.play_queue.len() > 0,
        m.play_queue_index matches Some(i) ==> (i as int) < m.play_queue.len(),
        m.shuffle ==> is_permutation_of_range(m.shuffle_order, m.play_queue.len()),
        !needs_reshuffle(m),
    ensures
        next_target(m) matches Some(t) ==> (t as int) < m.play_queue.len() && queue_entry(
            m.play_queue,
            t,
        ) is Some,
        prev_target(m) matches Some(t) ==> (t as int) < m.play_queue.len() && queue_entry(
            m.play_queue,
            t,
        ) is Some,
{
    if m.shuffle && m.play_queue_index is Some {
        let k = m.shuffle_position as int;
        assert(0 <= k < m.shuffle_order.len());
        assert((m.shuffle_order[k] as int) < m.play_queue.len());
    }
}

/// Seed for a new shuffle, taken from the wall clock (nanoseconds since the
/// Unix epoch, truncated to 64 bits).
#[verifier::external_body]
fn clock_seed() -> u64 {
    std::time::SystemTime::now().duration_since(std::time::UNIX_EPOCH).unwrap_or_default().as_nanos() as u64
}

fn position_of_track(q: &Vec<i64>, x: i64) -> (r: Option<usize>)
    ensures
        is_first_position(q@, x, r),
{
    let mut i: usize = 0;
    while i < q.len()
        invariant
            i <= q@.len(),
            forall|j: int| 0 <= j < i ==> #[trigger] q@[j] != x,
        decreases q.len() - i,
    {
        if q[i] == x {
            return Some(i);
        }
        i = i + 1;
    }
    None
}

fn position_of_index(q: &Vec<usize>, x: usize) -> (r: Option<usize>)
    ensures
        is_first_position(q@, x, r),
{
    let mut i: usize = 0;
    while i < q.len()
        invariant
            i <= q@.len(),
            forall|j: int| 0 <= j < i ==> #[trigger] q@[j] != x,
        decreases q.len() - i,
    {
        if q[i] == x {
            return Some(i);
        }
        i = i + 1;
    }
    None
}

/// The playback service: queue navigation, shuffle and repeat.
pub struct PlaybackService {
    state: PlaybackState,
}

impl View for PlaybackService {
    type V = PlaybackView;

    closed spec fn view(&self) -> PlaybackView {
        self.state@
    }
}

impl PlaybackService {
    /// A service with an empty queue and the given shuffle and repeat settings.
    pub fn new(shuffle: bool, repeat: RepeatMode) -> (s: Self)
        ensures
            s@ == initial_view(shuffle, repeat),
    {
        let mut state = PlaybackState::default();
        state.shuffle = shuffle;
        state.repeat = repeat;
        PlaybackService { state }
    }

    /// The current state.
    pub fn state(&self) -> (s: &PlaybackState)
        ensures
            s@ == self@,
    {
        &self.state
    }

    /// Mutable access to the state.
    pub fn state_mut(&mut self) -> (s: &mut PlaybackState)
        ensures
            s@ == old(self)@,
            final(self)@ == final(s)@,
    {
        &mut self.state
    }

    /// Take over the engine's view of the transport: a stopped engine clears
    /// the playing flag, and the warning flags are copied.
    pub fn sync_from_engine(
        &mut self,
        engine_stopped: bool,
        resampler_disabled: bool,
        convolution_ir_needs_reload: bool,
    )
        ensures
            final(self)@ == (PlaybackView {
                is_playing: old(self)@.is_playing && !engine_stopped,
                resampler_disabled: resampler_disabled,
                convolution_ir_needs_reload: convolution_ir_needs_reload,
                ..old(self)@
            }),
    {
        self.state.resampler_disabled = resampler_disabled;
        self.state.convolution_ir_needs_reload = convolution_ir_needs_reload;
        if engine_stopped && self.state.is_playing {
            self.state.is_playing = false;
        }
    }

    /// Make `track_id` the current, playing track. The queue position follows
    /// the track's first occurrence in the queue, and with shuffle on the
    /// shuffle position follows that queue position's first occurrence in
    /// the shuffle order.
    pub fn play_track(&mut self, track_id: i64, is_favorited: bool)
        requires
            old(self)@.version < u64::MAX,
        ensures
            is_first_position(old(self)@.play_queue, track_id, final(self)@.play_queue_index),
            final(self)@ == (PlaybackView {
                current_track_id: Some(track_id),
                is_playing: true,
                is_favorited: is_favorited,
                play_queue_index: final(self)@.play_queue_index,
                shuffle_position: final(self)@.shuffle_position,
                version: (old(self)@.version + 1) as u64,
                ..old(self)@
            }),
            old(self)@.shuffle && final(self)@.play_queue_index is Some ==> is_first_position(
                old(self)@.shuffle_order,
                final(self)@.play_queue_index->0,
                Some(final(self)@.shuffle_position),
            ) || (is_first_position(
                old(self)@.shuffle_order,
                final(self)@.play_queue_index->0,
                None,
            ) && final(self)@.shuffle_position == old(self)@.shuffle_position),
            !(old(self)@.shuffle && final(self)@.play_queue_index is Some)
                ==> final(self)@.shuffle_position == old(self)@.shuffle_position,
    {
        self.state.current_track_id = Some(track_id);
        self.state.is_playing = true;
        self.state.is_favorited = is_favorited;
        let idx = position_of_track(&self.state.play_queue, track_id);
        self.state.play_queue_index = idx;
        if self.state.shuffle {
            if let Some(queue_idx) = idx {
                if let Some(pos) = position_of_index(&self.state.shuffle_order, queue_idx) {
                    self.state.shuffle_position = pos;
                }
            }
        }
        self.state.version = self.state.version + 1;
    }

    /// Play/pause toggle.
    pub fn toggle_playback(&mut self) -> (outcome: ToggleOutcome)
        requires
            old(self)@.version < u64::MAX,
        ensures
            old(self)@.is_playing ==> outcome == ToggleOutcome::Paused && final(self)@ == bumped(
                PlaybackView { is_playing: false, ..old(self)@ },
            ),
            !old(self)@.is_playing && old(self)@.current_track_id is Some ==> outcome
                == ToggleOutcome::Resumed && final(self)@ == bumped(
                PlaybackView { is_playing: true, ..old(self)@ },
            ),
            !old(self)@.is_playing && old(self)@.current_track_id is None
                && old(self)@.play_queue.len() > 0 ==> outcome == ToggleOutcome::QueuePending
                && final(self)@ == bumped(old(self)@),
            !old(self)@.is_playing && old(self)@.current_track_id is None
                && old(self)@.play_queue.len() == 0 ==> outcome == ToggleOutcome::Unchanged
                && final(self)@ == old(self)@,
    {
        if self.state.is_playing {
            self.state.is_playing = false;
            self.state.version = self.state.version + 1;
            ToggleOutcome::Paused
        } else if self.state.current_track_id.is_some() {
            self.state.is_playing = true;
            self.state.version = self.state.version + 1;
            ToggleOutcome::Resumed
        } else if self.state.play_queue.len() > 0 {
            self.state.version = self.state.version + 1;
            ToggleOutcome::QueuePending
        } else {
            ToggleOutcome::Unchanged
        }
    }

    /// Stop playback.
    pub fn stop_playback(&mut self)
        requires
            old(self)@.version < u64::MAX,
        ensures
            final(self)@ == bumped(PlaybackView { is_playing: false, ..old(self)@ }),
    {
        self.state.is_playing = false;
        self.state.version = self.state.version + 1;
    }

    /// Record a seek (the position itself is held by the caller).
    pub fn seek(&mut self)
        requires
            old(self)@.version < u64::MAX,
        ensures
            final(self)@ == bumped(old(self)@),
    {
        self.state.version = self.state.version + 1;
    }

    /// Record a restart of the play-time accounting.
    pub fn reset_play_started_at(&mut self)
        requires
            old(self)@.version < u64::MAX,
        ensures
            final(self)@ == bumped(old(self)@),
    {
        self.state.version = self.state.version + 1;
    }

    /// Record a playback-speed change (the speed itself is held by the caller).
    pub fn set_speed(&mut self)
        requires
            old(self)@.version < u64::MAX,
        ensures
            final(self)@ == bumped(old(self)@),
    {
        self.state.version = self.state.version + 1;
    }

    /// Turn shuffle on or off. Turning it on with no shuffle order builds
    /// one; otherwise the shuffle position restarts at the front.
    pub fn set_shuffle(&mut self, shuffle: bool)
        requires
            old(self)@.version < u64::MAX - 1,
        ensures
            ({
                let m1 = bumped(PlaybackView { shuffle: shuffle, ..old(self)@ });
                let n = old(self)@.play_queue.len();
                if shuffle && old(self)@.shuffle_order.len() == 0 {
                    if n == 0 {
                        final(self)@ == bumped(m1)
                    } else {
                        &&& final(self)@ == bumped(reshuffled(m1, final(self)@.shuffle_order))
                        &&& is_permutation_of_range(final(self)@.shuffle_order, n)
                        &&& exists|seed: u64| final(self)@.shuffle_order == shuffled_order(n, seed, None)
                    }
                } else {
                    final(self)@ == (PlaybackView { shuffle_position: 0, ..m1 })
                }
            }),
    {
        self.state.shuffle = shuffle;
        self.state.version = self.state.version + 1;
        if shuffle && self.state.shuffle_order.len() == 0 {
            self.regenerate_shuffle_order();
        } else {
            self.state.shuffle_position = 0;
        }
    }

    /// Set the repeat mode.
    pub fn set_repeat(&mut self, repeat: RepeatMode)
        requires
            old(self)@.version < u64::MAX,
        ensures
            final(self)@ == bumped(PlaybackView { repeat: repeat, ..old(self)@ }),
    {
        self.state.repeat = repeat;
        self.state.version = self.state.version + 1;
    }

    /// Move to the next track and return its id.
    ///
    /// With shuffle on and the shuffle order used up, a new order is drawn
    /// first (seeded from the clock), in which the current position does not
    /// come first when the queue holds more than one track.
    pub fn navigate_next(&mut self) -> (r: Option<i64>)
        requires
            old(self)@.version < u64::MAX,
        ensures
            old(self)@.play_queue.len() == 0 ==> r is None && final(self)@ == old(self)@,
            old(self)@.play_queue.len() > 0 ==> ({
                let m = old(self)@;
                let n = m.play_queue.len();
                let mid = if needs_reshuffle(m) {
                    reshuffled(m, final(self)@.shuffle_order)
                } else {
                    m
                };
                &&& needs_reshuffle(m) ==> is_permutation_of_range(final(self)@.shuffle_order, n)
                    && (exists|seed: u64|
                    final(self)@.shuffle_order == shuffled_order(n, seed, m.play_queue_index))
                    && (m.play_queue_index is Some && n > 1 ==> final(self)@.shuffle_order[0]
                    != m.play_queue_index->0)
                &&& match next_target(mid) {
                    None => r is None && final(self)@ == mid,
                    Some(t) => r == queue_entry(mid.play_queue, t) && final(self)@ == advanced_to(
                        mid,
                        t,
                    ),
                }
            }),
    {
        if self.state.play_queue.len() == 0 {
            return None;
        }
        if self.state.shuffle && (self.state.shuffle_order.len() == 0
            || self.state.shuffle_position >= self.state.shuffle_order.len()) {
            let n = self.state.play_queue.len();
            let seed = clock_seed();
            let order = shuffle_order_from_seed(n, seed, self.state.play_queue_index);
            self.state.shuffle_order = order;
            self.state.shuffle_position = 0;
        }
        let next_index: usize = match self.state.play_queue_index {
            Some(idx) => {
                if self.state.shuffle {
                    if self.state.shuffle_position < self.state.shuffle_order.len() {
                        self.state.shuffle_order[self.state.shuffle_position]
                    } else {
                        0
                    }
                } else if idx < self.state.play_queue.len() - 1 {
                    idx + 1
                } else {
                    match self.state.repeat {
                        RepeatMode::All => 0,
                        RepeatMode::One => idx,
                        RepeatMode::Off => {
                            return None;
                        },
                    }
                }
            },
            None => 0,
        };
        if self.state.shuffle {
            self.state.shuffle_position = self.state.shuffle_position + 1;
        }
        self.state.play_queue_index = Some(next_index);
        self.state.version = self.state.version + 1;
        if next_index < self.state.play_queue.len() {
            Some(self.state.play_queue[next_index])
        } else {
            None
        }
    }

    /// Move to the previous track and return its id. When the caller reports
    /// that playback is past the restart point, the current track is
    /// returned (to be restarted) and the position in the queue stays.
    pub fn navigate_prev(&mut self, past_restart_point: bool) -> (r: Option<i64>)
        requires
            old(self)@.version < u64::MAX,
        ensures
            old(self)@.play_queue.len() == 0 ==> r is None && final(self)@ == old(self)@,
            old(self)@.play_queue.len() > 0 && past_restart_point ==> r == old(
                self,
            )@.current_track_id && final(self)@ == bumped(old(self)@),
            old(self)@.play_queue.len() > 0 && !past_restart_point ==> match prev_target(
                old(self)@,
            ) {
                None => r is None && final(self)@ == old(self)@,
                Some(t) => r == queue_entry(old(self)@.play_queue, t) && final(self)@ == bumped(
                    PlaybackView { play_queue_index: Some(t), ..old(self)@ },
                ),
            },
    {
        if self.state.play_queue.len() == 0 {
            return None;
        }
        if past_restart_point {
            self.state.version = self.state.version + 1;
            return self.state.current_track_id;
        }
        let prev_index: usize = match self.state.play_queue_index {
            Some(idx) => {
                if idx > 0 {
                    idx - 1
                } else {
                    match self.state.repeat {
                        RepeatMode::All => self.state.play_queue.len() - 1,
                        _ => {
                            return None;
                        },
                    }
                }
            },
            None => {
                return None;
            },
        };
        self.state.play_queue_index = Some(prev_index);
        self.state.version = self.state.version + 1;
        if prev_index < self.state.play_queue.len() {
            Some(self.state.play_queue[prev_index])
        } else {
            None
        }
    }

    /// The queue position "next" would move to, without moving.
    pub fn compute_next_index(&self) -> (r: Option<usize>)
        ensures
            r == predicted_next_index(self@),
    {
        if self.state.play_queue.len() == 0 {
            return None;
        }
        match self.state.play_queue_index {
            Some(idx) => {
                if self.state.shuffle {
                    if self.state.shuffle_order.len() == 0 || self.state.shuffle_position
                        >= self.state.shuffle_order.len() {
                        return Some(0);
                    }
                    Some(self.state.shuffle_order[self.state.shuffle_position])
                } else if idx < self.state.play_queue.len() - 1 {
                    Some(idx + 1)
                } else {
                    match self.state.repeat {
                        RepeatMode::All => Some(0),
                        RepeatMode::One => Some(idx),
                        RepeatMode::Off => None,
                    }
                }
            },
            None => Some(0),
        }
    }

    /// The queue position "previous" would move to, without moving.
    pub fn compute_prev_index(&self, past_restart_point: bool) -> (r: Option<usize>)
        ensures
            r == predicted_prev_index(self@, past_restart_point),
    {
        if self.state.play_queue.len() == 0 {
            return None;
        }
        if past_restart_point {
            return self.state.play_queue_index;
        }
        match self.state.play_queue_index {
            Some(idx) => {
                if idx > 0 {
                    Some(idx - 1)
                } else {
                    match self.state.repeat {
                        RepeatMode::All => Some(self.state.play_queue.len() - 1),
                        _ => None,
                    }
                }
            },
            None => None,
        }
    }

    /// Draw a new shuffle order over the whole queue (seeded from the clock)
    /// and read it from the start.
    pub fn regenerate_shuffle_order(&mut self)
        requires
            old(self)@.version < u64::MAX,
        ensures
            old(self)@.play_queue.len() == 0 ==> final(self)@ == bumped(
                PlaybackView { shuffle_order: Seq::empty(), ..old(self)@ },
            ),
            old(self)@.play_queue.len() > 0 ==> {
                &&& final(self)@ == bumped(reshuffled(old(self)@, final(self)@.shuffle_order))
                &&& is_permutation_of_range(final(self)@.shuffle_order, old(self)@.play_queue.len())
                &&& exists|seed: u64|
                    final(self)@.shuffle_order == shuffled_order(old(self)@.play_queue.len(), seed, None)
            },
    {
        let n = self.state.play_queue.len();
        if n == 0 {
            self.state.shuffle_order = Vec::new();
            self.state.version = self.state.version + 1;
            return;
        }
        let seed = clock_seed();
        let order = shuffle_order_from_seed(n, seed, None);
        self.state.shuffle_order = order;
        self.state.shuffle_position = 0;
        self.state.version = self.state.version + 1;
    }

    /// Decide whether the current track has been listened to long enough to
    /// be recorded. `threshold_reached` is the caller's comparison of the
    /// listened time with the track's threshold. A track is reported once:
    /// `last_scrobbled_id` remembers it.
    pub fn check_scrobble_threshold(
        &self,
        last_scrobbled_id: &mut Option<i64>,
        threshold_reached: bool,
    ) -> (r: ScrobbleCheck)
        ensures
            self@.current_track_id is None ==> (r matches ScrobbleCheck::Error(msg) && msg@
                == "No current track"@) && *final(last_scrobbled_id) == *old(last_scrobbled_id),
            self@.current_track_id is Some && *old(last_scrobbled_id) == self@.current_track_id
                ==> (r matches ScrobbleCheck::NotYet) && *final(last_scrobbled_id) == *old(last_scrobbled_id),
            self@.current_track_id is Some && *old(last_scrobbled_id) != self@.current_track_id
                && threshold_reached ==> r == ScrobbleCheck::Ready(self@.current_track_id->0)
                && *final(last_scrobbled_id) == self@.current_track_id,
            self@.current_track_id is Some && *old(last_scrobbled_id) != self@.current_track_id
                && !threshold_reached ==> (r matches ScrobbleCheck::NotYet) && *final(last_scrobbled_id)
                == *old(last_scrobbled_id),
    {
        let track_id = match self.state.current_track_id {
            Some(id) => id,
            None => {
                return ScrobbleCheck::Error("No current track".to_owned());
            },
        };
        let already = match *last_scrobbled_id {
            Some(last) => last == track_id,
            None => false,
        };
        if already {
            return ScrobbleCheck::NotYet;
        }
        if threshold_reached {
            *last_scrobbled_id = Some(track_id);
            ScrobbleCheck::Ready(track_id)
        } else {
            ScrobbleCheck::NotYet
        }
    }

    /// Replace the queue; the shuffle order is dropped.
    pub fn set_play_queue(&mut self, queue: Vec<i64>)
        requires
            old(self)@.version < u64::MAX,
        ensures
            final(self)@ == bumped(
                PlaybackView {
                    play_queue: queue@,
                    shuffle_order: Seq::empty(),
                    shuffle_position: 0,
                    ..old(self)@
                },
            ),
    {
        self.state.play_queue = queue;
        self.state.shuffle_order = Vec::new();
        self.state.shuffle_position = 0;
        self.state.version = self.state.version + 1;
    }

    /// Set the queue position.
    pub fn set_queue_index(&mut self, index: Option<usize>)
        requires
            old(self)@.version < u64::MAX,
        ensures
            final(self)@ == bumped(PlaybackView { play_queue_index: index, ..old(self)@ }),
    {
        self.state.play_queue_index = index;
        self.state.version = self.state.version + 1;
    }

    /// Step the shuffle position forward.
    pub fn advance_shuffle(&mut self)
        requires
            old(self)@.version < u64::MAX,
            old(self)@.shuffle_position < usize::MAX,
        ensures
            final(self)@ == bumped(
                PlaybackView {
                    shuffle_position: (old(self)@.shuffle_position + 1) as usize,
                    ..old(self)@
                },
            ),
    {
        self.state.shuffle_position = self.state.shuffle_position + 1;
        self.state.version = self.state.version + 1;
    }

    /// Record whether the current track is a favorite.
    pub fn set_favorited(&mut self, favorited: bool)
        requires
            old(self)@.version < u64::MAX,
        ensures
            final(self)@ == bumped(PlaybackView { is_favorited: favorited, ..old(self)@ }),
    {
        self.state.is_favorited = favorited;
        self.state.version = self.state.version + 1;
    }
}

} // verus!
