//! Toast notifications: the bounded queue of messages shown to the user, and
//! the messages that scrobble and DSP events produce.
use vstd::prelude::*;
use crate::converters::{toast_to_item, ToastItem};
use crate::text::{chars_to_string, push_str};

verus! {

/// Severity level for toast notifications.
#[derive(Debug, Clone, Copy, PartialEq, Eq, Structural)]
pub enum ToastLevel {
    Info,
    Success,
    Warning,
    Error,
}

/// Lower-case name of a level, as the UI expects it.
pub open spec fn level_name(level: ToastLevel) -> Seq<char> {
    match level {
        ToastLevel::Info => "info"@,
        ToastLevel::Success => "success"@,
        ToastLevel::Warning => "warning"@,
        ToastLevel::Error => "error"@,
    }
}

/// Lower-case name of a level.
pub fn level_str(level: ToastLevel) -> (s: &'static str)
    ensures
        s@ == level_name(level),
{
    match level {
        ToastLevel::Info => "info",
        ToastLevel::Success => "success",
        ToastLevel::Warning => "warning",
        ToastLevel::Error => "error",
    }
}

/// One queued toast; `expiry_ms` is on the caller's monotonic clock.
#[derive(Debug, Clone)]
pub struct Toast {
    pub message: String,
    pub expiry_ms: u64,
    pub level: ToastLevel,
    pub id: u64,
}

/// How long a toast stays up, in milliseconds.
pub const TOAST_LIFETIME_MS: u64 = 4000;

/// Most toasts kept at once.
pub const MAX_TOASTS: usize = 5;

/// `s` after appending `t` and, when that makes more than five, dropping the
/// oldest.
pub open spec fn pushed_toast(s: Seq<Toast>, t: Toast) -> Seq<Toast> {
    if s.push(t).len() > MAX_TOASTS {
        s.push(t).drop_first()
    } else {
        s.push(t)
    }
}

/// The toasts of `s` that have not expired at `now`, in order.
pub open spec fn unexpired(s: Seq<Toast>, now: u64) -> Seq<Toast>
    decreases s.len(),
{
    if s.len() == 0 {
        Seq::empty()
    } else if s.last().expiry_ms > now {
        unexpired(s.drop_last(), now).push(s.last())
    } else {
        unexpired(s.drop_last(), now)
    }
}

/// The in-memory toast queue.
pub struct ToastQueue {
    toasts: Vec<Toast>,
}

impl View for ToastQueue {
    type V = Seq<Toast>;

    closed spec fn view(&self) -> Seq<Toast> {
        self.toasts@
    }
}

impl ToastQueue {
    /// An empty queue.
    pub fn new() -> (q: Self)
        ensures
            q@ == Seq::<Toast>::empty(),
    {
        ToastQueue { toasts: Vec::new() }
    }

    /// The queued toasts, oldest first.
    pub fn toasts(&self) -> (v: &Vec<Toast>)
        ensures
            v@ == self@,
    {
        &self.toasts
    }

    /// Queue a toast with id 0 that expires four seconds after `now_ms`.
    pub fn push_toast(&mut self, message: String, level: ToastLevel, now_ms: u64)
        requires
            now_ms <= u64::MAX - TOAST_LIFETIME_MS,
        ensures
            final(self)@ == pushed_toast(
                old(self)@,
                Toast { message, expiry_ms: (now_ms + TOAST_LIFETIME_MS) as u64, level, id: 0 },
            ),
    {
        self.push_toast_with_id(message, level, 0, now_ms)
    }

    /// Queue a toast that expires four seconds after `now_ms`; when more
    /// than five are queued the oldest is dropped.
    pub fn push_toast_with_id(&mut self, message: String, level: ToastLevel, id: u64, now_ms: u64)
        requires
            now_ms <= u64::MAX - TOAST_LIFETIME_MS,
        ensures
            final(self)@ == pushed_toast(
                old(self)@,
                Toast { message, expiry_ms: (now_ms + TOAST_LIFETIME_MS) as u64, level, id },
            ),
    {
        let t = Toast { message, expiry_ms: now_ms + TOAST_LIFETIME_MS, level, id };
        self.toasts.push(t);
        if self.toasts.len() > MAX_TOASTS {
            self.toasts.remove(0);
        }
        assert(self.toasts@ =~= pushed_toast(old(self).toasts@, t));
    }

    /// Drop the toasts that have expired at `now_ms`.
    pub fn retain_unexpired(&mut self, now_ms: u64)
        ensures
            final(self)@ == unexpired(old(self)@, now_ms),
    {
        let mut rest: Vec<Toast> = Vec::new();
        std::mem::swap(&mut rest, &mut self.toasts);
        let ghost orig = rest@;
        let mut kept: Vec<Toast> = Vec::new();
        let ghost mut i: int = 0;
        while rest.len() > 0
            invariant
                0 <= i <= orig.len(),
                rest@ == orig.skip(i),
                kept@ == unexpired(orig.take(i), now_ms),
            decreases rest.len(),
        {
            let t = rest.remove(0);
            proof {
                assert(orig.take(i + 1).drop_last() =~= orig.take(i));
                assert(orig.take(i + 1).last() == t);
            }
            if t.expiry_ms > now_ms {
                kept.push(t);
            }
            proof {
                i = i + 1;
                assert(rest@ =~= orig.skip(i));
            }
        }
        assert(orig.take(i) =~= orig);
        self.toasts = kept;
    }
}

/// The row the interface shows for toast `t`.
pub open spec fn toast_row_of(r: ToastItem, t: Toast) -> bool {
    r.id == t.id as i32 && r.message@ == t.message@ && r.level@ == level_name(t.level)
}

impl ToastQueue {
    /// Rows for the toasts not yet expired at `now_ms`, oldest first.
    pub fn rows(&self, now_ms: u64) -> (rows: Vec<ToastItem>)
        ensures
            rows@.len() == unexpired(self@, now_ms).len(),
            forall|i: int|
                0 <= i < rows@.len() ==> toast_row_of(#[trigger] rows@[i], unexpired(self@, now_ms)[i]),
    {
        let mut rows: Vec<ToastItem> = Vec::new();
        let mut i: usize = 0;
        while i < self.toasts.len()
            invariant
                i <= self.toasts@.len(),
                rows@.len() == unexpired(self.toasts@.take(i as int), now_ms).len(),
                forall|k: int|
                    0 <= k < rows@.len() ==> toast_row_of(
                        #[trigger] rows@[k],
                        unexpired(self.toasts@.take(i as int), now_ms)[k],
                    ),
            decreases self.toasts.len() - i,
        {
            proof {
                assert(self.toasts@.take(i as int + 1).drop_last() =~= self.toasts@.take(i as int));
                assert(self.toasts@.take(i as int + 1).last() == self.toasts@[i as int]);
            }
            let t = &self.toasts[i];
            if t.expiry_ms > now_ms {
                let row = toast_to_item(t.id, t.message.as_str(), level_str(t.level));
                rows.push(row);
            }
            i = i + 1;
        }
        proof {
            assert(self.toasts@.take(self.toasts@.len() as int) =~= self.toasts@);
        }
        rows
    }
}

/// The queue never holds more than five toasts. Pushing onto a queue of
/// at most five keeps `min(len + 1, 5)` toasts: the new one last, before it
/// the newest of the earlier toasts in their order (the oldest is dropped
/// when the queue was full).
pub proof fn lemma_toast_queue_bounded(s: Seq<Toast>, t: Toast)
    requires
        s.len() <= MAX_TOASTS,
    ensures
        pushed_toast(s, t).len() <= MAX_TOASTS,
        pushed_toast(s, t).len() == (if s.len() + 1 < MAX_TOASTS {
            s.len() + 1int
        } else {
            MAX_TOASTS as int
        }),
        pushed_toast(s, t).last() == t,
        forall|i: int|
            0 <= i < pushed_toast(s, t).len() - 1 ==> #[trigger] pushed_toast(s, t)[i] == s[s.len()
                - (pushed_toast(s, t).len() - 1) + i],
{
}

/// Events emitted by the scrobble service for UI feedback.
#[derive(Debug, Clone)]
pub enum ScrobbleEvent {
    /// A listen was recorded to the local journal.
    Recorded { artist: String, track: String },
    /// Recording failed.
    Failed { artist: String, track: String, error: String },
}

/// Toast text for a scrobble event.
pub open spec fn scrobble_message(e: ScrobbleEvent) -> Seq<char> {
    match e {
        ScrobbleEvent::Recorded { artist, track } => "Saved: "@ + track@ + " by "@ + artist@,
        ScrobbleEvent::Failed { artist, track, error } => "Could not save listen: "@ + track@
            + " by "@ + artist@ + " — "@ + error@,
    }
}

/// The toast a scrobble event produces: a success note when the listen was
/// saved, an error note when it was not.
pub fn scrobble_event_toast(event: &ScrobbleEvent) -> (r: (String, ToastLevel))
    ensures
        r.0@ == scrobble_message(*event),
        r.1 == (match *event {
            ScrobbleEvent::Recorded { .. } => ToastLevel::Success,
            ScrobbleEvent::Failed { .. } => ToastLevel::Error,
        }),
{
    let mut m: Vec<char> = Vec::new();
    match event {
        ScrobbleEvent::Recorded { artist, track } => {
            push_str(&mut m, "Saved: ");
            push_str(&mut m, track.as_str());
            push_str(&mut m, " by ");
            push_str(&mut m, artist.as_str());
            assert(m@ =~= scrobble_message(*event));
            (chars_to_string(&m), ToastLevel::Success)
        },
        ScrobbleEvent::Failed { artist, track, error } => {
            push_str(&mut m, "Could not save listen: ");
            push_str(&mut m, track.as_str());
            push_str(&mut m, " by ");
            push_str(&mut m, artist.as_str());
            push_str(&mut m, " — ");
            push_str(&mut m, error.as_str());
            assert(m@ =~= scrobble_message(*event));
            (chars_to_string(&m), ToastLevel::Error)
        },
    }
}

/// Whether to warn that the resampler is disabled: once per episode.
/// `warning_shown` is set when the warning is raised and cleared when the
/// resampler works again.
pub fn check_dsp_warnings(resampler_disabled: bool, warning_shown: &mut bool) -> (warn: bool)
    ensures
        warn == (resampler_disabled && !*old(warning_shown)),
        *final(warning_shown) == (resampler_disabled && (*old(warning_shown) || warn)),
{
    if resampler_disabled && !*warning_shown {
        *warning_shown = true;
        true
    } else {
        if !resampler_disabled {
            *warning_shown = false;
        }
        false
    }
}

} // verus!
