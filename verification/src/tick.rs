//! The audio engine's periodic tick: which notifications one poll of the
//! decode pipeline produces, and the ring buffer sizes it is built with.
use vstd::prelude::*;
use crate::engine::PlayerState;

verus! {

/// A message read from the decode pipeline's bus.
#[derive(Debug, Clone, PartialEq, Eq)]
pub enum BusEvent {
    Error(String),
    Warning(String),
    EndOfStream,
}

/// What a tick reports to the engine's listeners, in order.
#[derive(Debug, Clone, PartialEq, Eq)]
pub enum EngineNotice {
    /// A pipeline error, to be logged.
    Error(String),
    /// A pipeline warning, to be logged.
    Warning(String),
    /// The end-of-stream listener fires.
    EndOfStream,
    /// The state listener fires.
    State(PlayerState),
    /// The position listener fires (nanoseconds).
    Position(u128),
    /// The duration listener fires (nanoseconds).
    Duration(u128),
}

/// Notices for one bus message: an end of stream also reports the stopped
/// state.
pub open spec fn bus_notice(e: BusEvent) -> Seq<EngineNotice> {
    match e {
        BusEvent::Error(m) => seq![EngineNotice::Error(m)],
        BusEvent::Warning(m) => seq![EngineNotice::Warning(m)],
        BusEvent::EndOfStream => seq![
            EngineNotice::EndOfStream,
            EngineNotice::State(PlayerState::Stopped),
        ],
    }
}

/// Notices for a run of bus messages, message by message.
pub open spec fn bus_notices(s: Seq<BusEvent>) -> Seq<EngineNotice>
    decreases s.len(),
{
    if s.len() == 0 {
        Seq::empty()
    } else {
        bus_notices(s.drop_last()) + bus_notice(s.last())
    }
}

/// A new reading `cur` is reported when there is one and it differs from the
/// last reported `last`.
pub open spec fn is_new_reading(last: Option<u128>, cur: Option<u128>) -> bool {
    cur is Some && last != cur
}

/// The position reading a tick takes: the pipeline's position while playing,
/// none otherwise.
pub open spec fn position_reading(playing: bool, position: Option<u128>) -> Option<u128> {
    if playing {
        position
    } else {
        None
    }
}

/// Last position and duration reported to listeners (nanoseconds).
#[derive(Debug, Clone, Copy, PartialEq, Eq, Structural)]
pub struct TickTracker {
    pub last_position: Option<u128>,
    pub last_duration: Option<u128>,
}

/// Result of one tick: the notices, in order, and the tracker afterwards.
pub open spec fn tick_outcome(
    t: TickTracker,
    has_session: bool,
    events: Seq<BusEvent>,
    playing: bool,
    position: Option<u128>,
    duration: Option<u128>,
) -> (Seq<EngineNotice>, TickTracker) {
    if !has_session {
        (Seq::empty(), t)
    } else {
        let pos = position_reading(playing, position);
        let pos_new = is_new_reading(t.last_position, pos);
        let dur_new = is_new_reading(t.last_duration, duration);
        let notices = bus_notices(events) + (if pos_new {
            seq![EngineNotice::Position(pos->0)]
        } else {
            Seq::empty()
        }) + (if dur_new {
            seq![EngineNotice::Duration(duration->0)]
        } else {
            Seq::empty()
        });
        let t2 = TickTracker {
            last_position: if pos_new {
                pos
            } else {
                t.last_position
            },
            last_duration: if dur_new {
                duration
            } else {
                t.last_duration
            },
        };
        (notices, t2)
    }
}

/// A tick that reads the same position and duration as the tick before it,
/// with no bus messages, reports nothing and changes nothing: each reading is
/// reported once.
pub proof fn lemma_repeated_readings_are_silent(
    t: TickTracker,
    events: Seq<BusEvent>,
    playing: bool,
    position: Option<u128>,
    duration: Option<u128>,
)
    ensures
        ({
            let t2 = tick_outcome(t, true, events, playing, position, duration).1;
            tick_outcome(t2, true, Seq::empty(), playing, position, duration) == (
                Seq::<EngineNotice>::empty(),
                t2,
            )
        }),
{
    let t2 = tick_outcome(t, true, events, playing, position, duration).1;
    let o = tick_outcome(t2, true, Seq::empty(), playing, position, duration);
    assert(bus_notices(Seq::<BusEvent>::empty()) =~= Seq::<EngineNotice>::empty());
    assert(o.0 =~= Seq::<EngineNotice>::empty());
}

fn notices_for_bus(events: Vec<BusEvent>) -> (out: Vec<EngineNotice>)
    ensures
        out@ == bus_notices(events@),
{
    let ghost all = events@;
    let n: usize = events.len();
    let mut events = events;
    let mut out: Vec<EngineNotice> = Vec::new();
    let mut k: usize = 0;
    while events.len() > 0
        invariant
            k + events@.len() == all.len(),
            all.len() == n,
            events@ == all.skip(k as int),
            out@ == bus_notices(all.take(k as int)),
        decreases events.len(),
    {
        let e = events.remove(0);
        proof {
            assert(e == all[k as int]);
            assert(all.take(k as int + 1).drop_last() =~= all.take(k as int));
        }
        match e {
            BusEvent::Error(m) => out.push(EngineNotice::Error(m)),
            BusEvent::Warning(m) => out.push(EngineNotice::Warning(m)),
            BusEvent::EndOfStream => {
                out.push(EngineNotice::EndOfStream);
                out.push(EngineNotice::State(PlayerState::Stopped));
            },
        }
        k = k + 1;
        assert(events@ =~= all.skip(k as int));
        assert(out@ =~= bus_notices(all.take(k as int)));
    }
    assert(all.take(k as int) =~= all);
    out
}

impl TickTracker {
    /// A tracker that has reported nothing yet.
    pub fn new() -> (t: Self)
        ensures
            t.last_position is None,
            t.last_duration is None,
    {
        TickTracker { last_position: None, last_duration: None }
    }

    /// Forget what was reported, as a new track is loaded.
    pub fn reset(&mut self)
        ensures
            final(self).last_position is None,
            final(self).last_duration is None,
    {
        self.last_position = None;
        self.last_duration = None;
    }

    /// One tick. Without a session nothing is reported. Otherwise each bus
    /// message is reported in order (an end of stream with the stopped
    /// state after it), then the position (read only while playing) and the
    /// duration, each only when it is known and differs from the last one
    /// reported; those become the last reported values.
    pub fn tick(
        &mut self,
        has_session: bool,
        events: Vec<BusEvent>,
        playing: bool,
        position: Option<u128>,
        duration: Option<u128>,
    ) -> (out: Vec<EngineNotice>)
        ensures
            (out@, *final(self)) == tick_outcome(
                *old(self),
                has_session,
                events@,
                playing,
                position,
                duration,
            ),
    {
        if !has_session {
            return Vec::new();
        }
        let mut out = notices_for_bus(events);
        let pos = if playing {
            position
        } else {
            None
        };
        let ghost before = out@;
        let pos_new = match pos {
            Some(p) => match self.last_position {
                Some(q) => p != q,
                None => true,
            },
            None => false,
        };
        let dur_new = match duration {
            Some(d) => match self.last_duration {
                Some(q) => d != q,
                None => true,
            },
            None => false,
        };
        if pos_new {
            self.last_position = pos;
            match pos {
                Some(p) => out.push(EngineNotice::Position(p)),
                None => {},
            }
        }
        let ghost mid = out@;
        if dur_new {
            self.last_duration = duration;
            match duration {
                Some(d) => out.push(EngineNotice::Duration(d)),
                None => {},
            }
        }
        proof {
            let o = tick_outcome(*old(self), has_session, events@, playing, position, duration);
            assert(mid =~= before + (if pos_new {
                seq![EngineNotice::Position(pos->0)]
            } else {
                Seq::empty()
            }));
            assert(out@ =~= o.0);
        }
        out
    }
}

/// Default decode ring size, in samples.
pub const DECODE_RING_DEFAULT: usize = 65536;

/// Default output ring size, in samples.
pub const OUTPUT_RING_DEFAULT: usize = 32768;

/// `v` clamped into `[lo, hi]`.
pub open spec fn clamped(v: int, lo: int, hi: int) -> int {
    if v < lo {
        lo
    } else if v > hi {
        hi
    } else {
        v
    }
}

/// Ring buffer sizes (decode, output) from the configured values, each
/// clamped to its valid range; the defaults when no configuration was read.
pub fn ring_sizes(configured: Option<(u32, u32)>) -> (r: (usize, usize))
    ensures
        configured is None ==> r == (DECODE_RING_DEFAULT, OUTPUT_RING_DEFAULT),
        configured matches Some((d, o)) ==> r.0 == clamped(d as int, 4096, 262144) && r.1
            == clamped(o as int, 2048, 131072),
{
    match configured {
        None => (DECODE_RING_DEFAULT, OUTPUT_RING_DEFAULT),
        Some((d, o)) => {
            let dc: u32 = if d < 4096 {
                4096
            } else if d > 262144 {
                262144
            } else {
                d
            };
            let oc: u32 = if o < 2048 {
                2048
            } else if o > 131072 {
                131072
            } else {
                o
            };
            (dc as usize, oc as usize)
        },
    }
}

} // verus!
