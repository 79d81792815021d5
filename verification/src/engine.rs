//! Engine-level state types: transport state, seek-fade phases, ReplayGain
//! modes, output device ids and the dither noise generator.
use vstd::prelude::*;

verus! {

/// Transport state reported by the audio engine.
#[derive(Debug, Clone, Copy, PartialEq, Eq, Structural)]
pub enum PlayerState {
    Stopped,
    Playing,
    Paused,
    Buffering,
}

/// Phase of the click-free volume ramp around a seek.
#[derive(Debug, Clone, Copy, PartialEq, Eq, Structural)]
pub enum SeekFadePhase {
    FadeOut,
    FadeIn,
}

/// Whether album gain or track gain is preferred.
#[derive(Debug, Clone, Copy, PartialEq, Eq, Structural)]
pub enum ReplayGainMode {
    /// Use track gain/peak when available.
    Track,
    /// Use album gain/peak when available (fallback to track if album missing).
    Album,
}

impl Default for ReplayGainMode {
    fn default() -> (m: Self)
        ensures
            m == ReplayGainMode::Track,
    {
        ReplayGainMode::Track
    }
}

/// How ReplayGain is applied.
#[derive(Debug, Clone, Copy, PartialEq, Eq, Structural)]
pub enum ReplayGainApplyMode {
    /// Ignore RG tags entirely. Fallback preamp is still applied for consistency.
    DontApply,
    /// Apply gain (+ preamp). No anti-clip peak clamping.
    ApplyGain,
    /// Apply gain (+ preamp) and clamp by peak to prevent clipping.
    ApplyAndClip,
}

impl Default for ReplayGainApplyMode {
    fn default() -> (m: Self)
        ensures
            m == ReplayGainApplyMode::ApplyAndClip,
    {
        ReplayGainApplyMode::ApplyAndClip
    }
}

/// Identifies an output device for per-output preset storage.
pub struct OutputDeviceId(pub String);

impl OutputDeviceId {
    /// Identifier for a named device.
    pub fn new(name: &str) -> (res: Self)
        ensures
            res.0@ == name@,
    {
        OutputDeviceId(name.to_owned())
    }

    /// Identifier of the default output device.
    pub fn default_output() -> (res: Self)
        ensures
            res.0@ == "default"@,
    {
        OutputDeviceId("default".to_owned())
    }
}

/// Seed of the first dither generator.
pub const DITHER_SEED_1: u32 = 0xDEAD_BEEFu32;

/// Seed of the second dither generator.
pub const DITHER_SEED_2: u32 = 0xCAFE_BABEu32;

/// Next state of the first generator.
pub open spec fn dither_lcg1(s: u32) -> u32 {
    s.wrapping_mul(1664525u32).wrapping_add(1013904223u32)
}

/// Next state of the second generator.
pub open spec fn dither_lcg2(s: u32) -> u32 {
    s.wrapping_mul(22695477u32).wrapping_add(1u32)
}

/// Two-LCG TPDF dither for 32→16-bit conversion: two generators whose
/// (signed) outputs are added to form triangular noise of ±1 LSB.
#[derive(Debug, Clone, Copy)]
pub struct TpdfDither {
    pub enabled: bool,
    lcg1: u32,
    lcg2: u32,
}

impl TpdfDither {
    /// The generator states.
    pub closed spec fn state(&self) -> (u32, u32) {
        (self.lcg1, self.lcg2)
    }

    /// Whether dither is applied.
    pub closed spec fn is_enabled(&self) -> bool {
        self.enabled
    }

    /// A disabled dither with both generators at their seeds.
    pub fn new() -> (d: Self)
        ensures
            !d.is_enabled(),
            d.state() == (DITHER_SEED_1, DITHER_SEED_2),
    {
        TpdfDither { enabled: false, lcg1: DITHER_SEED_1, lcg2: DITHER_SEED_2 }
    }

    /// Step both generators and return their new states read as signed
    /// 32-bit values (the two uniform draws whose sum is the noise).
    pub fn next_pair(&mut self) -> (r: (i32, i32))
        ensures
            final(self).is_enabled() == old(self).is_enabled(),
            final(self).state() == (dither_lcg1(old(self).state().0), dither_lcg2(
                old(self).state().1,
            )),
            r == (final(self).state().0 as i32, final(self).state().1 as i32),
    {
        self.lcg1 = self.lcg1.wrapping_mul(1664525u32).wrapping_add(1013904223u32);
        self.lcg2 = self.lcg2.wrapping_mul(22695477u32).wrapping_add(1u32);
        (#[verifier::truncate] (self.lcg1 as i32), #[verifier::truncate] (self.lcg2 as i32))
    }
}

impl Default for TpdfDither {
    fn default() -> (d: Self)
        ensures
            !d.is_enabled(),
            d.state() == (DITHER_SEED_1, DITHER_SEED_2),
    {
        TpdfDither::new()
    }
}

/// Transport state of the engine: stopped with nothing loaded, otherwise
/// playing or paused as the loaded track is.
pub fn transport_state(loaded: bool, playing: bool) -> (s: PlayerState)
    ensures
        !loaded ==> s == PlayerState::Stopped,
        loaded && playing ==> s == PlayerState::Playing,
        loaded && !playing ==> s == PlayerState::Paused,
{
    if !loaded {
        PlayerState::Stopped
    } else if playing {
        PlayerState::Playing
    } else {
        PlayerState::Paused
    }
}

/// Longest fade around a seek, in milliseconds.
pub const MAX_SEEK_FADE_MS: u32 = 200;

/// The seek fade length kept for a requested `ms` (zero turns fading off).
pub fn seek_fade_ms(ms: u32) -> (r: u32)
    ensures
        r == (if ms > MAX_SEEK_FADE_MS {
            MAX_SEEK_FADE_MS
        } else {
            ms
        }),
{
    if ms > MAX_SEEK_FADE_MS {
        MAX_SEEK_FADE_MS
    } else {
        ms
    }
}


/// Hands `state` to the state listener, where one is registered; without a
/// listener nothing happens.
pub fn notify_state<F: Fn(PlayerState)>(listener: &Option<F>, state: PlayerState)
    requires
        listener matches Some(f) ==> f.requires((state,)),
    ensures
        listener matches Some(f) ==> f.ensures((state,), ()),
{
    if let Some(f) = listener {
        f(state);
    }
}

} // verus!
