//! Opening the audio output: which stream configuration to ask a device for
//! (in shared and in exclusive mode), which device to open for exclusive
//! access, where the PipeWire socket of the current user lives, and which
//! stream errors mean that the device went away.
use vstd::prelude::*;
use crate::text::{
    all_digits, all_digits_in, chars_to_string, contains_text, decimal_chars, digits_upto,
    digits_value, has_substring, lowercase, push_decimal, push_str, to_chars, to_lowercase,
};

verus! {

/// Sample format of a supported output configuration, as far as the
/// choice of configuration tells formats apart.
#[derive(Debug, Clone, Copy, PartialEq, Eq, Structural)]
pub enum SampleFormatKind {
    F32,
    I16,
    Other,
}

/// One range of output configurations a device supports.
#[derive(Debug, Clone, Copy, PartialEq, Eq, Structural)]
pub struct ConfigRange {
    pub channels: u16,
    pub format: SampleFormatKind,
    pub min_rate: u32,
    pub max_rate: u32,
}

// ── Shared mode ──────────────────────────────────────────────────────────

/// The range can run at `rate`.
pub open spec fn covers(c: ConfigRange, rate: u32) -> bool {
    c.min_rate <= rate <= c.max_rate
}

/// Preference of a stereo configuration in shared mode: F32 at 48 kHz,
/// then F32 at 44.1 kHz, then F32 at any rate, then I16 at 48 kHz, then
/// I16 at another rate, then any other format.
pub open spec fn shared_score(c: ConfigRange) -> nat {
    match c.format {
        SampleFormatKind::F32 => if covers(c, 48_000) {
            100
        } else if covers(c, 44_100) {
            90
        } else {
            50
        },
        SampleFormatKind::I16 => if covers(c, 48_000) {
            30
        } else {
            10
        },
        SampleFormatKind::Other => 5,
    }
}

/// The rate asked of a configuration in shared mode: 48 kHz when it can,
/// for F32 44.1 kHz next, else its highest rate.
pub open spec fn shared_rate(c: ConfigRange) -> u32 {
    if covers(c, 48_000) {
        48_000
    } else if c.format == SampleFormatKind::F32 && covers(c, 44_100) {
        44_100
    } else {
        c.max_rate
    }
}

/// `cfgs[i]` is the first of the stereo configurations with the highest
/// shared-mode preference.
pub open spec fn is_best_shared(cfgs: Seq<ConfigRange>, i: int) -> bool {
    &&& 0 <= i < cfgs.len()
    &&& cfgs[i].channels == 2
    &&& forall|j: int|
        0 <= j < cfgs.len() && (#[trigger] cfgs[j]).channels == 2 ==> shared_score(cfgs[j])
            <= shared_score(cfgs[i])
    &&& forall|j: int|
        0 <= j < i && (#[trigger] cfgs[j]).channels == 2 ==> shared_score(cfgs[j]) < shared_score(
            cfgs[i],
        )
}

fn covers_rate(c: &ConfigRange, rate: u32) -> (b: bool)
    ensures
        b == covers(*c, rate),
{
    c.min_rate <= rate && rate <= c.max_rate
}

fn score_of(c: &ConfigRange) -> (s: u32)
    ensures
        s == shared_score(*c),
{
    match c.format {
        SampleFormatKind::F32 => if covers_rate(c, 48_000) {
            100
        } else if covers_rate(c, 44_100) {
            90
        } else {
            50
        },
        SampleFormatKind::I16 => if covers_rate(c, 48_000) {
            30
        } else {
            10
        },
        SampleFormatKind::Other => 5,
    }
}

/// The configuration and rate to open a device with in shared mode: the
/// first stereo configuration with the highest preference, or `None` when
/// the device has no stereo configuration (its default is used then).
pub fn choose_shared_config(cfgs: &Vec<ConfigRange>) -> (r: Option<(usize, u32)>)
    ensures
        r is None <==> forall|j: int| 0 <= j < cfgs@.len() ==> (#[trigger] cfgs@[j]).channels != 2,
        r matches Some((i, rate)) ==> is_best_shared(cfgs@, i as int) && rate == shared_rate(
            cfgs@[i as int],
        ),
{
    let mut best: Option<(usize, u32)> = None;
    let mut k: usize = 0;
    while k < cfgs.len()
        invariant
            k <= cfgs@.len(),
            best is None <==> forall|j: int| 0 <= j < k ==> (#[trigger] cfgs@[j]).channels != 2,
            best matches Some((i, s)) ==> {
                &&& i < k
                &&& cfgs@[i as int].channels == 2
                &&& s == shared_score(cfgs@[i as int])
                &&& forall|j: int|
                    0 <= j < k && (#[trigger] cfgs@[j]).channels == 2 ==> shared_score(cfgs@[j])
                        <= s
                &&& forall|j: int|
                    0 <= j < i && (#[trigger] cfgs@[j]).channels == 2 ==> shared_score(cfgs@[j])
                        < s
            },
        decreases cfgs.len() - k,
    {
        let c = &cfgs[k];
        if c.channels == 2 {
            let score = score_of(c);
            let better = match best {
                Some((_, s)) => score > s,
                None => true,
            };
            if better {
                best = Some((k, score));
            }
        }
        k = k + 1;
    }
    match best {
        Some((i, _)) => {
            let c = &cfgs[i];
            let rate = if covers_rate(c, 48_000) {
                48_000
            } else if c.format == SampleFormatKind::F32 && covers_rate(c, 44_100) {
                44_100
            } else {
                c.max_rate
            };
            Some((i, rate))
        },
        None => None,
    }
}

/// The rate asked of a configuration in shared mode is one it supports.
pub proof fn lemma_shared_rate_supported(c: ConfigRange)
    requires
        c.min_rate <= c.max_rate,
    ensures
        covers(c, shared_rate(c)),
{
}

/// Shared mode opens a configuration at 48 kHz whenever it supports that
/// rate, whatever its sample format; an F32 configuration without 48 kHz
/// but with 44.1 kHz at 44.1 kHz; any other at its highest rate. Among
/// stereo configurations, F32 at 48 kHz is preferred to everything else,
/// and any F32 configuration to any other format.
pub proof fn lemma_shared_mode_preferences(c: ConfigRange, d: ConfigRange)
    ensures
        covers(c, 48_000) ==> shared_rate(c) == 48_000,
        !covers(c, 48_000) && c.format == SampleFormatKind::F32 && covers(c, 44_100)
            ==> shared_rate(c) == 44_100,
        !covers(c, 48_000) && !(c.format == SampleFormatKind::F32 && covers(c, 44_100))
            ==> shared_rate(c) == c.max_rate,
        c.format == SampleFormatKind::F32 && covers(c, 48_000) && !(d.format
            == SampleFormatKind::F32 && covers(d, 48_000)) ==> shared_score(d) < shared_score(c),
        c.format == SampleFormatKind::F32 && d.format != SampleFormatKind::F32 ==> shared_score(d)
            < shared_score(c),
{
}

/// The sample rate used for a configuration's rate: rates below 8 kHz or
/// above 192 kHz are taken as 48 kHz.
pub fn sane_sample_rate(rate: u32) -> (r: u32)
    ensures
        r == (if rate < 8000 || rate > 192_000 {
            48_000
        } else {
            rate
        }),
{
    if rate < 8000 || rate > 192_000 {
        48_000
    } else {
        rate
    }
}

/// Capacity of the conversion buffer of a non-F32 stream: the largest
/// buffer the device reports, or 8192 samples when it reports none.
pub fn conversion_buffer_capacity(max_buffer: Option<u32>) -> (n: usize)
    ensures
        n == (match max_buffer {
            Some(m) => m as usize,
            None => 8192usize,
        }),
{
    match max_buffer {
        Some(m) => m as usize,
        None => 8192,
    }
}

// ── Exclusive mode ───────────────────────────────────────────────────────

/// Highest sample rate selected in exclusive mode.
pub const MAX_EXCLUSIVE_RATE: u32 = 192_000;

/// A configuration's highest rate, capped at `MAX_EXCLUSIVE_RATE`.
pub open spec fn capped_rate(c: ConfigRange) -> u32 {
    if c.max_rate < MAX_EXCLUSIVE_RATE {
        c.max_rate
    } else {
        MAX_EXCLUSIVE_RATE
    }
}

/// The configuration can run in exclusive mode (at some rate up to the
/// cap); with `f32_stereo`, it must moreover be stereo F32.
pub open spec fn exclusive_candidate(c: ConfigRange, f32_stereo: bool) -> bool {
    &&& c.min_rate <= MAX_EXCLUSIVE_RATE
    &&& capped_rate(c) > 0
    &&& f32_stereo ==> c.channels == 2 && c.format == SampleFormatKind::F32
}

/// `cfgs[i]` is the first candidate with the highest capped rate.
pub open spec fn is_first_fastest(cfgs: Seq<ConfigRange>, i: int, f32_stereo: bool) -> bool {
    &&& 0 <= i < cfgs.len()
    &&& exclusive_candidate(cfgs[i], f32_stereo)
    &&& forall|j: int|
        0 <= j < cfgs.len() && exclusive_candidate(#[trigger] cfgs[j], f32_stereo) ==> capped_rate(
            cfgs[j],
        ) <= capped_rate(cfgs[i])
    &&& forall|j: int|
        0 <= j < i && exclusive_candidate(#[trigger] cfgs[j], f32_stereo) ==> capped_rate(cfgs[j])
            < capped_rate(cfgs[i])
}

/// Some configuration is a candidate.
pub open spec fn has_candidate(cfgs: Seq<ConfigRange>, f32_stereo: bool) -> bool {
    exists|j: int| 0 <= j < cfgs.len() && exclusive_candidate(#[trigger] cfgs[j], f32_stereo)
}

/// The rate asked of a configuration in exclusive mode is one it
/// supports, and never above `MAX_EXCLUSIVE_RATE`.
pub proof fn lemma_exclusive_rate_supported(c: ConfigRange, f32_stereo: bool)
    requires
        c.min_rate <= c.max_rate,
        exclusive_candidate(c, f32_stereo),
    ensures
        covers(c, capped_rate(c)),
        0 < capped_rate(c) <= MAX_EXCLUSIVE_RATE,
{
}

/// Why no exclusive-mode configuration was chosen.
#[derive(Debug, Clone, Copy, PartialEq, Eq, Structural)]
pub enum ExclusiveConfigError {
    /// The device reports no supported output configuration.
    NoConfigs,
    /// No configuration runs at a rate up to `MAX_EXCLUSIVE_RATE`.
    NoneSuitable,
}

fn capped(c: &ConfigRange) -> (r: u32)
    ensures
        r == capped_rate(*c),
{
    if c.max_rate < MAX_EXCLUSIVE_RATE {
        c.max_rate
    } else {
        MAX_EXCLUSIVE_RATE
    }
}

fn is_candidate(c: &ConfigRange, f32_stereo: bool) -> (b: bool)
    ensures
        b == exclusive_candidate(*c, f32_stereo),
{
    c.min_rate <= MAX_EXCLUSIVE_RATE && capped(c) > 0 && (!f32_stereo || (c.channels == 2
        && c.format == SampleFormatKind::F32))
}

/// The first candidate with the highest capped rate.
fn fastest_candidate(cfgs: &Vec<ConfigRange>, f32_stereo: bool) -> (r: Option<usize>)
    ensures
        r is None <==> !has_candidate(cfgs@, f32_stereo),
        r matches Some(i) ==> is_first_fastest(cfgs@, i as int, f32_stereo),
{
    let mut best: Option<usize> = None;
    let mut best_rate: u32 = 0;
    let mut k: usize = 0;
    while k < cfgs.len()
        invariant
            k <= cfgs@.len(),
            best is None <==> forall|j: int|
                0 <= j < k ==> !exclusive_candidate(#[trigger] cfgs@[j], f32_stereo),
            best is None ==> best_rate == 0,
            best matches Some(i) ==> {
                &&& i < k
                &&& exclusive_candidate(cfgs@[i as int], f32_stereo)
                &&& best_rate == capped_rate(cfgs@[i as int])
                &&& forall|j: int|
                    0 <= j < k && exclusive_candidate(#[trigger] cfgs@[j], f32_stereo)
                        ==> capped_rate(cfgs@[j]) <= best_rate
                &&& forall|j: int|
                    0 <= j < i && exclusive_candidate(#[trigger] cfgs@[j], f32_stereo)
                        ==> capped_rate(cfgs@[j]) < best_rate
            },
        decreases cfgs.len() - k,
    {
        let c = &cfgs[k];
        if is_candidate(c, f32_stereo) {
            let rate = capped(c);
            if rate > best_rate {
                best = Some(k);
                best_rate = rate;
            }
        }
        k = k + 1;
    }
    best
}

/// The configuration and rate to open a device with in exclusive mode: the
/// first stereo F32 configuration with the highest rate up to
/// `MAX_EXCLUSIVE_RATE`; when there is none, the first configuration of any
/// format and channel count with the highest such rate.
pub fn choose_exclusive_config(cfgs: &Vec<ConfigRange>) -> (r: Result<
    (usize, u32),
    ExclusiveConfigError,
>)
    ensures
        r == Err::<(usize, u32), _>(ExclusiveConfigError::NoConfigs) <==> cfgs@.len() == 0,
        r == Err::<(usize, u32), _>(ExclusiveConfigError::NoneSuitable) <==> (cfgs@.len() > 0
            && !has_candidate(cfgs@, false)),
        r matches Ok((i, rate)) ==> {
            &&& rate == capped_rate(cfgs@[i as int])
            &&& if has_candidate(cfgs@, true) {
                is_first_fastest(cfgs@, i as int, true)
            } else {
                is_first_fastest(cfgs@, i as int, false)
            }
        },
{
    if cfgs.len() == 0 {
        return Err(ExclusiveConfigError::NoConfigs);
    }
    match fastest_candidate(cfgs, true) {
        Some(i) => {
            proof {
                assert(exclusive_candidate(cfgs@[i as int], false));
            }
            Ok((i, capped(&cfgs[i])))
        },
        None => match fastest_candidate(cfgs, false) {
            Some(i) => Ok((i, capped(&cfgs[i]))),
            None => Err(ExclusiveConfigError::NoneSuitable),
        },
    }
}

// ── Devices ──────────────────────────────────────────────────────────────

/// What a search among device names looks for in a lower-cased name.
#[derive(Debug, Clone, Copy, PartialEq, Eq, Structural)]
pub enum DeviceSearch {
    /// A direct ALSA hardware device (`hw:` or `plughw:`).
    AlsaHardware,
    /// An ALSA device not routed through PulseAudio.
    AlsaNotPulse,
    /// The PipeWire ALSA plugin device.
    PipeWire,
}

/// A lower-cased device name is what `search` looks for.
pub open spec fn name_fits(lower: Seq<char>, search: DeviceSearch) -> bool {
    match search {
        DeviceSearch::AlsaHardware => has_substring(lower, "hw:"@) || has_substring(
            lower,
            "plughw:"@,
        ),
        DeviceSearch::AlsaNotPulse => has_substring(lower, "alsa"@) && !has_substring(
            lower,
            "pulse"@,
        ),
        DeviceSearch::PipeWire => has_substring(lower, "pipewire"@),
    }
}

/// A device whose name could be read fits `search`.
pub open spec fn device_fits(name: Option<String>, search: DeviceSearch) -> bool {
    match name {
        Some(n) => name_fits(lowercase(n@), search),
        None => false,
    }
}

/// `r` is the first device that fits `search`, or `None` when none does.
pub open spec fn is_first_fit(names: Seq<Option<String>>, search: DeviceSearch, r: Option<
    usize,
>) -> bool {
    match r {
        Some(i) => {
            &&& (i as int) < names.len()
            &&& device_fits(names[i as int], search)
            &&& forall|j: int| 0 <= j < i ==> !device_fits(#[trigger] names[j], search)
        },
        None => forall|j: int| 0 <= j < names.len() ==> !device_fits(#[trigger] names[j], search),
    }
}

fn fits(name: &Option<String>, search: DeviceSearch) -> (b: bool)
    ensures
        b == device_fits(*name, search),
{
    match name {
        Some(n) => {
            let lower = to_lowercase(n.as_str());
            let l = lower.as_str();
            match search {
                DeviceSearch::AlsaHardware => contains_text(l, "hw:") || contains_text(
                    l,
                    "plughw:",
                ),
                DeviceSearch::AlsaNotPulse => contains_text(l, "alsa") && !contains_text(
                    l,
                    "pulse",
                ),
                DeviceSearch::PipeWire => contains_text(l, "pipewire"),
            }
        },
        None => false,
    }
}

/// Position of the first device, among those listed by name (`None` where
/// the name could not be read), that fits `search`.
pub fn find_device(names: &Vec<Option<String>>, search: DeviceSearch) -> (r: Option<usize>)
    ensures
        is_first_fit(names@, search, r),
{
    let mut k: usize = 0;
    while k < names.len()
        invariant
            k <= names@.len(),
            forall|j: int| 0 <= j < k ==> !device_fits(#[trigger] names@[j], search),
        decreases names.len() - k,
    {
        if fits(&names[k], search) {
            return Some(k);
        }
        k = k + 1;
    }
    None
}

/// Some device fits `search`.
pub open spec fn has_fit(names: Seq<Option<String>>, search: DeviceSearch) -> bool {
    exists|j: int| 0 <= j < names.len() && device_fits(#[trigger] names[j], search)
}

/// `r` is the device chosen for direct hardware access: the first ALSA
/// hardware device, else the first ALSA device not routed through
/// PulseAudio, else the first PipeWire device, else none.
pub open spec fn is_hardware_choice(names: Seq<Option<String>>, r: Option<usize>) -> bool {
    if has_fit(names, DeviceSearch::AlsaHardware) {
        is_first_fit(names, DeviceSearch::AlsaHardware, r)
    } else if has_fit(names, DeviceSearch::AlsaNotPulse) {
        is_first_fit(names, DeviceSearch::AlsaNotPulse, r)
    } else {
        is_first_fit(names, DeviceSearch::PipeWire, r)
    }
}

/// The device to open for direct hardware access; `None` leaves the
/// default device.
pub fn choose_hardware_device(names: &Vec<Option<String>>) -> (r: Option<usize>)
    ensures
        is_hardware_choice(names@, r),
{
    let hw = find_device(names, DeviceSearch::AlsaHardware);
    if hw.is_some() {
        return hw;
    }
    let alsa = find_device(names, DeviceSearch::AlsaNotPulse);
    if alsa.is_some() {
        return alsa;
    }
    find_device(names, DeviceSearch::PipeWire)
}

// ── PipeWire socket ──────────────────────────────────────────────────────

/// A `u32` written as an optional `+` followed by decimal digits (the
/// strings `u32::from_str` accepts).
pub open spec fn parse_u32_chars(s: Seq<char>) -> Option<u32> {
    let d = if s.len() > 0 && s[0] == '+' {
        s.subrange(1, s.len() as int)
    } else {
        s
    };
    if d.len() > 0 && all_digits(d) && digits_value(d) <= u32::MAX {
        Some(digits_value(d) as u32)
    } else {
        None
    }
}

/// Parse `s` as a `u32`.
pub fn parse_u32(s: &str) -> (r: Option<u32>)
    ensures
        r == parse_u32_chars(s@),
{
    let t = to_chars(s);
    let a: usize = if t.len() > 0 && t[0] == '+' {
        1
    } else {
        0
    };
    let b = t.len();
    assert(t@.subrange(0, b as int) =~= t@);
    if a == b || !all_digits_in(&t, a, b) {
        return None;
    }
    match digits_upto(&t, a, b, 4294967295u128) {
        Some(v) => Some(v as u32),
        None => None,
    }
}

/// Position just after the last `/` of `s` (0 when there is none).
pub open spec fn last_component_start(s: Seq<char>) -> int
    decreases s.len(),
{
    if s.len() == 0 {
        0
    } else if s.last() == '/' {
        s.len() as int
    } else {
        last_component_start(s.drop_last())
    }
}

/// The part of `s` after its last `/` (all of `s` when there is none).
pub open spec fn last_component(s: Seq<char>) -> Seq<char> {
    s.subrange(last_component_start(s), s.len() as int)
}

/// The user id named by the last component of a runtime directory such as
/// `/run/user/1000`.
pub fn uid_from_runtime_dir(dir: &str) -> (r: Option<u32>)
    ensures
        r == parse_u32_chars(last_component(dir@)),
{
    let t = to_chars(dir);
    let mut k = t.len();
    assert(t@.take(t@.len() as int) =~= t@);
    while k > 0 && t[k - 1] != '/'
        invariant
            k <= t@.len(),
            t@ == dir@,
            last_component_start(t@.take(k as int)) == last_component_start(t@),
        decreases k,
    {
        assert(t@.take(k as int).drop_last() =~= t@.take(k - 1));
        k = k - 1;
    }
    proof {
        if k > 0 {
            assert(t@.take(k as int).last() == '/');
        }
        assert(last_component_start(t@) == k);
    }
    let mut rest: Vec<char> = Vec::new();
    let mut i = k;
    while i < t.len()
        invariant
            k <= i <= t@.len(),
            rest@ == t@.subrange(k as int, i as int),
        decreases t.len() - i,
    {
        rest.push(t[i]);
        assert(rest@ =~= t@.subrange(k as int, i + 1));
        i = i + 1;
    }
    let s = chars_to_string(&rest);
    parse_u32(s.as_str())
}

/// The user id that locates the PipeWire socket: the one named by the
/// runtime directory, else the one in the `UID` variable, else the
/// operating system's (none where it has none).
pub open spec fn current_uid_of(
    runtime_dir: Option<Seq<char>>,
    uid_var: Option<Seq<char>>,
    os_uid: Option<u32>,
) -> Option<u32> {
    let from_dir = match runtime_dir {
        Some(d) => parse_u32_chars(last_component(d)),
        None => None,
    };
    let from_var = match uid_var {
        Some(u) => parse_u32_chars(u),
        None => None,
    };
    if from_dir is Some {
        from_dir
    } else if from_var is Some {
        from_var
    } else {
        os_uid
    }
}

/// The current user's id from the runtime directory (when set), the `UID`
/// variable (when set) and the operating system's answer.
pub fn current_uid(runtime_dir: Option<&str>, uid_var: Option<&str>, os_uid: Option<u32>) -> (r:
    Option<u32>)
    ensures
        r == current_uid_of(
            match runtime_dir {
                Some(d) => Some(d@),
                None => None,
            },
            match uid_var {
                Some(u) => Some(u@),
                None => None,
            },
            os_uid,
        ),
{
    if let Some(d) = runtime_dir {
        let u = uid_from_runtime_dir(d);
        if u.is_some() {
            return u;
        }
    }
    if let Some(v) = uid_var {
        let u = parse_u32(v);
        if u.is_some() {
            return u;
        }
    }
    os_uid
}

/// Path of the PipeWire socket of user `uid`.
pub open spec fn pipewire_socket_text(uid: u32) -> Seq<char> {
    "/run/user/"@ + decimal_chars(uid as nat) + "/pipewire-0"@
}

/// Path of the PipeWire socket of user `uid`.
pub fn pipewire_socket_path(uid: u32) -> (p: String)
    ensures
        p@ == pipewire_socket_text(uid),
{
    let mut out: Vec<char> = Vec::new();
    push_str(&mut out, "/run/user/");
    push_decimal(&mut out, uid as u64);
    push_str(&mut out, "/pipewire-0");
    chars_to_string(&out)
}

// ── Stream errors ────────────────────────────────────────────────────────

/// An error reported by a running output stream.
#[derive(Debug, Clone)]
pub enum StreamFailure {
    /// The device is no longer available.
    DeviceNotAvailable,
    /// A backend-specific error with its description.
    BackendSpecific(String),
}

/// A lower-cased error description tells of a device that went away.
pub open spec fn tells_device_change(lower: Seq<char>) -> bool {
    has_substring(lower, "disconnect"@) || has_substring(lower, "unavailable"@) || has_substring(
        lower,
        "removed"@,
    ) || has_substring(lower, "unplugged"@)
}

/// Whether a stream error means that the output device changed or went
/// away (so that the output is opened again on the new default device).
pub fn is_device_change_error(err: &StreamFailure) -> (r: bool)
    ensures
        r == (match err {
            StreamFailure::DeviceNotAvailable => true,
            StreamFailure::BackendSpecific(d) => tells_device_change(lowercase(d@)),
        }),
{
    match err {
        StreamFailure::DeviceNotAvailable => true,
        StreamFailure::BackendSpecific(d) => {
            let lower = to_lowercase(d.as_str());
            let l = lower.as_str();
            contains_text(l, "disconnect") || contains_text(l, "unavailable") || contains_text(
                l,
                "removed",
            ) || contains_text(l, "unplugged")
        },
    }
}

} // verus!
