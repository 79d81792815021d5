use tunecraft::output::{
    choose_exclusive_config, choose_hardware_device, choose_shared_config,
    conversion_buffer_capacity, current_uid, find_device, is_device_change_error, parse_u32,
    pipewire_socket_path, sane_sample_rate, uid_from_runtime_dir, ConfigRange, DeviceSearch,
    ExclusiveConfigError, SampleFormatKind, StreamFailure,
};
use tunecraft::output::SampleFormatKind::{Other, F32, I16};

fn range(channels: u16, format: SampleFormatKind, min_rate: u32, max_rate: u32) -> ConfigRange {
    ConfigRange { channels, format, min_rate, max_rate }
}

#[test]
fn shared_mode_prefers_f32_stereo_at_48k() {
    let cfgs = vec![
        range(2, I16, 8000, 96000),
        range(6, F32, 8000, 96000),
        range(2, F32, 44100, 44100),
        range(2, F32, 8000, 192000),
        range(2, F32, 48000, 48000),
    ];
    assert_eq!(choose_shared_config(&cfgs), Some((3, 48000)));
    let cfgs = vec![range(2, F32, 22050, 44100), range(2, I16, 8000, 96000)];
    assert_eq!(choose_shared_config(&cfgs), Some((0, 44100)));
    let cfgs = vec![range(2, F32, 88200, 96000), range(2, I16, 8000, 96000)];
    assert_eq!(choose_shared_config(&cfgs), Some((0, 96000)));
    let cfgs = vec![range(2, Other, 8000, 96000), range(2, I16, 96000, 96000)];
    assert_eq!(choose_shared_config(&cfgs), Some((1, 96000)));
    let cfgs = vec![range(1, F32, 8000, 96000)];
    assert_eq!(choose_shared_config(&cfgs), None);
    assert_eq!(choose_shared_config(&Vec::new()), None);
}

#[test]
fn sample_rate_and_buffer_fallbacks() {
    assert_eq!(sane_sample_rate(44100), 44100);
    assert_eq!(sane_sample_rate(7999), 48000);
    assert_eq!(sane_sample_rate(8000), 8000);
    assert_eq!(sane_sample_rate(192000), 192000);
    assert_eq!(sane_sample_rate(384000), 48000);
    assert_eq!(conversion_buffer_capacity(Some(4096)), 4096);
    assert_eq!(conversion_buffer_capacity(None), 8192);
}

#[test]
fn exclusive_mode_prefers_fastest_f32_stereo_up_to_192k() {
    let cfgs = vec![
        range(2, I16, 8000, 384000),
        range(2, F32, 8000, 96000),
        range(2, F32, 44100, 768000),
        range(2, F32, 8000, 192000),
    ];
    assert_eq!(choose_exclusive_config(&cfgs), Ok((2, 192000)));
    let cfgs = vec![range(2, I16, 8000, 96000), range(8, Other, 8000, 384000), range(2, F32, 384000, 768000)];
    assert_eq!(choose_exclusive_config(&cfgs), Ok((1, 192000)));
    let cfgs = vec![range(2, F32, 384000, 768000)];
    assert_eq!(choose_exclusive_config(&cfgs), Err(ExclusiveConfigError::NoneSuitable));
    assert_eq!(choose_exclusive_config(&Vec::new()), Err(ExclusiveConfigError::NoConfigs));
}

fn names(v: &[Option<&str>]) -> Vec<Option<String>> {
    v.iter().map(|n| n.map(|s| s.to_string())).collect()
}

#[test]
fn hardware_device_search_order() {
    let list = names(&[Some("default"), Some("PipeWire Sound Server"), None, Some("ALSA: USB DAC"), Some("plughw:CARD=DAC,DEV=0")]);
    assert_eq!(choose_hardware_device(&list), Some(4));
    let list = names(&[Some("PulseAudio via ALSA"), Some("pipewire"), Some("ALSA: USB DAC")]);
    assert_eq!(choose_hardware_device(&list), Some(2));
    let list = names(&[Some("default"), Some("PipeWire")]);
    assert_eq!(choose_hardware_device(&list), Some(1));
    let list = names(&[Some("default"), None]);
    assert_eq!(choose_hardware_device(&list), None);
    let list = names(&[Some("HW:0,0")]);
    assert_eq!(find_device(&list, DeviceSearch::AlsaHardware), Some(0));
    assert_eq!(find_device(&list, DeviceSearch::PipeWire), None);
}

#[test]
fn uid_sources_in_order() {
    assert_eq!(parse_u32("1000"), Some(1000));
    assert_eq!(parse_u32("+7"), Some(7));
    assert_eq!(parse_u32("-7"), None);
    assert_eq!(parse_u32("4294967295"), Some(4294967295));
    assert_eq!(parse_u32("4294967296"), None);
    assert_eq!(parse_u32(""), None);
    assert_eq!(parse_u32("+"), None);
    assert_eq!(parse_u32(" 1"), None);
    assert_eq!(uid_from_runtime_dir("/run/user/1000"), Some(1000));
    assert_eq!(uid_from_runtime_dir("/run/user/1000/"), None);
    assert_eq!(uid_from_runtime_dir("42"), Some(42));
    assert_eq!(current_uid(Some("/run/user/1001"), Some("5"), Some(9)), Some(1001));
    assert_eq!(current_uid(Some("/tmp/runtime"), Some("5"), Some(9)), Some(5));
    assert_eq!(current_uid(None, Some("x"), Some(9)), Some(9));
    assert_eq!(current_uid(None, None, None), None);
    assert_eq!(pipewire_socket_path(1000), "/run/user/1000/pipewire-0");
}

#[test]
fn device_change_errors() {
    assert!(is_device_change_error(&StreamFailure::DeviceNotAvailable));
    assert!(is_device_change_error(&StreamFailure::BackendSpecific("Device Disconnected".into())));
    assert!(is_device_change_error(&StreamFailure::BackendSpecific("USB UNPLUGGED".into())));
    assert!(is_device_change_error(&StreamFailure::BackendSpecific("node removed".into())));
    assert!(is_device_change_error(&StreamFailure::BackendSpecific("is unavailable".into())));
    assert!(!is_device_change_error(&StreamFailure::BackendSpecific("buffer xrun".into())));
}
