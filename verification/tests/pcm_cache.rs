use tunecraft::pcm_cache::{PcmBuffer, PcmCache};

fn samples(value: f32, n: usize) -> Vec<u32> {
    vec![value.to_bits(); n]
}

fn duration_secs(buf: &PcmBuffer) -> f64 {
    if buf.sample_rate == 0 || buf.channels == 0 {
        return 0.0;
    }
    buf.samples.len() as f64 / (buf.sample_rate as f64 * buf.channels as f64)
}

#[test]
fn test_pcm_buffer_duration() {
    let buf = PcmBuffer::new(samples(0.0, 96000), 48000, 2);
    assert!((duration_secs(&buf) - 1.0).abs() < 0.01);
}

#[test]
fn test_pcm_buffer_truncate() {
    let mut buf = PcmBuffer::new(samples(0.0, 48000 * 2 * 180), 48000, 2);
    assert!((duration_secs(&buf) - 180.0).abs() < 0.1);
    buf.truncate_to_duration(90);
    assert!((duration_secs(&buf) - 90.0).abs() < 0.1);
}

#[test]
fn truncate_keeps_short_buffers_and_zero_rates() {
    let mut buf = PcmBuffer::new(samples(0.25, 100), 48000, 2);
    buf.truncate_to_duration(90);
    assert_eq!(buf.samples.len(), 100);
    let mut odd = PcmBuffer::new(samples(0.25, 100), 0, 2);
    odd.truncate_to_duration(0);
    assert_eq!(odd.samples.len(), 100);
    let mut all = PcmBuffer::new(samples(0.25, 100), 10, 1);
    all.truncate_to_duration(u64::MAX);
    assert_eq!(all.samples.len(), 100);
    let mut cut = PcmBuffer::new(samples(0.25, 100), 10, 1);
    cut.truncate_to_duration(3);
    assert_eq!(cut.samples.len(), 30);
    assert_eq!(f32::from_bits(cut.samples[0]), 0.25);
}

#[test]
fn test_cache_insert_and_get() {
    let mut cache = PcmCache::new(2);
    let buf = PcmBuffer::new(samples(0.5, 1000), 44100, 2);
    cache.insert("hash1", buf);
    assert!(cache.contains("hash1"));
    let retrieved = cache.get("hash1").unwrap();
    assert_eq!(retrieved.sample_rate, 44100);
}

#[test]
fn test_cache_eviction() {
    let mut cache = PcmCache::new(2);
    cache.insert("hash1", PcmBuffer::new(samples(0.0, 100), 44100, 2));
    cache.insert("hash2", PcmBuffer::new(samples(0.0, 100), 44100, 2));
    cache.insert("hash3", PcmBuffer::new(samples(0.0, 100), 44100, 2));
    assert!(!cache.contains("hash1")); // evicted
    assert!(cache.contains("hash2"));
    assert!(cache.contains("hash3"));
}

#[test]
fn test_cache_clear() {
    let mut cache = PcmCache::new(5);
    cache.insert("hash1", PcmBuffer::new(samples(0.0, 100), 44100, 2));
    cache.clear();
    assert!(cache.is_empty());
}

#[test]
fn get_promotes_and_remove_drops() {
    let mut cache = PcmCache::new(2);
    cache.insert("a", PcmBuffer::new(samples(0.0, 1), 1, 1));
    cache.insert("b", PcmBuffer::new(samples(0.0, 2), 1, 1));
    assert!(cache.get("a").is_some());
    cache.insert("c", PcmBuffer::new(samples(0.0, 3), 1, 1));
    assert!(cache.contains("a"));
    assert!(!cache.contains("b"));
    cache.remove("a");
    assert!(!cache.contains("a"));
    assert_eq!(cache.len(), 1);
    assert!(cache.get("zzz").is_none());
}

#[test]
fn zero_capacity_means_default() {
    let mut cache = PcmCache::new(0);
    for k in ["1", "2", "3", "4", "5", "6"] {
        cache.insert(k, PcmBuffer::new(samples(0.0, 1), 1, 1));
    }
    assert_eq!(cache.len(), 5);
    assert!(!cache.contains("1"));
    let d = PcmCache::with_default_capacity();
    assert!(d.is_empty());
}

#[test]
fn reinserting_a_key_replaces_its_buffer() {
    let mut cache = PcmCache::new(2);
    cache.insert("a", PcmBuffer::new(samples(0.0, 1), 1, 1));
    cache.insert("a", PcmBuffer::new(samples(0.0, 7), 8000, 1));
    assert_eq!(cache.len(), 1);
    assert_eq!(cache.get("a").unwrap().samples.len(), 7);
}
