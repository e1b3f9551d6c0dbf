use tts_pipeline::cache::{
    count_removed, ends_with_wav, file_id_of_digest, has_wav_extension, AudioCache, EntryState,
    FileInfo,
};

#[test]
fn test_file_id_generation() {
    let cache = AudioCache::new("/tmp/test_cache", 3600);

    let id1 = cache.get_file_id("Hello, world!", None);
    let id2 = cache.get_file_id("Hello, world!", None);
    let id3 = cache.get_file_id("Different text", None);

    assert_eq!(id1, id2);
    assert_ne!(id1, id3);
    assert_eq!(id1.len(), 16);
}

#[test]
fn test_cache_save_and_exists() {
    let cache = AudioCache::new("/tmp/test_cache", 3600);

    let text = "Test audio content";
    let audio_data = vec![0u8; 1024];
    assert_eq!(audio_data.len(), 1024);

    let file_id = cache.save(text, None).file_id;

    let found = cache.lookup(text, None, EntryState::Present { age_secs: 0 });
    assert_eq!(found.file_id, Some(file_id));
}

#[test]
fn test_cache_expiration() {
    let cache = AudioCache::new("/tmp/test_cache_ttl", 1);

    let text = "Expiring content";
    let audio_data = vec![0u8; 512];
    assert_eq!(audio_data.len(), 512);

    cache.save(text, None);

    assert!(cache.lookup(text, None, EntryState::Present { age_secs: 0 }).file_id.is_some());

    let later = cache.lookup(text, None, EntryState::Present { age_secs: 2 });
    assert!(later.file_id.is_none());
    assert!(later.expired);
}

#[test]
fn file_id_is_the_head_of_the_sha256_digest() {
    let cache = AudioCache::new("cache/audio", 3600);
    assert_eq!(cache.get_file_id("Hello, world!", None), "315f5bdb76d078c4");
    assert_eq!(cache.get_file_id("Different text", None), "5712f4f8700c3a64");
    assert_eq!(cache.get_file_id("", None), "e3b0c44298fc1c14");
}

#[test]
fn file_id_covers_the_voice() {
    let cache = AudioCache::new("cache/audio", 3600);
    assert_eq!(cache.get_file_id("Hello, world!", Some("af_alloy")), "e8b23471a1109a5a");
    assert_ne!(
        cache.get_file_id("Hello, world!", Some("af_alloy")),
        cache.get_file_id("Hello, world!", Some("bf_emma"))
    );
    assert_ne!(
        cache.get_file_id("Hello, world!", Some("af_alloy")),
        cache.get_file_id("Hello, world!", None)
    );
}

#[test]
fn file_id_keeps_leading_zeros() {
    let cache = AudioCache::new("cache/audio", 3600);
    let id = cache.get_file_id("text 19", None);
    assert_eq!(id, "014ba2a5c48d1c3b");
    assert_eq!(id.len(), 16);
}

#[test]
fn file_id_of_digest_spells_eight_bytes() {
    let digest = [0x00u8, 0x0f, 0x10, 0xab, 0xcd, 0xef, 0x99, 0xff, 0x12, 0x34];
    assert_eq!(file_id_of_digest(&digest), "000f10abcdef99ff");
}

#[test]
fn file_path_stands_in_the_cache_directory() {
    let id = "315f5bdb76d078c4";
    assert_eq!(
        AudioCache::new("cache/audio", 1).get_file_path(id),
        "cache/audio/315f5bdb76d078c4.wav"
    );
    assert_eq!(AudioCache::new("cache/", 1).get_file_path(id), "cache/315f5bdb76d078c4.wav");
    assert_eq!(AudioCache::new("", 1).get_file_path(id), "315f5bdb76d078c4.wav");
    assert_eq!(AudioCache::new("/", 1).get_file_path(id), "/315f5bdb76d078c4.wav");
}

#[test]
fn cache_remembers_directory_and_ttl() {
    let cache = AudioCache::new("/tmp/test_cache", 3600);
    assert_eq!(cache.cache_dir(), "/tmp/test_cache");
    assert_eq!(cache.ttl_seconds(), 3600);
}

#[test]
fn save_names_identifier_and_path() {
    let cache = AudioCache::new("cache/audio", 3600);
    let target = cache.save("Hello, world!", None);
    assert_eq!(target.file_id, "315f5bdb76d078c4");
    assert_eq!(target.path, "cache/audio/315f5bdb76d078c4.wav");
}

#[test]
fn lookup_misses_without_a_readable_file() {
    let cache = AudioCache::new("cache/audio", 3600);
    let missing = cache.lookup("Hello, world!", None, EntryState::Missing);
    assert_eq!(missing.file_id, None);
    assert!(!missing.expired);
    let unreadable = cache.lookup("Hello, world!", None, EntryState::Unreadable);
    assert_eq!(unreadable.file_id, None);
    assert!(!unreadable.expired);
}

#[test]
fn lookup_at_the_ttl_is_expired() {
    let cache = AudioCache::new("cache/audio", 3600);
    let fresh = cache.lookup("Hello, world!", None, EntryState::Present { age_secs: 3599 });
    assert_eq!(fresh.file_id.as_deref(), Some("315f5bdb76d078c4"));
    assert!(!fresh.expired);
    let stale = cache.lookup("Hello, world!", None, EntryState::Present { age_secs: 3600 });
    assert_eq!(stale.file_id, None);
    assert!(stale.expired);
}

#[test]
fn lookup_with_zero_ttl_never_hits() {
    let cache = AudioCache::new("cache/audio", 0);
    let found = cache.lookup("Hello, world!", None, EntryState::Present { age_secs: 0 });
    assert_eq!(found.file_id, None);
    assert!(found.expired);
}

#[test]
fn wav_extension_needs_a_stem() {
    assert!(has_wav_extension("a.wav"));
    assert!(has_wav_extension("315f5bdb76d078c4.wav"));
    assert!(has_wav_extension("..wav"));
    assert!(has_wav_extension("é.wav"));
    assert!(!has_wav_extension(".wav"));
    assert!(!has_wav_extension("a.WAV"));
    assert!(!has_wav_extension("a.wav.tmp"));
    assert!(!has_wav_extension("wav"));
    assert!(!has_wav_extension(""));
    assert!(ends_with_wav(".wav"));
    assert!(ends_with_wav("a.wav"));
    assert!(!ends_with_wav("a.wave"));
    assert!(!ends_with_wav("wav"));
}

fn file(name: &str, age_secs: Option<u64>) -> FileInfo {
    FileInfo { name: name.to_string(), age_secs }
}

#[test]
fn cleanup_picks_old_wav_files_only() {
    let cache = AudioCache::new("cache/audio", 10);
    let listing = vec![
        file("old.wav", Some(11)),
        file("young.wav", Some(9)),
        file("old.txt", Some(100)),
        file("edge.wav", Some(10)),
        file("unknown.wav", None),
        file(".wav", Some(100)),
        file("older.wav", Some(1_000_000)),
    ];
    assert_eq!(cache.cleanup(&listing), vec![0, 3, 6]);
}

#[test]
fn cleanup_of_nothing_is_nothing() {
    let cache = AudioCache::new("cache/audio", 10);
    assert_eq!(cache.cleanup(&Vec::new()), Vec::<usize>::new());
    assert_eq!(cache.cleanup(&vec![file("a.wav", Some(1))]), Vec::<usize>::new());
}

#[test]
fn count_removed_counts_successes() {
    assert_eq!(count_removed(&vec![true, false, true, true]), 3);
    assert_eq!(count_removed(&vec![false, false]), 0);
    assert_eq!(count_removed(&Vec::new()), 0);
}
