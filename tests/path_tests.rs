use orchestra_sync::content::hash_content;
use orchestra_sync::order::compare_paths;
use orchestra_sync::paths::{conflict_name, is_audio_file, is_excluded_path, is_in_hidden_directory, is_kept_on_device};

#[test]
fn audio_extensions_are_case_insensitive() {
    assert!(is_audio_file("a/b/track.FLAC"));
    assert!(is_audio_file("x.Opus"));
    assert!(is_audio_file("dir.with.dots/x.m4a"));
    assert!(!is_audio_file("readme.txt"));
    assert!(!is_audio_file("flac"));
    assert!(!is_audio_file(".flac"));
    assert!(!is_audio_file("a.flac/readme"));
}

#[test]
fn hidden_directories_are_skipped_on_devices() {
    assert!(is_in_hidden_directory(".Spotlight-V100/Store/x.flac"));
    assert!(is_in_hidden_directory("music/.cache/x.flac"));
    assert!(!is_in_hidden_directory("music/.x.flac"));
    assert!(!is_in_hidden_directory("a\\.b/x.flac"));
    assert!(!is_in_hidden_directory("a:.b/x.flac"));
    assert!(!is_kept_on_device(".Trashes/x.flac"));
    assert!(is_kept_on_device("AC:DC\\live/x.flac"));
}

#[test]
fn exclusion_patterns_use_glob_syntax() {
    let pats = vec!["live/**".to_string(), "*.wma".to_string(), "[".to_string()];
    assert!(is_excluded_path("live/a/b.flac", &pats));
    assert!(is_excluded_path("x.wma", &pats));
    assert!(!is_excluded_path("studio/b.flac", &pats));
}

#[test]
fn conflict_names_keep_the_extension() {
    assert_eq!(conflict_name("t.flac"), "t_conflict.flac");
    assert_eq!(conflict_name("a/b/song.live.mp3"), "a/b/song.live_conflict.mp3");
    assert_eq!(conflict_name("a.d/noext"), "a.d/noext_conflict");
    assert_eq!(conflict_name(".hidden"), ".hidden_conflict");
}

#[test]
fn paths_compare_as_strings() {
    assert_eq!(compare_paths("a", "b"), std::cmp::Ordering::Less);
    assert_eq!(compare_paths("Z", "a"), std::cmp::Ordering::Less);
    assert_eq!(compare_paths("ab", "a"), std::cmp::Ordering::Greater);
    assert_eq!(compare_paths("é", "z"), "é".cmp("z"));
    assert_eq!(compare_paths("same", "same"), std::cmp::Ordering::Equal);
}

#[test]
fn content_hash_is_blake3_hex() {
    assert_eq!(hash_content(b""), "af1349b9f5f9a1a6a0404dea36dcc9499bcb25c9adc112b7cc9a93cae41f3262");
    assert_eq!(hash_content(b"hello").len(), 64);
    assert_ne!(hash_content(b"A"), hash_content(b"B"));
}

#[test]
fn cancel_token_is_shared_between_clones() {
    let token = orchestra_sync::cancel::CancelToken::new();
    let other = token.clone();
    assert!(!token.is_cancelled());
    other.cancel();
    other.cancel();
    assert!(token.is_cancelled());
    assert!(token.flag().load(std::sync::atomic::Ordering::Relaxed));
}
