use tinifier::codec::create_hash;
use tinifier::codec::is_encodable;
use tinifier::ops::add_entry_checked;
use tinifier::ops::add_url_checked;
use tinifier::ops::edit_entry;
use tinifier::ops::get_url;
use tinifier::ops::AddUrlError;
use tinifier::persistence::File;
use tinifier::persistence::InMemory;
use tinifier::persistence::Persistence;
use tinifier::url_entry::UrlEntry;
use tinifier::url_entry::UrlEntryRequest;

const ALPHABET: &str = "0123456789abcdefghijklmnopqrstuvwxyzABCDEFGHIJKLMNOPQRSTUVWXYZ";

/// A long URL whose hash has a short code under the 61-symbol alphabet; the
/// hash is deterministic, so the search always lands on the same one.
fn encodable_url() -> String {
    for i in 0..10000u32 {
        let candidate = format!("https://example.com/{}", i);
        if is_encodable(create_hash(&candidate).unwrap()) {
            return candidate;
        }
    }
    panic!("no encodable url found");
}

/// A long URL whose hash meets a base-62 remainder of 61, the one value the
/// alphabet has no character for.
fn unencodable_url() -> String {
    for i in 0..10000u32 {
        let candidate = format!("https://example.com/{}", i);
        if !is_encodable(create_hash(&candidate).unwrap()) {
            return candidate;
        }
    }
    panic!("no unencodable url found");
}

#[test]
fn insert_on_empty_in_memory_store_returns_an_alphabet_code() {
    let mut store = InMemory::new();
    let url = "https://example.com";
    match add_url_checked(url, "alice", 1, &mut store) {
        Ok(entry) => {
            assert!(!entry.short_url.is_empty());
            assert!(entry.short_url.chars().all(|c| ALPHABET.contains(c)));
            assert_eq!(entry.long_url, url);
            assert_eq!(get_url(&entry.short_url, &store).unwrap().long_url, url);
        },
        Err(AddUrlError::UnencodableHash) => {
            // this hash meets the alphabet's missing remainder; the add is
            // refused rather than performed
            let url = encodable_url();
            let entry = add_url_checked(&url, "alice", 1, &mut store).unwrap();
            assert!(!entry.short_url.is_empty());
            assert!(entry.short_url.chars().all(|c| ALPHABET.contains(c)));
            assert_eq!(entry.long_url, url);
        },
        Err(AddUrlError::Collision) => panic!("empty store reported a collision"),
    }
}

#[test]
fn inserting_the_same_long_url_twice_reports_a_collision() {
    let mut store = InMemory::new();
    let url = encodable_url();
    let first = add_url_checked(&url, "alice", 1, &mut store);
    assert!(first.is_ok());
    let second = add_url_checked(&url, "alice", 2, &mut store);
    assert_eq!(second.unwrap_err(), AddUrlError::Collision);
}

#[test]
fn an_unencodable_hash_is_reported_and_stores_nothing() {
    let mut store = InMemory::new();
    let url = unencodable_url();
    let r = add_url_checked(&url, "alice", 1, &mut store);
    assert_eq!(r.unwrap_err(), AddUrlError::UnencodableHash);

    let entry = UrlEntry::new(&url, "", "alice", 1);
    assert!(add_entry_checked(entry, 2, &mut store).is_none());
}

#[test]
fn contains_key_consults_the_actual_state() {
    let mut mem = InMemory::new();
    assert!(!mem.contains_key("ab"));
    mem.insert("ab", UrlEntry::new("example", "ab", "alice", 1));
    assert!(mem.contains_key("ab"));
    assert!(!mem.contains_key("cd"));

    let mut file = File::new();
    assert!(!file.contains_key("ab"));
    file.insert("ab", UrlEntry::new("example", "ab", "alice", 1));
    assert!(file.contains_key("ab"));
    assert!(!file.contains_key("cd"));
}

#[test]
fn add_entry_recomputes_the_short_code_and_restamps_creation() {
    let mut store = InMemory::new();
    let url = encodable_url();
    let mut raw = UrlEntry::new(&url, "ignoredcode", "bob", 1);
    raw.expiration_date = Some(6);
    let stored = add_entry_checked(raw, 42, &mut store).unwrap();
    assert_ne!(stored.short_url, "ignoredcode");
    assert!(stored.short_url.chars().all(|c| ALPHABET.contains(c)));
    assert_eq!(stored.creation_date, 42);
    assert_eq!(stored.expiration_date, Some(6));
    assert_eq!(stored.author, "bob");
    assert!(store.contains_key(&stored.short_url));
}

#[test]
fn edit_entry_merges_but_does_not_write_back() {
    let mut store = InMemory::new();
    store.insert("ab", UrlEntry::new("oldurl", "ab", "alice", 1));
    let request = UrlEntryRequest {
        long_url: Some("newurl".to_string()),
        short_url: None,
        expiration_date: None,
        author: "bob".to_string(),
    };
    let merged = edit_entry("ab", request, &store).unwrap();
    assert_eq!(merged.long_url, "newurl");
    assert_eq!(merged.author, "alice");
    // the store still holds the unmerged entry
    assert_eq!(store.get("ab").unwrap().long_url, "oldurl");
}

#[test]
fn edit_entry_of_an_absent_key_is_none() {
    let store = InMemory::new();
    let request = UrlEntryRequest {
        long_url: None,
        short_url: None,
        expiration_date: None,
        author: "bob".to_string(),
    };
    assert!(edit_entry("zz", request, &store).is_none());
}

#[test]
fn in_memory_remove_returns_the_entry_and_forgets_the_key() {
    let mut store = InMemory::new();
    store.insert("ab", UrlEntry::new("example", "ab", "alice", 1));
    let removed = store.remove("ab").unwrap();
    assert_eq!(removed.long_url, "example");
    assert!(store.get("ab").is_none());
    assert!(store.remove("ab").is_none());
}

#[test]
fn inserting_under_an_occupied_key_overwrites() {
    let mut store = InMemory::new();
    store.insert("ab", UrlEntry::new("first", "ab", "alice", 1));
    store.insert("ab", UrlEntry::new("second", "ab", "bob", 2));
    let held = store.get("ab").unwrap();
    assert_eq!(held.long_url, "second");
    assert_eq!(held.author, "bob");
}

#[test]
fn file_backed_values_survive_into_a_second_lifetime_with_reset_timestamps() {
    // lifetime one: write two entries through the file-backed store
    let mut first_life = File::new();
    let mut e1 = UrlEntry::new("example", "k1", "alice", 5);
    e1.expiration_date = Some(50);
    first_life.insert("k1", e1);
    first_life.insert("k2", UrlEntry::new("another", "k2", "bob", 6));
    let lines = first_life.file_lines().clone();

    // lifetime two: load the log back
    let second_life = File::from_lines(lines, 99);
    let r1 = second_life.get("k1").unwrap();
    assert_eq!(r1.long_url, "example");
    assert_eq!(r1.author, "alice");
    // timestamps are reset by the lossy parse, not restored
    assert_eq!(r1.creation_date, 99);
    assert_eq!(r1.expiration_date, None);
    let r2 = second_life.get("k2").unwrap();
    assert_eq!(r2.long_url, "another");
    assert_eq!(r2.author, "bob");
}

#[test]
fn a_long_url_off_the_grammar_does_not_survive_the_log() {
    let mut first_life = File::new();
    first_life.insert("k1", UrlEntry::new("https://example.com", "k1", "alice", 5));
    assert!(first_life.get("k1").is_some());
    let second_life = File::from_lines(first_life.file_lines().clone(), 9);
    // the line does not parse, so the entry is silently dropped on load
    assert!(second_life.get("k1").is_none());
}

#[test]
fn removing_a_key_that_is_a_substring_of_another_line_drops_that_line_too() {
    let mut store = File::new();
    // the line of "xy" is "xy:aabbcc,None,1,bob", which contains "ab"
    store.insert("xy", UrlEntry::new("aabbcc", "xy", "bob", 1));
    store.insert("ab", UrlEntry::new("zzz", "ab", "bob", 1));

    let removed = store.remove("ab").unwrap();
    assert_eq!(removed.long_url, "zzz");
    // the cache still serves the unrelated entry in this lifetime
    assert!(store.get("xy").is_some());
    // but its line was filtered out of the log by the substring match
    let reloaded = File::from_lines(store.file_lines().clone(), 2);
    assert!(reloaded.get("xy").is_none());
    assert!(reloaded.get("ab").is_none());
}

#[test]
fn removing_an_unrelated_key_keeps_other_lines() {
    let mut store = File::new();
    store.insert("xy", UrlEntry::new("aabbcc", "xy", "bob", 1));
    store.insert("qq", UrlEntry::new("zzz", "qq", "bob", 1));
    store.remove("qq");
    let reloaded = File::from_lines(store.file_lines().clone(), 2);
    assert!(reloaded.get("xy").is_some());
    assert!(reloaded.get("qq").is_none());
}
