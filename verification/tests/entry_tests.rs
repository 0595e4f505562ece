use tinifier::url_entry::UrlEntry;
use tinifier::url_entry::UrlEntryRequest;

#[test]
fn doesnt_accept_bad_urls() {
    let entry = UrlEntry::new("  asdf )(*)", "", "SYSTEM", 0);
    assert!(!entry.has_valid_url());
}

#[test]
fn accepts_alphanumeric_urls_only() {
    assert!(UrlEntry::new("example123", "ab", "alice", 1).has_valid_url());
    assert!(!UrlEntry::new("", "ab", "alice", 1).has_valid_url());
    assert!(!UrlEntry::new("https://example.com", "ab", "alice", 1).has_valid_url());
}

#[test]
fn to_file_string_has_the_documented_shape() {
    let entry = UrlEntry::new("example", "abc", "alice", 77);
    assert_eq!(entry.to_file_string(), "abc:example,None,77,alice");

    let mut with_expiration = UrlEntry::new("example", "abc", "alice", 77);
    with_expiration.expiration_date = Some(5);
    assert_eq!(with_expiration.to_file_string(), "abc:example,Some(5),77,alice");
}

#[test]
fn line_round_trip_keeps_short_code_and_author_but_not_timestamps() {
    let mut entry = UrlEntry::new("example", "abc", "alice", 77);
    entry.expiration_date = Some(123);
    let line = entry.to_file_string();
    let parsed = UrlEntry::from_line(&line, 99).unwrap();
    assert_eq!(parsed.short_url, entry.short_url);
    assert_eq!(parsed.author, entry.author);
    assert_eq!(parsed.long_url, entry.long_url);
    // the persisted timestamps are discarded, not restored
    assert_eq!(parsed.expiration_date, None);
    assert_eq!(parsed.creation_date, 99);
}

#[test]
fn from_line_rejects_lines_off_the_grammar() {
    assert!(UrlEntry::from_line("", 0).is_err());
    assert!(UrlEntry::from_line("no colon here", 0).is_err());
    assert!(UrlEntry::from_line(":empty,None,1,bob", 0).is_err());
    assert!(UrlEntry::from_line("ab:,None,1,bob", 0).is_err());
    assert!(UrlEntry::from_line("ab:url,None,1,", 0).is_err());
    assert!(UrlEntry::from_line("ab:url,onlyonecomma", 0).is_err());
    assert!(UrlEntry::from_line("a_b:url,None,1,bob", 0).is_err());
    assert!(UrlEntry::from_line("ab:url with space,None,1,bob", 0).is_err());
}

#[test]
fn from_line_accepts_a_grammar_conforming_line() {
    let parsed = UrlEntry::from_line("x9Z:long_word,anything here,more,bob_2", 42).unwrap();
    assert_eq!(parsed.short_url, "x9Z");
    assert_eq!(parsed.long_url, "long_word");
    assert_eq!(parsed.author, "bob_2");
    assert_eq!(parsed.expiration_date, None);
    assert_eq!(parsed.creation_date, 42);
}

#[test]
fn merge_with_only_long_url_changes_nothing_else() {
    let mut entry = UrlEntry::new("oldurl", "abc", "alice", 7);
    let request = UrlEntryRequest {
        long_url: Some("newurl".to_string()),
        short_url: None,
        expiration_date: None,
        author: "mallory".to_string(),
    };
    entry.merge_with(&request);
    assert_eq!(entry.long_url, "newurl");
    assert_eq!(entry.short_url, "abc");
    assert_eq!(entry.creation_date, 7);
    assert_eq!(entry.author, "alice");
    assert_eq!(entry.expiration_date, None);
}

#[test]
fn merge_keeps_own_expiration_when_request_has_none() {
    let mut entry = UrlEntry::new("oldurl", "abc", "alice", 7);
    entry.expiration_date = Some(11);
    let request = UrlEntryRequest {
        long_url: None,
        short_url: None,
        expiration_date: None,
        author: "alice".to_string(),
    };
    entry.merge_with(&request);
    assert_eq!(entry.expiration_date, Some(11));
    assert_eq!(entry.long_url, "oldurl");
}

#[test]
fn assoc_with_replaces_the_author_unconditionally() {
    let entry = UrlEntry::new("oldurl", "abc", "alice", 7);
    let request = UrlEntryRequest {
        long_url: None,
        short_url: None,
        expiration_date: Some(9),
        author: "bob".to_string(),
    };
    let updated = entry.assoc_with(&request);
    assert_eq!(updated.author, "bob");
    assert_eq!(updated.long_url, "oldurl");
    assert_eq!(updated.short_url, "abc");
    assert_eq!(updated.creation_date, 7);
    assert_eq!(updated.expiration_date, Some(9));
    // the original is untouched
    assert_eq!(entry.author, "alice");
}
