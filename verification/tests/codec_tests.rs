use tinifier::codec::create_hash;
use tinifier::codec::encode_hash;
use tinifier::codec::is_encodable;

const ALPHABET: &str = "0123456789abcdefghijklmnopqrstuvwxyzABCDEFGHIJKLMNOPQRSTUVWXYZ";

#[test]
fn same_input_same_output_hash() {
    assert_eq!(create_hash("blob"), create_hash("blob"));
}

#[test]
fn hash_doesnt_trivially_collide() {
    assert_ne!(create_hash("blob"), create_hash("bolb"));
}

#[test]
fn hash_is_deterministic_across_repeated_calls() {
    let first = create_hash("https://example.com");
    for _ in 0..10 {
        assert_eq!(create_hash("https://example.com"), first);
    }
}

#[test]
fn near_duplicate_strings_hash_differently() {
    let pairs = [
        ("blob", "bolb"),
        ("abcd", "abdc"),
        ("hello", "ehllo"),
        ("stressed", "desserts"),
        ("example", "exampel"),
        ("short", "shrot"),
    ];
    for (a, b) in pairs {
        assert_ne!(create_hash(a), create_hash(b), "{} vs {}", a, b);
    }
}

#[test]
fn encode_of_zero_is_the_empty_string() {
    assert_eq!(encode_hash(0), "");
}

#[test]
fn encode_uses_known_positions_of_the_alphabet() {
    // least significant remainder first; '7' is absent, so index 9 is 'a'
    assert_eq!(encode_hash(1), "1");
    assert_eq!(encode_hash(9), "a");
    assert_eq!(encode_hash(35), "A");
    assert_eq!(encode_hash(62), "01");
    assert_eq!(encode_hash(63), "11");
}

#[test]
fn encode_stays_inside_the_alphabet_and_is_nonempty_for_positive_hashes() {
    for h in [1u64, 7, 61, 600, 3843, 1234567890123] {
        if is_encodable(h) {
            let code = encode_hash(h);
            assert!(!code.is_empty());
            for c in code.chars() {
                assert!(ALPHABET.contains(c), "{} not in alphabet", c);
            }
        }
    }
}

#[test]
fn a_remainder_of_sixty_one_is_not_encodable() {
    assert!(!is_encodable(61));
    assert!(is_encodable(0));
    assert!(is_encodable(60));
    assert!(!is_encodable(61 + 62 * 5));
}
