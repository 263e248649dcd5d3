use base64::Engine;
use drakors::password::{
    digest_matches, format_stored, hash_password, hash_password_from, hash_password_with_salt,
    parse_stored, password_verdict, validate_password, verify_password, HashError,
    MIN_PASSWORD_LEN, OUTPUT_LEN, SALT_LEN,
};

fn mutate(stored: &str, at: usize) -> String {
    let mut cs: Vec<char> = stored.chars().collect();
    cs[at] = if cs[at] == 'A' { 'B' } else { 'A' };
    cs.into_iter().collect()
}

#[test]
fn validate_accepts_a_password_that_keeps_all_rules() {
    assert_eq!(validate_password("Abcdefg1"), Ok(()));
    assert_eq!(validate_password("xY9xxxxxxxxxxxxxxxxxxxxx"), Ok(()));
    assert_eq!(validate_password("ÉcoleÉcole7é"), Ok(()));
}

#[test]
fn validate_rejects_a_short_password() {
    assert_eq!(validate_password(""), Err("Password must be at least 8 characters long."));
    assert_eq!(validate_password("Abcdef1"), Err("Password must be at least 8 characters long."));
    assert_eq!(MIN_PASSWORD_LEN, 8);
}

#[test]
fn validate_counts_bytes_for_the_length() {
    // four characters of two bytes each make eight bytes
    assert_eq!(
        validate_password("éééé"),
        Err("Password must contain at least one uppercase letter.")
    );
}

#[test]
fn validate_rejects_a_password_without_uppercase() {
    assert_eq!(
        validate_password("abcdefg1"),
        Err("Password must contain at least one uppercase letter.")
    );
}

#[test]
fn validate_rejects_a_password_without_lowercase() {
    assert_eq!(
        validate_password("ABCDEFG1"),
        Err("Password must contain at least one lowercase letter.")
    );
}

#[test]
fn validate_rejects_a_password_without_digit() {
    assert_eq!(validate_password("Abcdefgh"), Err("Password must contain at least one digit."));
}

#[test]
fn validate_reports_the_first_missing_rule() {
    // nothing but punctuation: uppercase is reported before lowercase and digit
    assert_eq!(
        validate_password("--------"),
        Err("Password must contain at least one uppercase letter.")
    );
    // uppercase only: lowercase is reported before digit
    assert_eq!(
        validate_password("ABCDEFGH"),
        Err("Password must contain at least one lowercase letter.")
    );
    // digits only
    assert_eq!(
        validate_password("12345678"),
        Err("Password must contain at least one uppercase letter.")
    );
    // length comes before everything else
    assert_eq!(validate_password("a"), Err("Password must be at least 8 characters long."));
}

#[test]
fn hash_with_salt_has_the_stored_form() {
    // BLAKE3 of the empty input
    assert_eq!(
        hash_password_with_salt("", &[]),
        "BLAKE3$$rxNJufX5oaagQE3qNtzJSZvLJcmtwRK3zJqTyuQfMmI="
    );
}

#[test]
fn hash_with_salt_hashes_salt_then_password() {
    let salt: Vec<u8> = (0u8..16).collect();
    let password = "Abcdefg1";
    let mut input = salt.clone();
    input.extend_from_slice(password.as_bytes());
    let digest = blake3::hash(&input);
    let expected = format!(
        "BLAKE3${}${}",
        "AAECAwQFBgcICQoLDA0ODw==",
        base64::engine::general_purpose::STANDARD.encode(digest.as_bytes())
    );
    assert_eq!(hash_password_with_salt(password, &salt), expected);
    // the salt and the password are not interchangeable
    assert_ne!(hash_password_with_salt(password, &salt), hash_password_with_salt(password, &[]));
    assert_ne!(
        hash_password_with_salt(password, &salt),
        hash_password_with_salt("Abcdefg2", &salt)
    );
}

#[test]
fn hash_with_salt_splits_input_like_one_hash_of_the_whole() {
    // "a" as salt and "bc" as password hash as "abc" does
    let expected = format!(
        "BLAKE3$YQ==${}",
        base64::engine::general_purpose::STANDARD.encode(blake3::hash(b"abc").as_bytes())
    );
    assert_eq!(hash_password_with_salt("bc", b"a"), expected);
}

#[test]
fn hash_then_verify_is_true() {
    for password in ["Abcdefg1", "Tr0ub4dor&3", "ÉcoleÉcole7é", "", "with$dollar$Signs1"] {
        let stored = hash_password(password).expect("the system gives random bytes");
        assert!(verify_password(password, &stored));
        let salt: Vec<u8> = (0u8..16).collect();
        assert!(verify_password(password, &hash_password_with_salt(password, &salt)));
    }
}

#[test]
fn hash_uses_a_fresh_salt_of_sixteen_bytes() {
    let a = hash_password("Abcdefg1").unwrap();
    let b = hash_password("Abcdefg1").unwrap();
    assert_ne!(a, b);
    let parts: Vec<&str> = a.split('$').collect();
    assert_eq!(parts.len(), 3);
    assert_eq!(parts[0], "BLAKE3");
    let salt = base64::engine::general_purpose::STANDARD.decode(parts[1]).unwrap();
    let digest = base64::engine::general_purpose::STANDARD.decode(parts[2]).unwrap();
    assert_eq!(salt.len(), SALT_LEN);
    assert_eq!(digest.len(), OUTPUT_LEN);
    assert_eq!(parts[1].len(), 24);
    assert_eq!(parts[2].len(), 44);
    assert_eq!(a.len(), 76);
}

#[test]
fn the_fields_of_a_hash_have_four_characters_for_three_bytes() {
    for (len, text_len) in [(0usize, 0usize), (1, 4), (2, 4), (3, 4), (4, 8), (16, 24), (32, 44)] {
        let salt = vec![7u8; len];
        let stored = hash_password_with_salt("Abcdefg1", &salt);
        let (salt_text, digest_text) = parse_stored(&stored).unwrap();
        assert_eq!(salt_text.len(), text_len);
        assert_eq!(digest_text.len(), 44);
    }
}

#[test]
fn verify_is_false_for_a_wrong_password() {
    let salt: Vec<u8> = (0u8..16).collect();
    let stored = hash_password_with_salt("Abcdefg1", &salt);
    assert!(!verify_password("Abcdefg2", &stored));
    assert!(!verify_password("abcdefg1", &stored));
    assert!(!verify_password("", &stored));
    assert!(!verify_password("Abcdefg1 ", &stored));
}

#[test]
fn verify_is_false_for_every_single_character_mutation() {
    let salt: Vec<u8> = (0u8..16).collect();
    let stored = hash_password_with_salt("Abcdefg1", &salt);
    assert!(verify_password("Abcdefg1", &stored));
    for at in 0..stored.chars().count() {
        let changed = mutate(&stored, at);
        assert_ne!(changed, stored);
        assert!(!verify_password("Abcdefg1", &changed), "mutation at {} verifies", at);
    }
}

#[test]
fn verify_is_false_for_malformed_stored_strings() {
    let salt: Vec<u8> = (0u8..16).collect();
    let good = hash_password_with_salt("Abcdefg1", &salt);
    let parts: Vec<&str> = good.split('$').collect();
    assert!(!verify_password("Abcdefg1", ""));
    assert!(!verify_password("Abcdefg1", "BLAKE3"));
    assert!(!verify_password("Abcdefg1", "BLAKE3$abc"));
    assert!(!verify_password("Abcdefg1", &format!("{}$", good)));
    assert!(!verify_password("Abcdefg1", &format!("SHA256${}${}", parts[1], parts[2])));
    assert!(!verify_password("Abcdefg1", &format!("blake3${}${}", parts[1], parts[2])));
    assert!(!verify_password("Abcdefg1", &format!("BLAKE3$not base64!${}", parts[2])));
    assert!(!verify_password("Abcdefg1", &format!("BLAKE3${}$not base64!", parts[1])));
    // a digest of the wrong length
    assert!(!verify_password("Abcdefg1", &format!("BLAKE3${}$AAAA", parts[1])));
    assert!(!verify_password("Abcdefg1", &format!("BLAKE3${}$", parts[1])));
}

#[test]
fn the_verdict_names_the_first_broken_rule() {
    assert_eq!(password_verdict(8, true, true, true), Ok(()));
    assert_eq!(password_verdict(100, true, true, true), Ok(()));
    for (upper, lower, digit) in [
        (false, false, false),
        (true, false, false),
        (false, true, false),
        (false, false, true),
        (true, true, true),
    ] {
        assert_eq!(
            password_verdict(7, upper, lower, digit),
            Err("Password must be at least 8 characters long.")
        );
        assert_eq!(
            password_verdict(0, upper, lower, digit),
            Err("Password must be at least 8 characters long.")
        );
    }
    for (lower, digit) in [(false, false), (true, false), (false, true), (true, true)] {
        assert_eq!(
            password_verdict(8, false, lower, digit),
            Err("Password must contain at least one uppercase letter.")
        );
    }
    for digit in [false, true] {
        assert_eq!(
            password_verdict(8, true, false, digit),
            Err("Password must contain at least one lowercase letter.")
        );
    }
    assert_eq!(
        password_verdict(8, true, true, false),
        Err("Password must contain at least one digit.")
    );
}

#[test]
fn a_stored_hash_is_put_together_and_taken_apart() {
    assert_eq!(format_stored("c2FsdA==", "ZGlnZXN0"), "BLAKE3$c2FsdA==$ZGlnZXN0");
    assert_eq!(format_stored("", ""), "BLAKE3$$");
    assert_eq!(
        parse_stored("BLAKE3$c2FsdA==$ZGlnZXN0"),
        Some(("c2FsdA==".to_string(), "ZGlnZXN0".to_string()))
    );
    assert_eq!(parse_stored("BLAKE3$$"), Some((String::new(), String::new())));
    assert_eq!(parse_stored("BLAKE3$a$b$c"), None);
    assert_eq!(parse_stored("BLAKE3$a"), None);
    assert_eq!(parse_stored("BLAKE2$a$b"), None);
    assert_eq!(parse_stored(" BLAKE3$a$b"), None);
    assert_eq!(parse_stored(""), None);
}

#[test]
fn a_digest_matches_only_itself_at_full_length() {
    let digest: Vec<u8> = (0u8..32).collect();
    let mut other = digest.clone();
    other[31] ^= 1;
    assert!(digest_matches(&digest, &digest));
    assert!(!digest_matches(&other, &digest));
    assert!(!digest_matches(&digest[..31], &digest[..31]));
    assert!(!digest_matches(&[], &[]));
    assert!(!digest_matches(&digest[..31], &digest));
}

#[test]
fn without_a_salt_there_is_no_hash() {
    assert_eq!(hash_password_from("Abcdefg1", None), Err(HashError::NoEntropy));
    assert_eq!(hash_password_from("", None), Err(HashError::NoEntropy));
}

#[test]
fn with_a_salt_the_hash_is_the_one_under_that_salt() {
    let salt: Vec<u8> = (0u8..16).collect();
    let stored = hash_password_from("Abcdefg1", Some(&salt)).unwrap();
    assert_eq!(stored, hash_password_with_salt("Abcdefg1", &salt));
    assert!(verify_password("Abcdefg1", &stored));
    assert_eq!(
        hash_password_from("", Some(&[])),
        Ok("BLAKE3$$rxNJufX5oaagQE3qNtzJSZvLJcmtwRK3zJqTyuQfMmI=".to_string())
    );
}

#[test]
fn base64_takes_no_second_spelling_of_the_same_bytes() {
    // every text of up to four of these signs that decodes is the encoding of what it decodes to
    let signs = ['A', 'B', 'Q', 'g', 'w', 'x', '/', '+', '0', '9', '=', '$', ' ', '-', '_'];
    let engine = base64::engine::general_purpose::STANDARD;
    let mut texts = vec![String::new()];
    let mut taken = 0;
    for _ in 0..4 {
        let mut longer = Vec::new();
        for text in &texts {
            for sign in signs {
                let mut next = text.clone();
                next.push(sign);
                longer.push(next);
            }
        }
        for text in &longer {
            if let Ok(bytes) = engine.decode(text) {
                assert_eq!(&engine.encode(&bytes), text);
                taken += 1;
            }
        }
        texts = longer;
    }
    assert!(taken > 0);
}

#[test]
fn only_the_exact_hash_verifies() {
    let stored = hash_password_with_salt("Abcdefg1", &[1, 2]);
    let (salt_text, digest_text) = parse_stored(&stored).unwrap();
    assert_eq!(salt_text, "AQI=");
    assert!(verify_password("Abcdefg1", &stored));
    // the same salt spelled without padding, or with bits behind its end
    assert!(!verify_password("Abcdefg1", &format_stored("AQI", &digest_text)));
    assert!(!verify_password("Abcdefg1", &format_stored("AQJ=", &digest_text)));
    assert!(!verify_password("Abcdefg1", &format_stored("AQI= ", &digest_text)));
    assert!(!verify_password("Abcdefg1", &format_stored(" AQI=", &digest_text)));
    // the same digest spelled without padding
    let unpadded = digest_text.trim_end_matches('=');
    assert_ne!(unpadded, digest_text);
    assert!(!verify_password("Abcdefg1", &format_stored(&salt_text, unpadded)));
    // what verifies is what hashing under the stored salt gives
    assert_eq!(stored, hash_password_with_salt("Abcdefg1", &[1, 2]));
}
