//! Tests of the base-61 codec and the randomized token padding.
use shortener::url_id::{
    alphabet, base_10_to_61, base_61_to_10, get_char_position, normalize_length, UrlIDError,
    DELIM_CHAR,
};

#[test]
fn test_base_conversion() {
    let alpha = alphabet();
    let input_max = 1000;
    for i in 0..input_max {
        let token: String = base_10_to_61(i, &alpha);
        let id: i64 = base_61_to_10(token.clone(), &alpha).unwrap();
        assert_eq!(i, id);
    }
}

#[test]
fn round_trip_over_the_first_hundred_thousand_ids() {
    let alpha = alphabet();
    for id in 0..100_000i64 {
        let token = base_10_to_61(id, &alpha);
        assert_eq!(base_61_to_10(token, &alpha).unwrap(), id);
    }
}

#[test]
fn round_trip_at_base_power_boundaries() {
    let alpha = alphabet();
    let mut boundaries: Vec<i64> = vec![0, 1, 60, 61, 62];
    let mut p: i64 = 61;
    for _ in 0..9 {
        p *= 61;
        boundaries.push(p - 1);
        boundaries.push(p);
        boundaries.push(p + 1);
    }
    boundaries.push(i64::MAX);
    for id in boundaries {
        let token = base_10_to_61(id, &alpha);
        assert_eq!(base_61_to_10(token, &alpha).unwrap(), id);
    }
}

#[test]
fn encode_uses_only_alphabet_characters() {
    let alpha = alphabet();
    for id in [0i64, 1, 60, 61, 12345, 987654321, i64::MAX] {
        let token = base_10_to_61(id, &alpha);
        for c in token.chars() {
            assert!(alpha.contains(&c), "{c} is not an alphabet digit");
            assert_ne!(c, DELIM_CHAR);
        }
    }
}

#[test]
fn encode_of_zero_is_first_alphabet_character() {
    let alpha = alphabet();
    assert_eq!(base_10_to_61(0, &alpha), "0");
}

#[test]
fn decode_rejects_characters_outside_the_alphabet() {
    let alpha = alphabet();
    for bad in ["g", "ab g", "abc!", "Ω12"] {
        let r = base_61_to_10(bad.to_string(), &alpha);
        assert!(matches!(r, Err(UrlIDError::ParseFailure(_))), "{bad} was accepted");
    }
}

#[test]
fn decode_rejects_values_that_do_not_fit() {
    let alpha = alphabet();
    let r = base_61_to_10("ZZZZZZZZZZZZZZZZ".to_string(), &alpha);
    assert!(matches!(r, Err(UrlIDError::ParseFailure(_))));
}

#[test]
fn char_position_finds_first_index() {
    let alpha = alphabet();
    assert_eq!(get_char_position('0', &alpha), Some(0));
    assert_eq!(get_char_position('a', &alpha), Some(10));
    assert_eq!(get_char_position('Z', &alpha), Some(60));
    assert_eq!(get_char_position('g', &alpha), None);
    assert_eq!(get_char_position('!', &alpha), None);
}

#[test]
fn short_tokens_are_padded_to_the_minimum_length() {
    let alpha = alphabet();
    let padded = normalize_length("ab".to_string(), 6, &alpha, DELIM_CHAR);
    assert_eq!(padded.len(), 6);
    assert!(padded.starts_with("ab"));
    assert_eq!(padded.chars().nth(2), Some(DELIM_CHAR));
    for c in padded.chars().skip(3) {
        assert!(alpha.contains(&c));
        assert_ne!(c, DELIM_CHAR);
    }
}

#[test]
fn long_enough_tokens_are_left_unchanged() {
    let alpha = alphabet();
    let input = "abcdef".to_string();
    assert_eq!(normalize_length(input.clone(), 6, &alpha, DELIM_CHAR), input);
    let longer = "abcdefhij".to_string();
    assert_eq!(normalize_length(longer.clone(), 6, &alpha, DELIM_CHAR), longer);
}

#[test]
fn padded_token_prefix_still_decodes() {
    let alpha = alphabet();
    for id in [0i64, 1, 7, 61, 3720, 1000000] {
        let core = base_10_to_61(id, &alpha);
        let token = normalize_length(core, 6, &alpha, DELIM_CHAR);
        assert!(token.len() >= 6);
        let prefix: &str = token.split(DELIM_CHAR).next().unwrap();
        assert_eq!(base_61_to_10(prefix.to_string(), &alpha).unwrap(), id);
    }
}
