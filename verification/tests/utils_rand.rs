use sysx::error::SysxError;
use sysx::rand::{random, random_bool, random_bytes, random_iter, random_range, random_ratio,
    random_string};

// random function tests

#[test]
fn test_random_int() {
    for _ in 0..100 {
        let num = random(1, 10).unwrap();
        assert!(num >= 1 && num <= 10);
    }
}

#[test]
fn test_random_inverted_range() {
    let num = random(10, 1).unwrap();
    assert!(num >= 1 && num <= 10);
}

// random_bool tests

#[test]
fn test_random_bool() {
    let mut true_count = 0;
    let mut false_count = 0;

    for _ in 0..1000 {
        if random_bool().unwrap() {
            true_count += 1;
        } else {
            false_count += 1;
        }
    }

    assert!(true_count > 0 && false_count > 0);
}

// random_string tests

#[test]
fn test_random_string_default_charset() {
    let length = 10;
    let s = random_string(length, None).unwrap();

    assert_eq!(s.len(), length);
    assert!(s.chars().all(|c| c.is_ascii_alphanumeric()));
}

#[test]
fn test_random_string_custom_charset() {
    let charset = "ABC123";
    let length = 15;
    let s = random_string(length, Some(charset)).unwrap();

    assert_eq!(s.len(), length);
    assert!(s.chars().all(|c| charset.contains(c)));
}

#[test]
fn test_random_string_empty_charset() {
    let result = random_string(10, Some(""));
    assert!(matches!(result, Err(SysxError::InvalidSyntax(_))));
}

// random_bytes tests

#[test]
fn test_random_bytes() {
    let length = 16;
    let bytes = random_bytes(length).unwrap();

    assert_eq!(bytes.len(), length);

    // The bytes are not all the same
    let unique_bytes: std::collections::HashSet<_> = bytes.iter().collect();
    assert!(unique_bytes.len() > 1);
}

// random_iter tests

#[test]
fn test_random_iterator() {
    let mut iter = random_iter(1, 10).unwrap();

    for _ in 0..100 {
        let num = iter.next().unwrap();
        assert!(num >= 1 && num <= 10);
    }
}

#[test]
fn test_random_iterator_inverted_range() {
    let mut iter = random_iter(10, 1).unwrap();

    for _ in 0..100 {
        let num = iter.next().unwrap();
        assert!(num >= 1 && num <= 10);
    }
}

// random_range tests

#[test]
fn test_random_range() {
    for _ in 0..100 {
        let num = random_range(1..=10).unwrap();
        assert!(num >= 1 && num <= 10);
    }
}

#[test]
fn test_random_range_empty() {
    let result = random_range(10..=1);
    assert!(matches!(result, Err(SysxError::RandomError(_))));
}

// random_ratio tests

#[test]
fn test_random_ratio() {
    let mut true_count = 0;
    let trials = 1000;

    for _ in 0..trials {
        if random_ratio(1, 4).unwrap() {
            true_count += 1;
        }
    }

    // The share of true outcomes is roughly a quarter
    let ratio = true_count as f64 / trials as f64;
    assert!(ratio > 0.15 && ratio < 0.35);
}

#[test]
fn test_random_ratio_zero_denominator() {
    let result = random_ratio(1, 0);
    assert!(matches!(result, Err(SysxError::InvalidSyntax(_))));
}

#[test]
fn test_random_ratio_certain_ends() {
    assert!(random_ratio(3, 3).unwrap());
    assert!(!random_ratio(0, 5).unwrap());
}
