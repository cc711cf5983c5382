use sysx::utils::rand::{random, random_iter, random_range, random_ratio, random_string};

#[test]
fn test_random_generators() {
    let num = random(1, 10).unwrap();
    assert!((1..=10).contains(&num));

    let s = random_string(10, None).unwrap();
    assert_eq!(s.len(), 10);
}

#[test]
fn test_random_int_range() {
    let num = random(5, 15).unwrap();
    assert!(num >= 5 && num <= 15);
}

#[test]
fn test_random_iter() {
    let mut iter = random_iter(1, 10).unwrap();
    let first = iter.next().unwrap();
    assert!(first >= 1 && first <= 10);
}

#[test]
fn rand_test_random_range() {
    let value = random_range(1..=100).unwrap();
    assert!(value >= 1 && value <= 100);
}

#[test]
fn rand_test_random_ratio() {
    let flag = random_ratio(1, 2).unwrap();
    assert!(flag == true || flag == false);
}
