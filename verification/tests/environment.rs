use sysx::env::{get_args, get_full_str_args, get_str_args, EnvCache};

#[test]
fn test_set_and_get_env() {
    let mut cache = EnvCache::new();
    cache.set_env("TEST_KEY", "test_value");
    assert_eq!(cache.get_env("TEST_KEY").unwrap(), "test_value");
}

#[test]
fn test_set_env_override() {
    let mut cache = EnvCache::new();
    cache.set_env("TEST_OVERRIDE", "old_value");
    cache.set_env("TEST_OVERRIDE", "new_value");
    assert_eq!(cache.get_env("TEST_OVERRIDE").unwrap(), "new_value");
}

#[test]
fn test_get_nonexistent_env() {
    let cache = EnvCache::new();
    assert_eq!(cache.get_env("NONEXISTENT_KEY"), None);
}

#[test]
fn test_get_all_envs() {
    let mut cache = EnvCache::new();
    cache.set_env("TEST_ENV1", "value1");
    cache.set_env("TEST_ENV2", "value2");

    let envs = cache.get_envs();
    assert!(envs.iter().any(|(k, v)| k == "TEST_ENV1" && v == "value1"));
    assert!(envs.iter().any(|(k, v)| k == "TEST_ENV2" && v == "value2"));
    assert_eq!(envs.len(), 2);
}

#[test]
fn test_set_env_keeps_other_keys() {
    let mut cache = EnvCache::new();
    cache.set_env("A", "1");
    cache.set_env("B", "2");
    cache.set_env("A", "3");
    assert_eq!(cache.get_env("A").unwrap(), "3");
    assert_eq!(cache.get_env("B").unwrap(), "2");
}

#[test]
fn test_get_args() {
    let full = vec!["prog".to_string(), "a".to_string(), "b".to_string()];
    let args = get_args(&full);
    assert_eq!(args, vec!["a".to_string(), "b".to_string()]);
}

#[test]
fn test_get_str_args() {
    let full = vec!["prog".to_string(), "a".to_string(), "b".to_string()];
    assert_eq!(get_str_args(&full), "a b");
}

#[test]
fn test_get_full_str_args() {
    let full = vec!["prog".to_string(), "a".to_string(), "b".to_string()];
    assert_eq!(get_full_str_args(&full), "prog a b");
}

#[test]
fn test_get_full_str_args_empty() {
    let full: Vec<String> = Vec::new();
    assert_eq!(get_full_str_args(&full), "");
}
