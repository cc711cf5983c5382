use sysx::log::{LogColor, LogLevel};
use sysx::types::better_hash_map::BHashMap;

#[test]
fn test_log_level_styles() {
    assert_eq!(LogLevel::Info.style(), LogColor::Blue);
    assert_eq!(LogLevel::Error.style(), LogColor::Red);
}

#[test]
fn test_log_level_all_styles() {
    assert_eq!(LogLevel::Success.style(), LogColor::Green);
    assert_eq!(LogLevel::Warning.style(), LogColor::Yellow);
    assert_eq!(LogLevel::Bug.style(), LogColor::BrightRed);
    assert_eq!(LogLevel::Fatal.style(), LogColor::BrightRed);
    assert_eq!(LogLevel::Debug.style(), LogColor::Magenta);
    assert_eq!(LogLevel::Trace.style(), LogColor::Cyan);
}

#[test]
fn test_bhashmap_new_is_empty() {
    let map: BHashMap<String, u32> = BHashMap::new();
    assert_eq!(map.inner.len(), 0);
    assert_eq!(map.to_string(), "");
}
