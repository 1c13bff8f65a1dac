use retrohub::settings::SettingsManager;

#[test]
fn settings_defaults() {
    let s = SettingsManager::new();
    assert_eq!(s.get("theme"), "tokyo-night");
    assert_eq!(s.get("animations"), "true");
    assert_eq!(s.get("audio"), "true");
    assert_eq!(s.get("missing"), "");
}

#[test]
fn settings_read_after_write() {
    let mut s = SettingsManager::new();
    s.set("theme", "nord");
    assert_eq!(s.get("theme"), "nord");
    assert_eq!(s.get("audio"), "true");
    s.set("volume", "7");
    assert_eq!(s.get("volume"), "7");
}

#[test]
fn settings_get_gives_the_last_of_many_sets() {
    let mut s = SettingsManager::new();
    s.set("theme", "nord");
    s.set("volume", "3");
    s.set("theme", "gruvbox");
    s.set("volume", "7");
    assert_eq!(s.get("theme"), "gruvbox");
    assert_eq!(s.get("volume"), "7");
    assert_eq!(s.get("audio"), "true");
    assert_eq!(s.get("missing"), "");
}
