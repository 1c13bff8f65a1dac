use retrohub::achievements::{all_achievements, AchievementManager};
use retrohub::leaderboard::LeaderboardManager;
use retrohub::resources::ResourceManager;
use retrohub::save::SaveManager;
use std::collections::HashMap;

#[test]
fn save_and_load() {
    let mut s = SaveManager::new();
    assert!(s.load("snake").is_none());
    let mut d = HashMap::new();
    d.insert("score".to_string(), "42".to_string());
    s.save("snake", d.clone());
    assert_eq!(s.load("snake"), Some(&d));
    let mut d2 = HashMap::new();
    d2.insert("score".to_string(), "7".to_string());
    s.save("snake", d2.clone());
    assert_eq!(s.load("snake"), Some(&d2));
    assert!(s.load("pong").is_none());
    assert_eq!(s.saves.len(), 1);
}

#[test]
fn art_is_split_into_lines() {
    let mut r = ResourceManager::new();
    assert!(r.get_art("logo").is_none());
    r.add_art("logo", "ab\r\ncd\n\nef\n");
    let lines = r.get_art("logo").unwrap();
    assert_eq!(lines, &vec!["ab".to_string(), "cd".to_string(), "".to_string(), "ef".to_string()]);
    r.add_art("logo", "x");
    assert_eq!(r.get_art("logo").unwrap(), &vec!["x".to_string()]);
    r.add_art("empty", "");
    assert_eq!(r.get_art("empty").unwrap().len(), 0);
}

#[test]
fn achievements_unlock_once() {
    let mut a = AchievementManager::new();
    assert_eq!(a.count(), 0);
    assert_eq!(a.points(), 0);
    assert!(a.unlock("first_game"));
    assert!(!a.unlock("first_game"));
    assert!(a.is_unlocked("first_game"));
    assert!(!a.is_unlocked("snake_king"));
    assert_eq!(a.count(), 1);
    assert_eq!(a.points(), 10);
    assert!(a.unlock("tetris_clear"));
    assert_eq!(a.points(), 60);
    assert_eq!(a.pct(), 28);
    assert!(a.unlock("not_in_the_list"));
    assert_eq!(a.count(), 3);
    assert_eq!(a.points(), 60);
    assert_eq!(a.pct(), 42);
}

#[test]
fn achievement_list() {
    let all = all_achievements();
    assert_eq!(all.len(), 7);
    assert_eq!(all[0].id, "first_game");
    assert_eq!(all[0].name, "First Steps");
    assert_eq!(all[6].points, 50);
    let total: i32 = all.iter().map(|a| a.points).sum();
    let mut m = AchievementManager::new();
    for a in &all {
        m.unlock(a.id);
    }
    assert_eq!(m.points(), total);
    assert_eq!(m.pct(), 100);
}

#[test]
fn leaderboard_best_first() {
    let mut l = LeaderboardManager::new();
    assert!(l.top("snake", 5).is_empty());
    l.add("snake", "ann", 30);
    l.add("snake", "bob", 50);
    l.add("snake", "cid", 30);
    l.add("snake", "dee", 10);
    l.add("pong", "eve", 99);
    let top = l.top("snake", 3);
    let names: Vec<&str> = top.iter().map(|e| e.0.as_str()).collect();
    assert_eq!(names, vec!["bob", "ann", "cid"]);
    let scores: Vec<i32> = top.iter().map(|e| e.1).collect();
    assert_eq!(scores, vec![50, 30, 30]);
    assert_eq!(l.top("snake", 10).len(), 4);
    assert_eq!(l.top("pong", 10).len(), 1);
    assert_eq!(l.top("snake", 0).len(), 0);
    assert!(top[0].2 > 0);
}

fn record(score: &str) -> HashMap<String, String> {
    let mut d = HashMap::new();
    d.insert("score".to_string(), score.to_string());
    d
}

#[test]
fn load_gives_the_last_of_many_saves() {
    let mut s = SaveManager::new();
    s.save("snake", record("1"));
    s.save("tetris", record("2"));
    s.save("snake", record("3"));
    s.save("pong", record("4"));
    assert_eq!(s.load("snake"), Some(&record("3")));
    assert_eq!(s.load("tetris"), Some(&record("2")));
    assert_eq!(s.load("pong"), Some(&record("4")));
    assert!(s.load("chess").is_none());
}

#[test]
fn get_art_gives_the_last_of_many_adds() {
    let mut r = ResourceManager::new();
    r.add_art("logo", "a\nb");
    r.add_art("ship", "<>");
    r.add_art("logo", "x\r\ny\n");
    let logo: Vec<String> = vec!["x".to_string(), "y".to_string()];
    let ship: Vec<String> = vec!["<>".to_string()];
    assert_eq!(r.get_art("logo"), Some(&logo));
    assert_eq!(r.get_art("ship"), Some(&ship));
    assert!(r.get_art("boat").is_none());
}

#[test]
fn leaderboard_entries_carry_their_time_stamp() {
    let mut l = LeaderboardManager::new();
    l.add_at("tetris", "ann", 300, 1_700_000_000);
    l.add_at("tetris", "bob", 500, 1_700_000_060);
    let top = l.top("tetris", 5);
    assert_eq!(top.len(), 2);
    assert_eq!((top[0].0.as_str(), top[0].1, top[0].2), ("bob", 500, 1_700_000_060));
    assert_eq!((top[1].0.as_str(), top[1].1, top[1].2), ("ann", 300, 1_700_000_000));
    let before = std::time::UNIX_EPOCH.elapsed().unwrap().as_secs();
    l.add("tetris", "cid", 100);
    let after = std::time::UNIX_EPOCH.elapsed().unwrap().as_secs();
    let t = l.top("tetris", 5)[2].2;
    assert!(before <= t && t <= after);
}
