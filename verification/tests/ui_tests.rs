use retrohub::engine::{key_code, AudioManager, GameRegistry, InputEvent, Key, SceneType};
use retrohub::layout::{centered_rect, horizontal_stack, vertical_stack, Rect};
use retrohub::menu::{MainMenuScene, SettingsScene};
use retrohub::nav::{navigate, NavAction, NavState};
use retrohub::settings::SettingsManager;
use retrohub::theme::{Rgb, ThemeManager};

#[test]
fn themes() {
    let mut t = ThemeManager::new();
    assert_eq!(t.themes.len(), 4);
    assert_eq!(t.theme().id, "tokyo-night");
    assert_eq!(t.colors().bg, Rgb::new(26, 27, 38));
    assert!(t.set_by_id("nord"));
    assert_eq!(t.current, 3);
    assert_eq!(t.theme().name, "Nord");
    assert_eq!(t.colors().accent, Rgb::new(136, 192, 208));
    assert!(!t.set_by_id("solarized"));
    assert_eq!(t.current, 3);
}

#[test]
fn main_menu_keys() {
    let mut m = MainMenuScene::new();
    assert_eq!(m.id(), "mainMenu");
    m.handle_key(38, '\0');
    assert_eq!(m.selected, 0);
    for _ in 0..10 {
        m.handle_key(40, '\0');
    }
    assert_eq!(m.selected, 7);
    m.handle_key(9, '\t');
    assert!(m.in_submenu);
    for _ in 0..10 {
        m.handle_key(40, '\0');
    }
    assert_eq!(m.sub_selected, 3);
    assert_eq!(m.selected, 7);
    m.handle_key(9, '\t');
    assert!(!m.in_submenu);
    assert_eq!(m.sub_selected, 0);
}

#[test]
fn settings_scene_picks_a_theme() {
    let mut themes = ThemeManager::new();
    themes.set_by_id("gruvbox");
    let mut s = SettingsScene::new();
    assert_eq!(s.id(), "settings");
    assert_eq!(s.selected_theme_id, "tokyo-night");
    s.refresh(&themes);
    assert_eq!(s.selected, 2);
    assert_eq!(s.selected_theme_id, "gruvbox");
    assert_eq!(s.theme_names[1], "Catppuccin");
    s.handle_key(40, '\0');
    s.handle_key(40, '\0');
    assert_eq!(s.selected, 3);
    s.handle_key(10, '\n');
    assert_eq!(s.selected_theme_id, "nord");
    let mut settings = SettingsManager::new();
    settings.set("theme", &s.selected_theme_id);
    assert_eq!(settings.get("theme"), "nord");
    assert!(themes.set_by_id(settings.get("theme")));
    assert_eq!(themes.current, 3);
}

#[test]
fn layout() {
    let area = Rect::new(10, 5, 60, 20);
    assert_eq!(centered_rect(20, 10, area), Rect { x: 30, y: 10, width: 20, height: 10 });
    assert_eq!(centered_rect(100, 50, area), Rect { x: 10, y: 5, width: 60, height: 20 });
    assert_eq!(Rect::new(65530, 0, 10, 3), Rect { x: 65530, y: 0, width: 5, height: 3 });
    let h = horizontal_stack(area, &[10, 20], 2);
    assert_eq!(h, vec![Rect { x: 24, y: 5, width: 10, height: 20 }, Rect { x: 36, y: 5, width: 20, height: 20 }]);
    let v = vertical_stack(area, &[4, 4, 4], 1);
    assert_eq!(v[0], Rect { x: 10, y: 8, width: 60, height: 4 });
    assert_eq!(v[2], Rect { x: 10, y: 18, width: 60, height: 4 });
    assert!(horizontal_stack(area, &[], 3).is_empty());
}

#[test]
fn keys_and_registry() {
    assert_eq!(key_code(Key::Up), (38, '\0'));
    assert_eq!(key_code(Key::Enter), (10, '\n'));
    assert_eq!(key_code(Key::F(5)), (116, '\0'));
    assert_eq!(key_code(Key::Char('a')), (97, 'a'));
    assert_eq!(key_code(Key::Other), (-1, '\0'));
    assert_eq!(key_code(Key::BackTab), (9, '\t'));
    let r = GameRegistry::new();
    assert_eq!(r.games.len(), 8);
    assert_eq!(r.games[5], ("minesweeper", "Minesweeper"));
    assert!(AudioManager::new().enabled);
    assert_ne!(InputEvent::Key(1, 'a'), InputEvent::Nothing);
    assert_ne!(SceneType::Game, SceneType::MainMenu);
}

#[test]
fn theme_ids_and_names_in_order() {
    let t = ThemeManager::new();
    assert_eq!(t.current, 0);
    let ids: Vec<&str> = t.themes.iter().map(|th| th.id).collect();
    let names: Vec<&str> = t.themes.iter().map(|th| th.name).collect();
    assert_eq!(ids, vec!["tokyo-night", "catppuccin", "gruvbox", "nord"]);
    assert_eq!(names, vec!["Tokyo Night", "Catppuccin", "Gruvbox", "Nord"]);
}

#[test]
fn navigation_through_menus_and_games() {
    let s = NavState::new();
    assert!(s.in_splash);
    // Any key dismisses the splash screen and does nothing else.
    let (s, a) = navigate(s, 40);
    assert_eq!(a, NavAction::Nothing);
    assert!(!s.in_splash);
    assert_eq!(s.menu.selected, 0);
    // Down moves the game cursor; Enter starts that game.
    let (s, a) = navigate(s, 40);
    assert_eq!((s.menu.selected, a), (1, NavAction::Nothing));
    let (s, a) = navigate(s, 10);
    assert_eq!(a, NavAction::Push(1));
    assert_eq!((s.depth, s.top), (1, SceneType::Game));
    // With a game open, keys go to it; Esc closes it.
    let (s, a) = navigate(s, 10);
    assert_eq!(a, NavAction::PassToScene);
    let (s, a) = navigate(s, 37);
    assert_eq!(a, NavAction::PassToScene);
    let (s, a) = navigate(s, 27);
    assert_eq!((s.depth, a), (0, NavAction::Pop));
    // Tab opens the side menu; Enter on Settings opens the settings screen.
    let (s, _) = navigate(s, 9);
    assert!(s.menu.in_submenu);
    let (s, a) = navigate(s, 10);
    assert_eq!(a, NavAction::OpenSettings);
    assert!(s.in_settings);
    let (s, a) = navigate(s, 40);
    assert_eq!(a, NavAction::SettingsKey);
    let (s, a) = navigate(s, 27);
    assert_eq!(a, NavAction::ApplyTheme);
    assert!(!s.in_settings);
    // Esc closes the side menu, then quits.
    let (s, a) = navigate(s, 27);
    assert_eq!(a, NavAction::Nothing);
    assert!(!s.menu.in_submenu);
    let (_, a) = navigate(s, 27);
    assert_eq!(a, NavAction::Stop);
}

#[test]
fn side_menu_exit_quits() {
    let (s, _) = navigate(NavState::new(), 32);
    let (s, _) = navigate(s, 9);
    let (s, _) = navigate(s, 40);
    let (s, a) = navigate(s, 10);
    assert_eq!((s.menu.sub_selected, a), (1, NavAction::Nothing));
    let (s, _) = navigate(s, 40);
    let (s, _) = navigate(s, 40);
    let (s, a) = navigate(s, 10);
    assert_eq!((s.menu.sub_selected, a), (3, NavAction::Stop));
}
