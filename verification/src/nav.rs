//! The arcade's navigation: what a key press does to the splash screen, the
//! settings screen, the main menu and the stack of open games.
use vstd::prelude::*;
use crate::engine::{SceneType, GAME_COUNT};
use crate::menu::MainMenuScene;

verus! {

/// Where the player is: the splash screen, the settings screen, the main
/// menu's cursors, how many scenes are open over the menu and what kind of
/// scene is on top (meaningful while `depth > 0`).
#[derive(Clone, Copy, Debug, PartialEq, Eq, Structural)]
pub struct NavState {
    pub in_splash: bool,
    pub in_settings: bool,
    pub menu: MainMenuScene,
    pub depth: usize,
    pub top: SceneType,
}

/// What the program around the navigation does after a key.
#[derive(Clone, Copy, Debug, PartialEq, Eq, Structural)]
pub enum NavAction {
    /// Nothing more.
    Nothing,
    /// Quit the program.
    Stop,
    /// Close the scene on top.
    Pop,
    /// Start game `i` (in menu order) and open it on top.
    Push(usize),
    /// Fill the settings screen from the current theme; it is now shown.
    OpenSettings,
    /// Store and apply the theme chosen on the settings screen.
    ApplyTheme,
    /// Hand the key to the settings screen, then store and apply its theme.
    SettingsKey,
    /// Hand the key to the scene on top.
    PassToScene,
}

/// What Enter on the side menu does: Settings (0) opens the settings
/// screen, Exit (3) quits, the others do nothing.
pub open spec fn side_choice(s: NavState) -> (NavState, NavAction) {
    if s.menu.sub_selected == 0 {
        (NavState { in_settings: true, ..s }, NavAction::OpenSettings)
    } else if s.menu.sub_selected == 3 {
        (s, NavAction::Stop)
    } else {
        (s, NavAction::Nothing)
    }
}

fn side_select(s: NavState) -> (r: (NavState, NavAction))
    ensures
        r == side_choice(s),
{
    if s.menu.sub_selected == 0 {
        (NavState { in_settings: true, ..s }, NavAction::OpenSettings)
    } else if s.menu.sub_selected == 3 {
        (s, NavAction::Stop)
    } else {
        (s, NavAction::Nothing)
    }
}

impl NavState {
    /// The splash screen over a fresh main menu, no scene open.
    pub fn new() -> (s: Self)
        ensures
            s.in_splash && !s.in_settings && s.depth == 0,
            s.menu == (MainMenuScene { selected: 0, sub_selected: 0, in_submenu: false }),
            s.top == SceneType::MainMenu,
    {
        NavState {
            in_splash: true,
            in_settings: false,
            menu: MainMenuScene::new(),
            depth: 0,
            top: SceneType::MainMenu,
        }
    }
}

/// One key press. Any key dismisses the splash screen. On the settings
/// screen Esc (27) leaves it and any other key goes to it; the chosen theme
/// is applied either way. Otherwise Esc closes the scene on top, or else
/// the side menu, or else quits. Enter (10) on the side menu opens the
/// settings (entry 0) or quits (entry 3); on the game list it starts the
/// selected game; with a game open it goes to the game. Any other key moves
/// the menu's cursors (`MainMenuScene::after_key`) and goes to the scene on
/// top, if any.
pub fn navigate(s: NavState, key: i32) -> (r: (NavState, NavAction))
    ensures
        s.in_splash ==> r == (NavState { in_splash: false, ..s }, NavAction::Nothing),
        !s.in_splash && s.in_settings && key == 27 ==> r == (NavState { in_settings: false, ..s }, NavAction::ApplyTheme),
        !s.in_splash && s.in_settings && key != 27 ==> r == (s, NavAction::SettingsKey),
        !s.in_splash && !s.in_settings && key == 27 ==> r == if s.depth > 0 {
            (NavState { depth: (s.depth - 1) as usize, ..s }, NavAction::Pop)
        } else if s.menu.in_submenu {
            (NavState { menu: MainMenuScene { in_submenu: false, ..s.menu }, ..s }, NavAction::Nothing)
        } else {
            (s, NavAction::Stop)
        },
        !s.in_splash && !s.in_settings && key == 10 ==> r == if s.depth > 0 {
            if s.top == SceneType::MainMenu && s.menu.in_submenu {
                side_choice(s)
            } else {
                (s, NavAction::PassToScene)
            }
        } else if s.menu.in_submenu {
            side_choice(s)
        } else if s.menu.selected < GAME_COUNT {
            (NavState { depth: 1, top: SceneType::Game, ..s }, NavAction::Push(s.menu.selected))
        } else {
            (s, NavAction::Nothing)
        },
        !s.in_splash && !s.in_settings && key != 27 && key != 10 ==> r == (
            NavState { menu: s.menu.after_key(key), ..s },
            if s.depth > 0 {
                NavAction::PassToScene
            } else {
                NavAction::Nothing
            },
        ),
{
    let mut s = s;
    if s.in_splash {
        s.in_splash = false;
        return (s, NavAction::Nothing);
    }
    if s.in_settings {
        if key == 27 {
            s.in_settings = false;
            return (s, NavAction::ApplyTheme);
        }
        return (s, NavAction::SettingsKey);
    }
    if key == 27 {
        if s.depth > 0 {
            s.depth = s.depth - 1;
            (s, NavAction::Pop)
        } else if s.menu.in_submenu {
            s.menu.in_submenu = false;
            (s, NavAction::Nothing)
        } else {
            (s, NavAction::Stop)
        }
    } else if key == 10 {
        if s.depth > 0 {
            if s.top == SceneType::MainMenu && s.menu.in_submenu {
                side_select(s)
            } else {
                (s, NavAction::PassToScene)
            }
        } else if s.menu.in_submenu {
            side_select(s)
        } else if s.menu.selected < GAME_COUNT {
            let i = s.menu.selected;
            s.depth = 1;
            s.top = SceneType::Game;
            (s, NavAction::Push(i))
        } else {
            (s, NavAction::Nothing)
        }
    } else {
        s.menu.handle_key(key, ' ');
        if s.depth > 0 {
            (s, NavAction::PassToScene)
        } else {
            (s, NavAction::Nothing)
        }
    }
}

} // verus!
