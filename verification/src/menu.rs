//! The main menu and the settings screen.
use vstd::prelude::*;
use crate::theme::{ThemeManager, THEME_COUNT, theme_id, theme_name};

verus! {

/// The entries of the side menu: Settings, Achievements, Leaderboard, Exit.
pub const SUBMENU_LEN: usize = 4;

#[derive(Clone, Copy, Debug, PartialEq, Eq, Structural)]
pub struct MainMenuScene {
    pub selected: usize,
    pub sub_selected: usize,
    pub in_submenu: bool,
}

impl MainMenuScene {
    /// The first game selected, the side menu closed.
    pub fn new() -> (m: Self)
        ensures
            m.selected == 0 && m.sub_selected == 0 && !m.in_submenu,
    {
        MainMenuScene { selected: 0, sub_selected: 0, in_submenu: false }
    }

    /// The scene id.
    pub fn id(&self) -> (r: &'static str)
        ensures
            r@ == seq!['m', 'a', 'i', 'n', 'M', 'e', 'n', 'u'],
    {
        proof {
            reveal_strlit("mainMenu");
        }
        "mainMenu"
    }

    /// This menu after the key `key`: Tab (9) opens or closes the side menu
    /// (its cursor back on top); Up (38) and Down (40) move the cursor of the
    /// open list, the game list over its eight entries, the side menu over
    /// its four; other keys change nothing.
    pub open spec fn after_key(self, key: i32) -> MainMenuScene {
        if key == 9 {
            MainMenuScene { in_submenu: !self.in_submenu, sub_selected: 0, ..self }
        } else if key == 38 && self.in_submenu {
            MainMenuScene { sub_selected: if self.sub_selected > 0 { (self.sub_selected - 1) as usize } else { 0 }, ..self }
        } else if key == 38 {
            MainMenuScene { selected: if self.selected > 0 { (self.selected - 1) as usize } else { 0 }, ..self }
        } else if key == 40 && self.in_submenu {
            MainMenuScene {
                sub_selected: if self.sub_selected + 1 < SUBMENU_LEN - 1 {
                    (self.sub_selected + 1) as usize
                } else {
                    (SUBMENU_LEN - 1) as usize
                },
                ..self
            }
        } else if key == 40 {
            MainMenuScene { selected: if self.selected + 1 < 7 { (self.selected + 1) as usize } else { 7 }, ..self }
        } else {
            self
        }
    }

    /// Tab opens or closes the side menu (its cursor back on top); Up and
    /// Down move the cursor of the open list (see `after_key`).
    pub fn handle_key(&mut self, key: i32, ch: char)
        ensures
            *final(self) == old(self).after_key(key),
    {
        if key == 9 {
            self.in_submenu = !self.in_submenu;
            self.sub_selected = 0;
        } else if key == 38 {
            if self.in_submenu {
                self.sub_selected = self.sub_selected.saturating_sub(1);
            } else {
                self.selected = self.selected.saturating_sub(1);
            }
        } else if key == 40 {
            if self.in_submenu {
                self.sub_selected = if self.sub_selected < SUBMENU_LEN - 2 {
                    self.sub_selected + 1
                } else {
                    SUBMENU_LEN - 1
                };
            } else {
                let n = self.selected.saturating_add(1);
                self.selected = if n < 7 {
                    n
                } else {
                    7
                };
            }
        }
    }
}

pub struct SettingsScene {
    pub selected: usize,
    pub selected_theme_id: String,
    pub theme_names: Vec<String>,
    pub theme_ids: Vec<String>,
}

impl SettingsScene {
    /// Nothing listed yet; the default theme chosen.
    pub fn new() -> (s: Self)
        ensures
            s.selected == 0,
            s.selected_theme_id@ == "tokyo-night"@,
            s.theme_names@.len() == 0 && s.theme_ids@.len() == 0,
    {
        SettingsScene {
            selected: 0,
            selected_theme_id: String::from_str("tokyo-night"),
            theme_names: Vec::new(),
            theme_ids: Vec::new(),
        }
    }

    /// The scene id.
    pub fn id(&self) -> (r: &'static str)
        ensures
            r@ == seq!['s', 'e', 't', 't', 'i', 'n', 'g', 's'],
    {
        proof {
            reveal_strlit("settings");
        }
        "settings"
    }

    /// Lists the themes of `themes` and selects the current one.
    pub fn refresh(&mut self, themes: &ThemeManager)
        requires
            themes.wf(),
        ensures
            final(self).theme_ids@.len() == THEME_COUNT,
            final(self).theme_names@.len() == THEME_COUNT,
            forall|i: int|
                0 <= i < THEME_COUNT ==> (#[trigger] final(self).theme_ids@[i])@ == theme_id(i)
                    && final(self).theme_names@[i]@ == theme_name(i),
            final(self).selected == themes.current,
            final(self).selected_theme_id@ == theme_id(themes.current as int),
    {
        let mut ids: Vec<String> = Vec::new();
        let mut names: Vec<String> = Vec::new();
        let mut i: usize = 0;
        while i < themes.themes.len()
            invariant
                themes.wf(),
                i <= THEME_COUNT,
                ids@.len() == i && names@.len() == i,
                forall|j: int| 0 <= j < i ==> (#[trigger] ids@[j])@ == theme_id(j) && names@[j]@ == theme_name(j),
            decreases THEME_COUNT - i,
        {
            ids.push(String::from_str(themes.themes[i].id));
            names.push(String::from_str(themes.themes[i].name));
            i += 1;
        }
        self.theme_ids = ids;
        self.theme_names = names;
        self.selected = themes.current;
        self.selected_theme_id = String::from_str(themes.themes[themes.current].id);
    }

    /// Up and Down move over the listed themes; Enter chooses the selected
    /// one.
    pub fn handle_key(&mut self, key: i32, ch: char)
        ensures
            key == 38 ==> final(self).selected == (if old(self).selected > 0 {
                old(self).selected - 1
            } else {
                0
            }) && final(self).selected_theme_id == old(self).selected_theme_id,
            key == 40 ==> final(self).selected == (if old(self).theme_ids@.len() == 0 {
                0
            } else if old(self).selected + 1 < old(self).theme_ids@.len() - 1 {
                old(self).selected + 1
            } else {
                old(self).theme_ids@.len() - 1
            }) && final(self).selected_theme_id == old(self).selected_theme_id,
            key == 10 ==> final(self).selected == old(self).selected && final(self).selected_theme_id@ == if old(
                self,
            ).selected < old(self).theme_ids@.len() {
                old(self).theme_ids@[old(self).selected as int]@
            } else {
                old(self).selected_theme_id@
            },
            key != 38 && key != 40 && key != 10 ==> final(self).selected == old(self).selected
                && final(self).selected_theme_id == old(self).selected_theme_id,
            final(self).theme_ids == old(self).theme_ids,
            final(self).theme_names == old(self).theme_names,
    {
        if key == 38 {
            self.selected = self.selected.saturating_sub(1);
        } else if key == 40 {
            let last = self.theme_ids.len().saturating_sub(1);
            self.selected = if self.selected < usize::MAX && self.selected + 1 < last {
                self.selected + 1
            } else {
                last
            };
        } else if key == 10 {
            if self.selected < self.theme_ids.len() {
                self.selected_theme_id = self.theme_ids[self.selected].clone();
            }
        }
    }
}

} // verus!
