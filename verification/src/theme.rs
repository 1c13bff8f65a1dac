//! Colour themes: four built-in schemes of fourteen colours each.
use vstd::prelude::*;

verus! {

/// A 24-bit colour.
#[derive(Clone, Copy, Debug, PartialEq, Eq, Structural)]
pub struct Rgb {
    pub r: u8,
    pub g: u8,
    pub b: u8,
}

impl Rgb {
    /// The colour with these channels.
    pub fn new(r: u8, g: u8, b: u8) -> (c: Self)
        ensures
            c == (Rgb { r, g, b }),
    {
        Rgb { r, g, b }
    }
}

/// The colours a theme gives each role.
#[derive(Clone, Copy, Debug, PartialEq, Eq, Structural)]
pub struct ColorScheme {
    pub bg: Rgb,
    pub fg: Rgb,
    pub accent: Rgb,
    pub secondary: Rgb,
    pub success: Rgb,
    pub warning: Rgb,
    pub error: Rgb,
    pub info: Rgb,
    pub surface: Rgb,
    pub surface_alt: Rgb,
    pub selection: Rgb,
    pub border: Rgb,
    pub disabled: Rgb,
    pub shadow: Rgb,
}

pub struct Theme {
    pub id: &'static str,
    pub name: &'static str,
    pub colors: ColorScheme,
}

/// The number of built-in themes.
pub const THEME_COUNT: usize = 4;

/// The id of built-in theme `i`.
pub open spec fn theme_id(i: int) -> Seq<char> {
    if i == 0 {
        "tokyo-night"@
    } else if i == 1 {
        "catppuccin"@
    } else if i == 2 {
        "gruvbox"@
    } else {
        "nord"@
    }
}

/// The name of built-in theme `i`.
pub open spec fn theme_name(i: int) -> Seq<char> {
    if i == 0 {
        "Tokyo Night"@
    } else if i == 1 {
        "Catppuccin"@
    } else if i == 2 {
        "Gruvbox"@
    } else {
        "Nord"@
    }
}

/// The colours of built-in theme `i`.
pub open spec fn theme_scheme(i: int) -> ColorScheme {
    if i == 0 {
        ColorScheme {
            bg: Rgb { r: 26, g: 27, b: 38 },
            fg: Rgb { r: 169, g: 177, b: 214 },
            accent: Rgb { r: 122, g: 162, b: 247 },
            secondary: Rgb { r: 158, g: 206, b: 106 },
            success: Rgb { r: 158, g: 206, b: 106 },
            warning: Rgb { r: 224, g: 175, b: 104 },
            error: Rgb { r: 219, g: 75, b: 75 },
            info: Rgb { r: 130, g: 170, b: 255 },
            surface: Rgb { r: 36, g: 38, b: 58 },
            surface_alt: Rgb { r: 46, g: 48, b: 70 },
            selection: Rgb { r: 65, g: 72, b: 104 },
            border: Rgb { r: 55, g: 58, b: 82 },
            disabled: Rgb { r: 80, g: 85, b: 110 },
            shadow: Rgb { r: 10, g: 10, b: 16 },
        }
    } else if i == 1 {
        ColorScheme {
            bg: Rgb { r: 30, g: 30, b: 46 },
            fg: Rgb { r: 205, g: 214, b: 244 },
            accent: Rgb { r: 137, g: 180, b: 250 },
            secondary: Rgb { r: 166, g: 227, b: 161 },
            success: Rgb { r: 166, g: 227, b: 161 },
            warning: Rgb { r: 249, g: 226, b: 175 },
            error: Rgb { r: 210, g: 15, b: 57 },
            info: Rgb { r: 137, g: 180, b: 250 },
            surface: Rgb { r: 49, g: 50, b: 68 },
            surface_alt: Rgb { r: 69, g: 71, b: 90 },
            selection: Rgb { r: 88, g: 91, b: 112 },
            border: Rgb { r: 108, g: 112, b: 134 },
            disabled: Rgb { r: 127, g: 132, b: 156 },
            shadow: Rgb { r: 15, g: 15, b: 23 },
        }
    } else if i == 2 {
        ColorScheme {
            bg: Rgb { r: 40, g: 40, b: 40 },
            fg: Rgb { r: 235, g: 219, b: 178 },
            accent: Rgb { r: 184, g: 128, b: 70 },
            secondary: Rgb { r: 152, g: 193, b: 99 },
            success: Rgb { r: 152, g: 193, b: 99 },
            warning: Rgb { r: 214, g: 189, b: 102 },
            error: Rgb { r: 204, g: 74, b: 61 },
            info: Rgb { r: 131, g: 165, b: 152 },
            surface: Rgb { r: 50, g: 50, b: 50 },
            surface_alt: Rgb { r: 60, g: 60, b: 60 },
            selection: Rgb { r: 80, g: 73, b: 59 },
            border: Rgb { r: 73, g: 69, b: 58 },
            disabled: Rgb { r: 102, g: 92, b: 84 },
            shadow: Rgb { r: 15, g: 15, b: 15 },
        }
    } else {
        ColorScheme {
            bg: Rgb { r: 46, g: 52, b: 64 },
            fg: Rgb { r: 216, g: 222, b: 233 },
            accent: Rgb { r: 136, g: 192, b: 208 },
            secondary: Rgb { r: 163, g: 190, b: 140 },
            success: Rgb { r: 163, g: 190, b: 140 },
            warning: Rgb { r: 235, g: 203, b: 139 },
            error: Rgb { r: 191, g: 97, b: 106 },
            info: Rgb { r: 129, g: 161, b: 193 },
            surface: Rgb { r: 59, g: 66, b: 82 },
            surface_alt: Rgb { r: 67, g: 76, b: 94 },
            selection: Rgb { r: 76, g: 86, b: 106 },
            border: Rgb { r: 67, g: 76, b: 94 },
            disabled: Rgb { r: 94, g: 105, b: 125 },
            shadow: Rgb { r: 20, g: 22, b: 28 },
        }
    }
}

/// Built-in theme `i`.
fn built_in_theme(i: usize) -> (t: Theme)
    requires
        i < THEME_COUNT,
    ensures
        t.id@ == theme_id(i as int),
        t.name@ == theme_name(i as int),
        t.colors == theme_scheme(i as int),
{
    match i {
        0 => Theme {
            id: "tokyo-night",
            name: "Tokyo Night",
            colors: ColorScheme {
                bg: Rgb { r: 26, g: 27, b: 38 },
                fg: Rgb { r: 169, g: 177, b: 214 },
                accent: Rgb { r: 122, g: 162, b: 247 },
                secondary: Rgb { r: 158, g: 206, b: 106 },
                success: Rgb { r: 158, g: 206, b: 106 },
                warning: Rgb { r: 224, g: 175, b: 104 },
                error: Rgb { r: 219, g: 75, b: 75 },
                info: Rgb { r: 130, g: 170, b: 255 },
                surface: Rgb { r: 36, g: 38, b: 58 },
                surface_alt: Rgb { r: 46, g: 48, b: 70 },
                selection: Rgb { r: 65, g: 72, b: 104 },
                border: Rgb { r: 55, g: 58, b: 82 },
                disabled: Rgb { r: 80, g: 85, b: 110 },
                shadow: Rgb { r: 10, g: 10, b: 16 },
            },
        },
        1 => Theme {
            id: "catppuccin",
            name: "Catppuccin",
            colors: ColorScheme {
                bg: Rgb { r: 30, g: 30, b: 46 },
                fg: Rgb { r: 205, g: 214, b: 244 },
                accent: Rgb { r: 137, g: 180, b: 250 },
                secondary: Rgb { r: 166, g: 227, b: 161 },
                success: Rgb { r: 166, g: 227, b: 161 },
                warning: Rgb { r: 249, g: 226, b: 175 },
                error: Rgb { r: 210, g: 15, b: 57 },
                info: Rgb { r: 137, g: 180, b: 250 },
                surface: Rgb { r: 49, g: 50, b: 68 },
                surface_alt: Rgb { r: 69, g: 71, b: 90 },
                selection: Rgb { r: 88, g: 91, b: 112 },
                border: Rgb { r: 108, g: 112, b: 134 },
                disabled: Rgb { r: 127, g: 132, b: 156 },
                shadow: Rgb { r: 15, g: 15, b: 23 },
            },
        },
        2 => Theme {
            id: "gruvbox",
            name: "Gruvbox",
            colors: ColorScheme {
                bg: Rgb { r: 40, g: 40, b: 40 },
                fg: Rgb { r: 235, g: 219, b: 178 },
                accent: Rgb { r: 184, g: 128, b: 70 },
                secondary: Rgb { r: 152, g: 193, b: 99 },
                success: Rgb { r: 152, g: 193, b: 99 },
                warning: Rgb { r: 214, g: 189, b: 102 },
                error: Rgb { r: 204, g: 74, b: 61 },
                info: Rgb { r: 131, g: 165, b: 152 },
                surface: Rgb { r: 50, g: 50, b: 50 },
                surface_alt: Rgb { r: 60, g: 60, b: 60 },
                selection: Rgb { r: 80, g: 73, b: 59 },
                border: Rgb { r: 73, g: 69, b: 58 },
                disabled: Rgb { r: 102, g: 92, b: 84 },
                shadow: Rgb { r: 15, g: 15, b: 15 },
            },
        },
        _ => Theme {
            id: "nord",
            name: "Nord",
            colors: ColorScheme {
                bg: Rgb { r: 46, g: 52, b: 64 },
                fg: Rgb { r: 216, g: 222, b: 233 },
                accent: Rgb { r: 136, g: 192, b: 208 },
                secondary: Rgb { r: 163, g: 190, b: 140 },
                success: Rgb { r: 163, g: 190, b: 140 },
                warning: Rgb { r: 235, g: 203, b: 139 },
                error: Rgb { r: 191, g: 97, b: 106 },
                info: Rgb { r: 129, g: 161, b: 193 },
                surface: Rgb { r: 59, g: 66, b: 82 },
                surface_alt: Rgb { r: 67, g: 76, b: 94 },
                selection: Rgb { r: 76, g: 86, b: 106 },
                border: Rgb { r: 67, g: 76, b: 94 },
                disabled: Rgb { r: 94, g: 105, b: 125 },
                shadow: Rgb { r: 20, g: 22, b: 28 },
            },
        },
    }
}

pub struct ThemeManager {
    pub current: usize,
    pub themes: Vec<Theme>,
}

impl ThemeManager {
    /// The built-in themes, in order, and a current one among them.
    pub open spec fn wf(&self) -> bool {
        &&& self.themes@.len() == THEME_COUNT
        &&& forall|i: int|
            0 <= i < THEME_COUNT ==> (#[trigger] self.themes@[i]).id@ == theme_id(i) && self.themes@[i].name@
                == theme_name(i) && self.themes@[i].colors == theme_scheme(i)
        &&& self.current < THEME_COUNT
    }

    /// The built-in themes, the first one current.
    pub fn new() -> (m: Self)
        ensures
            m.wf(),
            m.current == 0,
    {
        ThemeManager { current: 0, themes: Self::built_in() }
    }

    fn built_in() -> (v: Vec<Theme>)
        ensures
            v@.len() == THEME_COUNT,
            forall|i: int|
                0 <= i < THEME_COUNT ==> (#[trigger] v@[i]).id@ == theme_id(i) && v@[i].name@ == theme_name(i)
                    && v@[i].colors == theme_scheme(i),
    {
        let mut v: Vec<Theme> = Vec::new();
        let mut i: usize = 0;
        while i < THEME_COUNT
            invariant
                i <= THEME_COUNT,
                v@.len() == i,
                forall|j: int|
                    0 <= j < i ==> (#[trigger] v@[j]).id@ == theme_id(j) && v@[j].name@ == theme_name(j)
                        && v@[j].colors == theme_scheme(j),
            decreases THEME_COUNT - i,
        {
            v.push(built_in_theme(i));
            i += 1;
        }
        v
    }

    /// The colours of the current theme.
    pub fn colors(&self) -> (c: &ColorScheme)
        requires
            self.wf(),
        ensures
            *c == theme_scheme(self.current as int),
    {
        &self.themes[self.current].colors
    }

    /// The current theme.
    pub fn theme(&self) -> (t: &Theme)
        requires
            self.wf(),
        ensures
            t.id@ == theme_id(self.current as int),
            t.name@ == theme_name(self.current as int),
            t.colors == theme_scheme(self.current as int),
    {
        &self.themes[self.current]
    }

    /// Makes the first theme with id `id` current; false, and no change,
    /// when there is none.
    pub fn set_by_id(&mut self, id: &str) -> (r: bool)
        requires
            old(self).wf(),
        ensures
            final(self).wf(),
            r == exists|i: int| 0 <= i < THEME_COUNT && theme_id(i) == id@,
            r ==> theme_id(final(self).current as int) == id@ && forall|j: int|
                0 <= j < final(self).current ==> theme_id(j) != id@,
            !r ==> final(self).current == old(self).current,
            final(self).themes == old(self).themes,
    {
        let key = String::from_str(id);
        let mut i: usize = 0;
        while i < self.themes.len()
            invariant
                self.wf(),
                *self == *old(self),
                key@ == id@,
                i <= THEME_COUNT,
                forall|j: int| 0 <= j < i ==> theme_id(j) != id@,
            decreases THEME_COUNT - i,
        {
            let tid = String::from_str(self.themes[i].id);
            if tid == key {
                self.current = i;
                return true;
            }
            i += 1;
        }
        false
    }
}

} // verus!
