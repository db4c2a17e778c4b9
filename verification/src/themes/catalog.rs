//! The built-in color themes.
use crate::config::keymap::str_eq;
use crate::text::{lowercase, lowercase_string, owned};
use vstd::prelude::*;

verus! {

/// A 24-bit terminal color.
#[derive(Debug, Clone, Copy, PartialEq, Eq, Structural)]
pub enum Color {
    Rgb(u8, u8, u8),
}

/// The number of themes offered by the theme picker.
pub const THEME_COUNT: usize = 7;

/// The names offered by the theme picker, in order.
pub open spec fn theme_names() -> Seq<Seq<char>> {
    seq![
        "nord-dark"@,
        "nord-light"@,
        "auto"@,
        "dracula"@,
        "monokai"@,
        "github-dark"@,
        "github-light"@,
    ]
}

/// The `i`-th name of the theme picker.
pub fn theme_name(i: usize) -> (r: Option<&'static str>)
    ensures
        i < THEME_COUNT ==> (r matches Some(s) && s@ == theme_names()[i as int]),
        i >= THEME_COUNT ==> r is None,
{
    match i {
        0 => Some("nord-dark"),
        1 => Some("nord-light"),
        2 => Some("auto"),
        3 => Some("dracula"),
        4 => Some("monokai"),
        5 => Some("github-dark"),
        6 => Some("github-light"),
        _ => None,
    }
}

/// The built-in palettes.
#[derive(Debug, Clone, Copy, PartialEq, Eq, Structural)]
pub enum ThemeKind {
    NordDark,
    NordLight,
    Dracula,
    Monokai,
    GithubDark,
    GithubLight,
}

#[derive(Debug)]
pub struct Theme {
    pub name: String,
    pub background: Color,
    pub foreground: Color,
    pub heading: Color,
    pub accent: Color,
    pub selection: Color,
    pub highlight: Color,
    pub status_bg: Color,
    pub status_fg: Color,
    pub border: Color,
}

/// The colors of a theme: background, foreground, heading, accent,
/// selection, highlight, status bar background and foreground, border.
pub type Palette = (Color, Color, Color, Color, Color, Color, Color, Color, Color);

pub open spec fn rgb(r: u8, g: u8, b: u8) -> Color {
    Color::Rgb(r, g, b)
}

pub open spec fn kind_name(k: ThemeKind) -> Seq<char> {
    match k {
        ThemeKind::NordDark => "nord-dark"@,
        ThemeKind::NordLight => "nord-light"@,
        ThemeKind::Dracula => "dracula"@,
        ThemeKind::Monokai => "monokai"@,
        ThemeKind::GithubDark => "github-dark"@,
        ThemeKind::GithubLight => "github-light"@,
    }
}

pub open spec fn kind_palette(k: ThemeKind) -> Palette {
    match k {
        ThemeKind::NordDark => (
            rgb(46, 52, 64), rgb(236, 239, 244), rgb(143, 188, 187), rgb(136, 192, 208),
            rgb(67, 76, 94), rgb(235, 203, 139), rgb(59, 66, 82), rgb(236, 239, 244),
            rgb(129, 161, 193),
        ),
        ThemeKind::NordLight => (
            rgb(236, 239, 244), rgb(46, 52, 64), rgb(94, 129, 172), rgb(191, 97, 106),
            rgb(229, 233, 240), rgb(208, 135, 112), rgb(216, 222, 233), rgb(46, 52, 64),
            rgb(143, 188, 187),
        ),
        ThemeKind::Dracula => (
            rgb(40, 42, 54), rgb(248, 248, 242), rgb(189, 147, 249), rgb(255, 121, 198),
            rgb(68, 71, 90), rgb(241, 250, 140), rgb(98, 114, 164), rgb(248, 248, 242),
            rgb(98, 114, 164),
        ),
        ThemeKind::Monokai => (
            rgb(39, 40, 34), rgb(248, 248, 242), rgb(166, 226, 46), rgb(249, 38, 114),
            rgb(73, 72, 62), rgb(230, 219, 116), rgb(73, 72, 62), rgb(248, 248, 242),
            rgb(166, 226, 46),
        ),
        ThemeKind::GithubDark => (
            rgb(13, 17, 23), rgb(201, 209, 217), rgb(88, 166, 255), rgb(240, 136, 62),
            rgb(33, 38, 45), rgb(210, 153, 34), rgb(22, 27, 34), rgb(201, 209, 217),
            rgb(48, 54, 61),
        ),
        ThemeKind::GithubLight => (
            rgb(255, 255, 255), rgb(36, 41, 47), rgb(9, 105, 218), rgb(207, 34, 46),
            rgb(234, 238, 242), rgb(154, 103, 0), rgb(246, 248, 250), rgb(36, 41, 47),
            rgb(208, 215, 222),
        ),
    }
}

impl Theme {
    pub open spec fn palette(&self) -> Palette {
        (
            self.background, self.foreground, self.heading, self.accent, self.selection,
            self.highlight, self.status_bg, self.status_fg, self.border,
        )
    }

    /// This theme is the built-in theme `k`.
    pub open spec fn is_kind(&self, k: ThemeKind) -> bool {
        self.name@ == kind_name(k) && self.palette() == kind_palette(k)
    }

    /// The built-in theme `k`.
    pub fn of_kind(k: ThemeKind) -> (r: Self)
        ensures
            r.is_kind(k),
    {
        let (name, p): (&str, Palette) = match k {
            ThemeKind::NordDark => ("nord-dark", (
                Color::Rgb(46, 52, 64), Color::Rgb(236, 239, 244), Color::Rgb(143, 188, 187),
                Color::Rgb(136, 192, 208), Color::Rgb(67, 76, 94), Color::Rgb(235, 203, 139),
                Color::Rgb(59, 66, 82), Color::Rgb(236, 239, 244), Color::Rgb(129, 161, 193),
            )),
            ThemeKind::NordLight => ("nord-light", (
                Color::Rgb(236, 239, 244), Color::Rgb(46, 52, 64), Color::Rgb(94, 129, 172),
                Color::Rgb(191, 97, 106), Color::Rgb(229, 233, 240), Color::Rgb(208, 135, 112),
                Color::Rgb(216, 222, 233), Color::Rgb(46, 52, 64), Color::Rgb(143, 188, 187),
            )),
            ThemeKind::Dracula => ("dracula", (
                Color::Rgb(40, 42, 54), Color::Rgb(248, 248, 242), Color::Rgb(189, 147, 249),
                Color::Rgb(255, 121, 198), Color::Rgb(68, 71, 90), Color::Rgb(241, 250, 140),
                Color::Rgb(98, 114, 164), Color::Rgb(248, 248, 242), Color::Rgb(98, 114, 164),
            )),
            ThemeKind::Monokai => ("monokai", (
                Color::Rgb(39, 40, 34), Color::Rgb(248, 248, 242), Color::Rgb(166, 226, 46),
                Color::Rgb(249, 38, 114), Color::Rgb(73, 72, 62), Color::Rgb(230, 219, 116),
                Color::Rgb(73, 72, 62), Color::Rgb(248, 248, 242), Color::Rgb(166, 226, 46),
            )),
            ThemeKind::GithubDark => ("github-dark", (
                Color::Rgb(13, 17, 23), Color::Rgb(201, 209, 217), Color::Rgb(88, 166, 255),
                Color::Rgb(240, 136, 62), Color::Rgb(33, 38, 45), Color::Rgb(210, 153, 34),
                Color::Rgb(22, 27, 34), Color::Rgb(201, 209, 217), Color::Rgb(48, 54, 61),
            )),
            ThemeKind::GithubLight => ("github-light", (
                Color::Rgb(255, 255, 255), Color::Rgb(36, 41, 47), Color::Rgb(9, 105, 218),
                Color::Rgb(207, 34, 46), Color::Rgb(234, 238, 242), Color::Rgb(154, 103, 0),
                Color::Rgb(246, 248, 250), Color::Rgb(36, 41, 47), Color::Rgb(208, 215, 222),
            )),
        };
        Theme {
            name: owned(name),
            background: p.0,
            foreground: p.1,
            heading: p.2,
            accent: p.3,
            selection: p.4,
            highlight: p.5,
            status_bg: p.6,
            status_fg: p.7,
            border: p.8,
        }
    }

    pub fn nord_dark() -> (r: Self)
        ensures
            r.is_kind(ThemeKind::NordDark),
    {
        Self::of_kind(ThemeKind::NordDark)
    }

    pub fn nord_light() -> (r: Self)
        ensures
            r.is_kind(ThemeKind::NordLight),
    {
        Self::of_kind(ThemeKind::NordLight)
    }

    pub fn dracula() -> (r: Self)
        ensures
            r.is_kind(ThemeKind::Dracula),
    {
        Self::of_kind(ThemeKind::Dracula)
    }

    pub fn monokai() -> (r: Self)
        ensures
            r.is_kind(ThemeKind::Monokai),
    {
        Self::of_kind(ThemeKind::Monokai)
    }

    pub fn github_dark() -> (r: Self)
        ensures
            r.is_kind(ThemeKind::GithubDark),
    {
        Self::of_kind(ThemeKind::GithubDark)
    }

    pub fn github_light() -> (r: Self)
        ensures
            r.is_kind(ThemeKind::GithubLight),
    {
        Self::of_kind(ThemeKind::GithubLight)
    }

    /// Nord in its light variant when the desktop asks for a light color
    /// scheme, in its dark one otherwise.
    pub fn system_default(prefers_light: bool) -> (r: Self)
        ensures
            r.is_kind(desktop_kind(prefers_light)),
    {
        if prefers_light {
            Self::nord_light()
        } else {
            Self::nord_dark()
        }
    }

    /// A copy of this theme.
    pub fn copy(&self) -> (r: Self)
        ensures
            r.name@ == self.name@,
            r.palette() == self.palette(),
    {
        Theme {
            name: owned(self.name.as_str()),
            background: self.background,
            foreground: self.foreground,
            heading: self.heading,
            accent: self.accent,
            selection: self.selection,
            highlight: self.highlight,
            status_bg: self.status_bg,
            status_fg: self.status_fg,
            border: self.border,
        }
    }

    /// The theme a (case-insensitive) name selects: the names of the
    /// picker and a few aliases; `system`, `default` and `auto` follow the
    /// desktop (`prefers_light` says what the desktop asks for); any other
    /// name gives Dracula, the default theme.
    pub fn get_by_name(name: &str, prefers_light: bool) -> (r: Self)
        ensures
            theme_for_name(lowercase(name@)) matches Some(k) ==> r.is_kind(k),
            theme_for_name(lowercase(name@)) is None ==> r.is_kind(desktop_kind(prefers_light)),
    {
        let l = lowercase_string(name);
        let s = l.as_str();
        if str_eq(s, "nord") || str_eq(s, "nord-dark") || str_eq(s, "nord_dark") {
            Self::nord_dark()
        } else if str_eq(s, "nord-light") || str_eq(s, "nord_light") {
            Self::nord_light()
        } else if str_eq(s, "dracula") {
            Self::dracula()
        } else if str_eq(s, "monokai") {
            Self::monokai()
        } else if str_eq(s, "github-dark") || str_eq(s, "github_dark") {
            Self::github_dark()
        } else if str_eq(s, "github-light") || str_eq(s, "github_light") {
            Self::github_light()
        } else if str_eq(s, "system") || str_eq(s, "default") || str_eq(s, "auto") {
            Self::system_default(prefers_light)
        } else {
            Self::dracula()
        }
    }
}

/// The variant of Nord that follows the desktop's color scheme.
pub open spec fn desktop_kind(prefers_light: bool) -> ThemeKind {
    if prefers_light {
        ThemeKind::NordLight
    } else {
        ThemeKind::NordDark
    }
}

/// The built-in theme a lowercased name selects; `None` for the names that
/// follow the desktop (`system`, `default`, `auto`).
pub open spec fn theme_for_name(l: Seq<char>) -> Option<ThemeKind> {
    if l == "nord"@ || l == "nord-dark"@ || l == "nord_dark"@ {
        Some(ThemeKind::NordDark)
    } else if l == "nord-light"@ || l == "nord_light"@ {
        Some(ThemeKind::NordLight)
    } else if l == "dracula"@ {
        Some(ThemeKind::Dracula)
    } else if l == "monokai"@ {
        Some(ThemeKind::Monokai)
    } else if l == "github-dark"@ || l == "github_dark"@ {
        Some(ThemeKind::GithubDark)
    } else if l == "github-light"@ || l == "github_light"@ {
        Some(ThemeKind::GithubLight)
    } else if l == "system"@ || l == "default"@ || l == "auto"@ {
        None
    } else {
        Some(ThemeKind::Dracula)
    }
}

} // verus!
