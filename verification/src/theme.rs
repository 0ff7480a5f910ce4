//! Colour themes: the built-in ones, and hex colours as bytes.

use crate::text;
use vstd::prelude::*;

verus! {

broadcast use vstd::array::group_array_axioms;

/// A complete color theme (hex strings).
#[derive(Debug, Clone)]
pub struct Theme {
    pub name: String,
    pub colors: ThemeColors,
    pub cursor: CursorColors,
    pub selection: SelectionColors,
}

#[derive(Debug, Clone)]
pub struct ThemeColors {
    pub foreground: String,
    pub background: String,
    /// ANSI 16 colors: [black, red, green, yellow, blue, magenta, cyan, white, bright variants...]
    pub ansi: [String; 16],
}

#[derive(Debug, Clone)]
pub struct CursorColors {
    pub foreground: String,
    pub background: String,
}

#[derive(Debug, Clone)]
pub struct SelectionColors {
    pub foreground: Option<String>,
    pub background: String,
}

/// What a theme says.
pub ghost struct ThemeView {
    pub name: Seq<char>,
    pub foreground: Seq<char>,
    pub background: Seq<char>,
    pub ansi: Seq<Seq<char>>,
    pub cursor_foreground: Seq<char>,
    pub cursor_background: Seq<char>,
    pub selection_foreground: Option<Seq<char>>,
    pub selection_background: Seq<char>,
}

impl View for Theme {
    type V = ThemeView;

    open spec fn view(&self) -> ThemeView {
        ThemeView {
            name: self.name@,
            foreground: self.colors.foreground@,
            background: self.colors.background@,
            ansi: self.colors.ansi@.map_values(|s: String| s@),
            cursor_foreground: self.cursor.foreground@,
            cursor_background: self.cursor.background@,
            selection_foreground: match self.selection.foreground {
                Some(s) => Some(s@),
                None => None,
            },
            selection_background: self.selection.background@,
        }
    }
}

/// The colours of catppuccin-mocha.
pub open spec fn catppuccin_mocha_view() -> ThemeView {
    ThemeView {
        name: "catppuccin-mocha"@,
        foreground: "#cdd6f4"@,
        background: "#1e1e2e"@,
        ansi: seq![
            "#45475a"@,
            "#f38ba8"@,
            "#a6e3a1"@,
            "#f9e2af"@,
            "#89b4fa"@,
            "#f5c2e7"@,
            "#94e2d5"@,
            "#bac2de"@,
            "#585b70"@,
            "#f38ba8"@,
            "#a6e3a1"@,
            "#f9e2af"@,
            "#89b4fa"@,
            "#f5c2e7"@,
            "#94e2d5"@,
            "#a6adc8"@,
        ],
        cursor_foreground: "#1e1e2e"@,
        cursor_background: "#f5e0dc"@,
        selection_foreground: None,
        selection_background: "#585b70"@,
    }
}

pub fn catppuccin_mocha() -> (r: Theme)
    ensures
        r@ == catppuccin_mocha_view(),
{
    let t = Theme {
        name: "catppuccin-mocha".to_owned(),
        colors: ThemeColors {
            foreground: "#cdd6f4".to_owned(),
            background: "#1e1e2e".to_owned(),
            ansi: [
                "#45475a".to_owned(),
                "#f38ba8".to_owned(),
                "#a6e3a1".to_owned(),
                "#f9e2af".to_owned(),
                "#89b4fa".to_owned(),
                "#f5c2e7".to_owned(),
                "#94e2d5".to_owned(),
                "#bac2de".to_owned(),
                "#585b70".to_owned(),
                "#f38ba8".to_owned(),
                "#a6e3a1".to_owned(),
                "#f9e2af".to_owned(),
                "#89b4fa".to_owned(),
                "#f5c2e7".to_owned(),
                "#94e2d5".to_owned(),
                "#a6adc8".to_owned(),
            ],
        },
        cursor: CursorColors {
            foreground: "#1e1e2e".to_owned(),
            background: "#f5e0dc".to_owned(),
        },
        selection: SelectionColors { foreground: None, background: "#585b70".to_owned() },
    };
    assert(t@.ansi =~= catppuccin_mocha_view().ansi);
    t
}

/// The colours of dracula.
pub open spec fn dracula_view() -> ThemeView {
    ThemeView {
        name: "dracula"@,
        foreground: "#f8f8f2"@,
        background: "#282a36"@,
        ansi: seq![
            "#21222c"@,
            "#ff5555"@,
            "#50fa7b"@,
            "#f1fa8c"@,
            "#bd93f9"@,
            "#ff79c6"@,
            "#8be9fd"@,
            "#f8f8f2"@,
            "#6272a4"@,
            "#ff6e6e"@,
            "#69ff94"@,
            "#ffffa5"@,
            "#d6acff"@,
            "#ff92df"@,
            "#a4ffff"@,
            "#ffffff"@,
        ],
        cursor_foreground: "#282a36"@,
        cursor_background: "#f8f8f2"@,
        selection_foreground: None,
        selection_background: "#44475a"@,
    }
}

pub fn dracula() -> (r: Theme)
    ensures
        r@ == dracula_view(),
{
    let t = Theme {
        name: "dracula".to_owned(),
        colors: ThemeColors {
            foreground: "#f8f8f2".to_owned(),
            background: "#282a36".to_owned(),
            ansi: [
                "#21222c".to_owned(),
                "#ff5555".to_owned(),
                "#50fa7b".to_owned(),
                "#f1fa8c".to_owned(),
                "#bd93f9".to_owned(),
                "#ff79c6".to_owned(),
                "#8be9fd".to_owned(),
                "#f8f8f2".to_owned(),
                "#6272a4".to_owned(),
                "#ff6e6e".to_owned(),
                "#69ff94".to_owned(),
                "#ffffa5".to_owned(),
                "#d6acff".to_owned(),
                "#ff92df".to_owned(),
                "#a4ffff".to_owned(),
                "#ffffff".to_owned(),
            ],
        },
        cursor: CursorColors {
            foreground: "#282a36".to_owned(),
            background: "#f8f8f2".to_owned(),
        },
        selection: SelectionColors { foreground: None, background: "#44475a".to_owned() },
    };
    assert(t@.ansi =~= dracula_view().ansi);
    t
}

/// The colours of nord.
pub open spec fn nord_view() -> ThemeView {
    ThemeView {
        name: "nord"@,
        foreground: "#d8dee9"@,
        background: "#2e3440"@,
        ansi: seq![
            "#3b4252"@,
            "#bf616a"@,
            "#a3be8c"@,
            "#ebcb8b"@,
            "#81a1c1"@,
            "#b48ead"@,
            "#88c0d0"@,
            "#e5e9f0"@,
            "#4c566a"@,
            "#bf616a"@,
            "#a3be8c"@,
            "#ebcb8b"@,
            "#81a1c1"@,
            "#b48ead"@,
            "#8fbcbb"@,
            "#eceff4"@,
        ],
        cursor_foreground: "#2e3440"@,
        cursor_background: "#d8dee9"@,
        selection_foreground: None,
        selection_background: "#434c5e"@,
    }
}

pub fn nord() -> (r: Theme)
    ensures
        r@ == nord_view(),
{
    let t = Theme {
        name: "nord".to_owned(),
        colors: ThemeColors {
            foreground: "#d8dee9".to_owned(),
            background: "#2e3440".to_owned(),
            ansi: [
                "#3b4252".to_owned(),
                "#bf616a".to_owned(),
                "#a3be8c".to_owned(),
                "#ebcb8b".to_owned(),
                "#81a1c1".to_owned(),
                "#b48ead".to_owned(),
                "#88c0d0".to_owned(),
                "#e5e9f0".to_owned(),
                "#4c566a".to_owned(),
                "#bf616a".to_owned(),
                "#a3be8c".to_owned(),
                "#ebcb8b".to_owned(),
                "#81a1c1".to_owned(),
                "#b48ead".to_owned(),
                "#8fbcbb".to_owned(),
                "#eceff4".to_owned(),
            ],
        },
        cursor: CursorColors {
            foreground: "#2e3440".to_owned(),
            background: "#d8dee9".to_owned(),
        },
        selection: SelectionColors { foreground: None, background: "#434c5e".to_owned() },
    };
    assert(t@.ansi =~= nord_view().ansi);
    t
}

/// The colours of solarized-dark.
pub open spec fn solarized_dark_view() -> ThemeView {
    ThemeView {
        name: "solarized-dark"@,
        foreground: "#839496"@,
        background: "#002b36"@,
        ansi: seq![
            "#073642"@,
            "#dc322f"@,
            "#859900"@,
            "#b58900"@,
            "#268bd2"@,
            "#d33682"@,
            "#2aa198"@,
            "#eee8d5"@,
            "#002b36"@,
            "#cb4b16"@,
            "#586e75"@,
            "#657b83"@,
            "#839496"@,
            "#6c71c4"@,
            "#93a1a1"@,
            "#fdf6e3"@,
        ],
        cursor_foreground: "#002b36"@,
        cursor_background: "#839496"@,
        selection_foreground: None,
        selection_background: "#073642"@,
    }
}

pub fn solarized_dark() -> (r: Theme)
    ensures
        r@ == solarized_dark_view(),
{
    let t = Theme {
        name: "solarized-dark".to_owned(),
        colors: ThemeColors {
            foreground: "#839496".to_owned(),
            background: "#002b36".to_owned(),
            ansi: [
                "#073642".to_owned(),
                "#dc322f".to_owned(),
                "#859900".to_owned(),
                "#b58900".to_owned(),
                "#268bd2".to_owned(),
                "#d33682".to_owned(),
                "#2aa198".to_owned(),
                "#eee8d5".to_owned(),
                "#002b36".to_owned(),
                "#cb4b16".to_owned(),
                "#586e75".to_owned(),
                "#657b83".to_owned(),
                "#839496".to_owned(),
                "#6c71c4".to_owned(),
                "#93a1a1".to_owned(),
                "#fdf6e3".to_owned(),
            ],
        },
        cursor: CursorColors {
            foreground: "#002b36".to_owned(),
            background: "#839496".to_owned(),
        },
        selection: SelectionColors { foreground: None, background: "#073642".to_owned() },
    };
    assert(t@.ansi =~= solarized_dark_view().ansi);
    t
}

/// The colours of one-dark.
pub open spec fn one_dark_view() -> ThemeView {
    ThemeView {
        name: "one-dark"@,
        foreground: "#abb2bf"@,
        background: "#282c34"@,
        ansi: seq![
            "#3f4451"@,
            "#e06c75"@,
            "#98c379"@,
            "#e5c07b"@,
            "#61afef"@,
            "#c678dd"@,
            "#56b6c2"@,
            "#abb2bf"@,
            "#4f5666"@,
            "#be5046"@,
            "#7a9f60"@,
            "#d19a66"@,
            "#3b84c0"@,
            "#9a52af"@,
            "#3c909b"@,
            "#828997"@,
        ],
        cursor_foreground: "#282c34"@,
        cursor_background: "#528bff"@,
        selection_foreground: None,
        selection_background: "#3e4452"@,
    }
}

pub fn one_dark() -> (r: Theme)
    ensures
        r@ == one_dark_view(),
{
    let t = Theme {
        name: "one-dark".to_owned(),
        colors: ThemeColors {
            foreground: "#abb2bf".to_owned(),
            background: "#282c34".to_owned(),
            ansi: [
                "#3f4451".to_owned(),
                "#e06c75".to_owned(),
                "#98c379".to_owned(),
                "#e5c07b".to_owned(),
                "#61afef".to_owned(),
                "#c678dd".to_owned(),
                "#56b6c2".to_owned(),
                "#abb2bf".to_owned(),
                "#4f5666".to_owned(),
                "#be5046".to_owned(),
                "#7a9f60".to_owned(),
                "#d19a66".to_owned(),
                "#3b84c0".to_owned(),
                "#9a52af".to_owned(),
                "#3c909b".to_owned(),
                "#828997".to_owned(),
            ],
        },
        cursor: CursorColors {
            foreground: "#282c34".to_owned(),
            background: "#528bff".to_owned(),
        },
        selection: SelectionColors { foreground: None, background: "#3e4452".to_owned() },
    };
    assert(t@.ansi =~= one_dark_view().ansi);
    t
}

/// The colours of gruvbox-dark.
pub open spec fn gruvbox_dark_view() -> ThemeView {
    ThemeView {
        name: "gruvbox-dark"@,
        foreground: "#ebdbb2"@,
        background: "#282828"@,
        ansi: seq![
            "#282828"@,
            "#cc241d"@,
            "#98971a"@,
            "#d79921"@,
            "#458588"@,
            "#b16286"@,
            "#689d6a"@,
            "#a89984"@,
            "#928374"@,
            "#fb4934"@,
            "#b8bb26"@,
            "#fabd2f"@,
            "#83a598"@,
            "#d3869b"@,
            "#8ec07c"@,
            "#ebdbb2"@,
        ],
        cursor_foreground: "#282828"@,
        cursor_background: "#ebdbb2"@,
        selection_foreground: None,
        selection_background: "#504945"@,
    }
}

pub fn gruvbox_dark() -> (r: Theme)
    ensures
        r@ == gruvbox_dark_view(),
{
    let t = Theme {
        name: "gruvbox-dark".to_owned(),
        colors: ThemeColors {
            foreground: "#ebdbb2".to_owned(),
            background: "#282828".to_owned(),
            ansi: [
                "#282828".to_owned(),
                "#cc241d".to_owned(),
                "#98971a".to_owned(),
                "#d79921".to_owned(),
                "#458588".to_owned(),
                "#b16286".to_owned(),
                "#689d6a".to_owned(),
                "#a89984".to_owned(),
                "#928374".to_owned(),
                "#fb4934".to_owned(),
                "#b8bb26".to_owned(),
                "#fabd2f".to_owned(),
                "#83a598".to_owned(),
                "#d3869b".to_owned(),
                "#8ec07c".to_owned(),
                "#ebdbb2".to_owned(),
            ],
        },
        cursor: CursorColors {
            foreground: "#282828".to_owned(),
            background: "#ebdbb2".to_owned(),
        },
        selection: SelectionColors { foreground: None, background: "#504945".to_owned() },
    };
    assert(t@.ansi =~= gruvbox_dark_view().ansi);
    t
}

impl Default for Theme {
    fn default() -> (r: Theme)
        ensures
            r@ == catppuccin_mocha_view(),
    {
        catppuccin_mocha()
    }
}

/// List names of all built-in themes.
pub fn builtin_theme_names() -> (r: Vec<&'static str>)
    ensures
        r@.map_values(|s: &'static str| s@) == theme_names(),
{
    let names: Vec<&'static str> = vec![
        "catppuccin-mocha",
        "dracula",
        "nord",
        "solarized-dark",
        "one-dark",
        "gruvbox-dark",
    ];
    assert(names@.map_values(|s: &'static str| s@) =~= theme_names());
    names
}

/// The names of all built-in themes.
pub open spec fn theme_names() -> Seq<Seq<char>> {
    seq![
        "catppuccin-mocha"@,
        "dracula"@,
        "nord"@,
        "solarized-dark"@,
        "one-dark"@,
        "gruvbox-dark"@,
    ]
}

/// A separator within a theme's name.
pub open spec fn separator(c: char) -> bool {
    c == '-' || c == '_' || c == ' '
}

/// A name without its separators.
pub open spec fn stripped(name: Seq<char>) -> Seq<char>
    decreases name.len(),
{
    if name.len() == 0 {
        Seq::empty()
    } else if separator(name.last()) {
        stripped(name.drop_last())
    } else {
        stripped(name.drop_last()).push(name.last())
    }
}

/// The theme that a key names by the words it holds, the first that fits.
pub open spec fn theme_for(key: Seq<char>) -> Option<ThemeView> {
    if text::contains_word(key, "catppuccin"@) && text::contains_word(key, "mocha"@) {
        Some(catppuccin_mocha_view())
    } else if text::contains_word(key, "dracula"@) {
        Some(dracula_view())
    } else if text::contains_word(key, "nord"@) {
        Some(nord_view())
    } else if text::contains_word(key, "solarized"@) && text::contains_word(key, "dark"@) {
        Some(solarized_dark_view())
    } else if text::contains_word(key, "onedark"@) || text::contains_word(key, "one"@)
        && text::contains_word(key, "dark"@) {
        Some(one_dark_view())
    } else if text::contains_word(key, "gruvbox"@) {
        Some(gruvbox_dark_view())
    } else {
        None
    }
}

/// Takes the separators out of a name.
fn strip(name: &[char]) -> (r: Vec<char>)
    ensures
        r@ == stripped(name@),
{
    let mut out: Vec<char> = Vec::new();
    let mut i: usize = 0;
    assert(name@.take(0) =~= Seq::empty());
    while i < name.len()
        invariant
            i <= name@.len(),
            out@ == stripped(name@.take(i as int)),
        decreases name@.len() - i,
    {
        let c: char = name[i];
        assert(name@.take(i + 1).drop_last() =~= name@.take(i as int));
        assert(name@.take(i + 1).last() == c);
        if !(c == '-' || c == '_' || c == ' ') {
            out.push(c);
        }
        i = i + 1;
    }
    assert(name@.take(i as int) =~= name@);
    out
}

/// Whether a key holds a word.
fn holds(key: &[char], word: &str) -> (r: bool)
    ensures
        r == text::contains_word(key@, word@),
{
    text::contains(key, text::to_chars(word).as_slice())
}

/// Look up a built-in theme by a key in lower case without separators.
pub fn theme_for_key(key: &[char]) -> (r: Option<Theme>)
    ensures
        match (r, theme_for(key@)) {
            (Some(t), Some(v)) => t@ == v,
            (None, None) => true,
            _ => false,
        },
{
    if holds(key, "catppuccin") && holds(key, "mocha") {
        Some(catppuccin_mocha())
    } else if holds(key, "dracula") {
        Some(dracula())
    } else if holds(key, "nord") {
        Some(nord())
    } else if holds(key, "solarized") && holds(key, "dark") {
        Some(solarized_dark())
    } else if holds(key, "onedark") || holds(key, "one") && holds(key, "dark") {
        Some(one_dark())
    } else if holds(key, "gruvbox") {
        Some(gruvbox_dark())
    } else {
        None
    }
}

/// Look up a built-in theme by name, whatever its case and separators.
pub fn builtin_theme(name: &str) -> (r: Option<Theme>)
    ensures
        match (r, theme_for(stripped(text::lowered(name@)))) {
            (Some(t), Some(v)) => t@ == v,
            (None, None) => true,
            _ => false,
        },
{
    let lower: String = text::lower_text(name);
    let chars: Vec<char> = text::to_chars(lower.as_str());
    let key: Vec<char> = strip(chars.as_slice());
    theme_for_key(key.as_slice())
}

/// The listed names without their separators.
pub open spec fn theme_keys() -> Seq<Seq<char>> {
    seq![
        "catppuccinmocha"@,
        "dracula"@,
        "nord"@,
        "solarizeddark"@,
        "onedark"@,
        "gruvboxdark"@,
    ]
}

/// Two words around a separator, or one word alone, lose the separator only.
proof fn lemma_stripped(a: Seq<char>, b: Seq<char>)
    requires
        forall|j: int| 0 <= j < a.len() ==> !separator(#[trigger] a[j]),
        forall|j: int| 0 <= j < b.len() ==> !separator(#[trigger] b[j]),
    ensures
        stripped(a) == a,
        stripped(a.push('-') + b) == a + b,
    decreases a.len() + b.len(),
{
    if a.len() > 0 {
        lemma_stripped(a.drop_last(), Seq::empty());
        assert(a.drop_last().push(a.last()) =~= a);
    }
    let whole = a.push('-') + b;
    if b.len() > 0 {
        lemma_stripped(a, b.drop_last());
        assert(whole.drop_last() =~= a.push('-') + b.drop_last());
        assert(whole.last() == b[b.len() - 1]);
        assert(stripped(whole) == stripped(whole.drop_last()).push(b.last()));
        assert((a + b.drop_last()).push(b.last()) =~= a + b);
    } else {
        assert(whole =~= a.push('-'));
        assert(whole.drop_last() =~= a && whole.last() == '-');
        assert(stripped(whole) == stripped(a));
        assert(a + b =~= a);
    }
}

proof fn lemma_listed_keys(i: int)
    requires
        0 <= i < theme_names().len(),
    ensures
        text::plain(theme_names()[i]),
        text::small_letters(theme_names()[i]) == theme_names()[i],
        stripped(theme_names()[i]) == theme_keys()[i],
{
    let name = theme_names()[i];
    let key = theme_keys()[i];
    if i == 1 {
        reveal_strlit("dracula");
        lemma_stripped(name, Seq::empty());
    } else if i == 2 {
        reveal_strlit("nord");
        lemma_stripped(name, Seq::empty());
    } else {
        let cut: int = if i == 0 {
            10
        } else if i == 3 {
            9
        } else if i == 4 {
            3
        } else {
            7
        };
        if i == 0 {
            reveal_strlit("catppuccin-mocha");
            reveal_strlit("catppuccinmocha");
        } else if i == 3 {
            reveal_strlit("solarized-dark");
            reveal_strlit("solarizeddark");
        } else if i == 4 {
            reveal_strlit("one-dark");
            reveal_strlit("onedark");
        } else {
            reveal_strlit("gruvbox-dark");
            reveal_strlit("gruvboxdark");
        }
        let (a, b) = (name.take(cut), name.skip(cut + 1));
        lemma_stripped(a, b);
        assert(a.push('-') + b =~= name);
        assert(a + b =~= key);
    }
    assert(text::small_letters(name) =~= name);
}

/// Each listed name is an ASCII text in lower case, and the theme that it names bears it.
pub proof fn law_listed_themes(i: int)
    requires
        0 <= i < theme_names().len(),
    ensures
        text::plain(theme_names()[i]),
        text::small_letters(theme_names()[i]) == theme_names()[i],
        theme_for(stripped(text::lowered(theme_names()[i]))) matches Some(v) && v.name
            == theme_names()[i],
{
    lemma_listed_keys(i);
    reveal_strlit("catppuccin");
    reveal_strlit("dracula");
    reveal_strlit("nord");
    reveal_strlit("solarized");
    reveal_strlit("onedark");
    let key = theme_keys()[i];
    if i == 0 {
        reveal_strlit("catppuccinmocha");
        reveal_strlit("mocha");
        text::lemma_word_at(key, "catppuccin"@, 0);
        text::lemma_word_at(key, "mocha"@, 10);
    } else if i == 1 {
        text::lemma_no_word(key, "catppuccin"@, 3);
        text::lemma_word_at(key, "dracula"@, 0);
    } else {
        if i == 3 {
            reveal_strlit("solarizeddark");
        } else if i == 5 {
            reveal_strlit("gruvboxdark");
        }
        text::lemma_no_word(key, "catppuccin"@, 0);
        text::lemma_no_word(key, "dracula"@, 3);
        if i == 2 {
            text::lemma_word_at(key, "nord"@, 0);
        } else if i == 3 {
            reveal_strlit("dark");
            text::lemma_no_word(key, "nord"@, 0);
            text::lemma_word_at(key, "solarized"@, 0);
            text::lemma_word_at(key, "dark"@, 9);
        } else if i == 4 {
            if text::contains_word(key, "nord"@) {
                let at = choose|at: int| text::word_at(key, "nord"@, at);
                assert(key.subrange(at, at + 4)[0] == key[at]);
                assert(key.subrange(at, at + 4)[1] == key[at + 1]);
            }
            text::lemma_no_word(key, "solarized"@, 0);
            text::lemma_word_at(key, "onedark"@, 0);
        } else {
            reveal_strlit("one");
            reveal_strlit("gruvbox");
            text::lemma_no_word(key, "nord"@, 0);
            text::lemma_no_word(key, "solarized"@, 0);
            text::lemma_no_word(key, "onedark"@, 1);
            text::lemma_no_word(key, "one"@, 1);
            text::lemma_word_at(key, "gruvbox"@, 0);
        }
    }
}

/// The value of a hexadecimal digit.
pub open spec fn hex_digit(b: u8) -> Option<int> {
    if 48 <= b <= 57 {
        Some(b - 48)
    } else if 97 <= b <= 102 {
        Some(b - 87)
    } else if 65 <= b <= 70 {
        Some(b - 55)
    } else {
        None
    }
}

/// The value of two hexadecimal digits, of which the first may be a plus sign; `d` where they
/// are none.
pub open spec fn hex_pair(a: u8, b: u8, d: int) -> int {
    match (hex_digit(a), hex_digit(b)) {
        (Some(x), Some(y)) => 16 * x + y,
        (None, Some(y)) => if a == 43 {
            y
        } else {
            d
        },
        _ => d,
    }
}

/// The value of one hexadecimal digit, 0 where it is none.
pub open spec fn hex_single(b: u8) -> int {
    match hex_digit(b) {
        Some(x) => x,
        None => 0,
    }
}

/// The bytes of a colour behind its leading `#` signs.
pub open spec fn without_hashes(s: Seq<u8>) -> Seq<u8>
    decreases s.len(),
{
    if s.len() > 0 && s[0] == 35 {
        without_hashes(s.skip(1))
    } else {
        s
    }
}

/// The digits of a colour can be taken apart: no character of more than one byte straddles two
/// channels.
pub open spec fn separable(s: Seq<u8>) -> bool {
    let h = without_hashes(s);
    &&& h.len() == 3 ==> vstd::utf8::is_char_boundary(h, 1) && vstd::utf8::is_char_boundary(h, 2)
    &&& h.len() == 6 || h.len() == 8 ==> vstd::utf8::is_char_boundary(h, 2)
        && vstd::utf8::is_char_boundary(h, 4)
    &&& h.len() == 8 ==> vstd::utf8::is_char_boundary(h, 6)
}

/// A CSS hex color (#RGB, #RRGGBB, #RRGGBBAA) as red, green, blue and alpha; magenta where the
/// text has another length.
pub open spec fn color_bytes(s: Seq<u8>) -> (u8, u8, u8, u8) {
    let h = without_hashes(s);
    if h.len() == 3 {
        (
            (17 * hex_single(h[0])) as u8,
            (17 * hex_single(h[1])) as u8,
            (17 * hex_single(h[2])) as u8,
            255u8,
        )
    } else if h.len() == 6 {
        (
            hex_pair(h[0], h[1], 0) as u8,
            hex_pair(h[2], h[3], 0) as u8,
            hex_pair(h[4], h[5], 0) as u8,
            255u8,
        )
    } else if h.len() == 8 {
        (
            hex_pair(h[0], h[1], 0) as u8,
            hex_pair(h[2], h[3], 0) as u8,
            hex_pair(h[4], h[5], 0) as u8,
            hex_pair(h[6], h[7], 255) as u8,
        )
    } else {
        (255u8, 0u8, 255u8, 255u8)
    }
}

fn digit(b: u8) -> (r: Option<u8>)
    ensures
        match (r, hex_digit(b)) {
            (Some(x), Some(y)) => x == y && x <= 15,
            (None, None) => true,
            _ => false,
        },
{
    if b >= 48 && b <= 57 {
        Some(b - 48)
    } else if b >= 97 && b <= 102 {
        Some(b - 87)
    } else if b >= 65 && b <= 70 {
        Some(b - 55)
    } else {
        None
    }
}

fn pair(a: u8, b: u8, d: u8) -> (r: u8)
    ensures
        r == hex_pair(a, b, d as int),
{
    match (digit(a), digit(b)) {
        (Some(x), Some(y)) => 16 * x + y,
        (None, Some(y)) => if a == 43 {
            y
        } else {
            d
        },
        _ => d,
    }
}

fn single(b: u8) -> (r: u8)
    ensures
        r == hex_single(b),
        r <= 15,
{
    match digit(b) {
        Some(x) => x,
        None => 0,
    }
}

/// Parse a CSS hex color (#RGB, #RRGGBB, #RRGGBBAA) to bytes.
pub fn hex_to_bytes(hex: &str) -> (r: (u8, u8, u8, u8))
    requires
        separable(vstd::utf8::encode_utf8(hex@)),
    ensures
        r == color_bytes(vstd::utf8::encode_utf8(hex@)),
{
    let b: &[u8] = hex.as_bytes();
    let mut i: usize = 0;
    assert(b@.skip(0) =~= b@);
    while i < b.len() && b[i] == 35
        invariant
            i <= b@.len(),
            without_hashes(b@.skip(i as int)) == without_hashes(b@),
        decreases b@.len() - i,
    {
        assert(b@.skip(i as int).skip(1) =~= b@.skip(i + 1));
        assert(b@.skip(i as int)[0] == b@[i as int]);
        i = i + 1;
    }
    let ghost h = b@.skip(i as int);
    assert(i < b@.len() ==> h[0] == b@[i as int]);
    assert(without_hashes(h) == h);
    let n: usize = b.len() - i;
    assert(forall|k: int| 0 <= k < n ==> #[trigger] h[k] == b@[i + k]);
    if n == 3 {
        (17 * single(b[i]), 17 * single(b[i + 1]), 17 * single(b[i + 2]), 255)
    } else if n == 6 {
        (
            pair(b[i], b[i + 1], 0),
            pair(b[i + 2], b[i + 3], 0),
            pair(b[i + 4], b[i + 5], 0),
            255,
        )
    } else if n == 8 {
        (
            pair(b[i], b[i + 1], 0),
            pair(b[i + 2], b[i + 3], 0),
            pair(b[i + 4], b[i + 5], 0),
            pair(b[i + 6], b[i + 7], 255),
        )
    } else {
        (255, 0, 255, 255)
    }
}

/// Theme colors as bytes.
#[derive(Debug)]
pub struct ThemeBytes {
    pub name: String,
    pub fg: (u8, u8, u8, u8),
    pub bg: (u8, u8, u8, u8),
    pub cursor_fg: (u8, u8, u8, u8),
    pub cursor_bg: (u8, u8, u8, u8),
    pub selection_fg: Option<(u8, u8, u8, u8)>,
    pub selection_bg: (u8, u8, u8, u8),
    /// ANSI 16-color palette.
    pub ansi: Vec<(u8, u8, u8, u8)>,
}

/// The bytes of a colour given as text.
pub open spec fn text_color(s: Seq<char>) -> (u8, u8, u8, u8) {
    color_bytes(vstd::utf8::encode_utf8(s))
}

/// A colour given as text can be taken apart.
pub open spec fn text_separable(s: Seq<char>) -> bool {
    separable(vstd::utf8::encode_utf8(s))
}

impl ThemeView {
    /// Every colour can be taken apart.
    pub open spec fn separable(self) -> bool {
        &&& text_separable(self.foreground)
        &&& text_separable(self.background)
        &&& text_separable(self.cursor_foreground)
        &&& text_separable(self.cursor_background)
        &&& text_separable(self.selection_background)
        &&& self.selection_foreground matches Some(s) ==> text_separable(s)
        &&& self.ansi.len() == 16
        &&& forall|i: int| 0 <= i < 16 ==> text_separable(#[trigger] self.ansi[i])
    }
}

/// Resolves a theme into bytes.
pub fn resolve_theme(theme: &Theme) -> (r: ThemeBytes)
    requires
        theme@.separable(),
    ensures
        r.name@ == theme@.name,
        r.fg == text_color(theme@.foreground),
        r.bg == text_color(theme@.background),
        r.cursor_fg == text_color(theme@.cursor_foreground),
        r.cursor_bg == text_color(theme@.cursor_background),
        r.selection_bg == text_color(theme@.selection_background),
        r.selection_fg == match theme@.selection_foreground {
            Some(s) => Some(text_color(s)),
            None => None,
        },
        r.ansi@ == theme@.ansi.map_values(|s: Seq<char>| text_color(s)),
{
    let ghost want = theme@.ansi.map_values(|s: Seq<char>| text_color(s));
    let mut ansi: Vec<(u8, u8, u8, u8)> = Vec::new();
    let mut i: usize = 0;
    while i < 16
        invariant
            i <= 16,
            theme@.separable(),
            want == theme@.ansi.map_values(|s: Seq<char>| text_color(s)),
            ansi@ == want.take(i as int),
        decreases 16 - i,
    {
        assert(theme@.ansi[i as int] == theme.colors.ansi[i as int]@);
        ansi.push(hex_to_bytes(theme.colors.ansi[i].as_str()));
        i = i + 1;
        assert(ansi@ =~= want.take(i as int));
    }
    assert(want.take(16) =~= want);
    ThemeBytes {
        name: theme.name.clone(),
        fg: hex_to_bytes(theme.colors.foreground.as_str()),
        bg: hex_to_bytes(theme.colors.background.as_str()),
        cursor_fg: hex_to_bytes(theme.cursor.foreground.as_str()),
        cursor_bg: hex_to_bytes(theme.cursor.background.as_str()),
        selection_fg: match &theme.selection.foreground {
            Some(s) => Some(hex_to_bytes(s.as_str())),
            None => None,
        },
        selection_bg: hex_to_bytes(theme.selection.background.as_str()),
        ansi,
    }
}

/// A hexadecimal digit in lower case.
pub open spec fn hex_letter(n: int) -> u8 {
    if n < 10 {
        (48 + n) as u8
    } else {
        (87 + n) as u8
    }
}

/// A hexadecimal digit in upper case.
pub open spec fn capital_hex(n: int) -> u8 {
    if n < 10 {
        (48 + n) as u8
    } else {
        (55 + n) as u8
    }
}

/// A colour written as two hexadecimal digits each for red, green and blue, in lower or upper case,
/// is that colour, opaque; with two more for the alpha it has that alpha; one digit each stands for
/// the digit twice. A leading number sign makes no difference.
#[verifier::rlimit(40)]
pub proof fn law_hex_colours(r: u8, g: u8, b: u8, a: u8)
    ensures
        ({
            let (r0, r1, g0, g1) = (r as int / 16, r as int % 16, g as int / 16, g as int % 16);
            let (b0, b1, a0, a1) = (b as int / 16, b as int % 16, a as int / 16, a as int % 16);
            let low = seq![
                hex_letter(r0),
                hex_letter(r1),
                hex_letter(g0),
                hex_letter(g1),
                hex_letter(b0),
                hex_letter(b1),
            ];
            let high = seq![
                capital_hex(r0),
                capital_hex(r1),
                capital_hex(g0),
                capital_hex(g1),
                capital_hex(b0),
                capital_hex(b1),
            ];
            let short = seq![hex_letter(r1), hex_letter(g1), hex_letter(b1)];
            let clear = low + seq![hex_letter(a0), hex_letter(a1)];
            &&& color_bytes(low) == (r, g, b, 255u8)
            &&& color_bytes(high) == (r, g, b, 255u8)
            &&& color_bytes(clear) == (r, g, b, a)
            &&& color_bytes(short) == (
                (17 * r1) as u8,
                (17 * g1) as u8,
                (17 * b1) as u8,
                255u8,
            )
            &&& color_bytes(seq![35u8] + low) == color_bytes(low)
            &&& color_bytes(seq![35u8] + clear) == color_bytes(clear)
            &&& color_bytes(seq![35u8] + short) == color_bytes(short)
        }),
{
    let (r0, r1, g0, g1) = (r as int / 16, r as int % 16, g as int / 16, g as int % 16);
    let (b0, b1, a0, a1) = (b as int / 16, b as int % 16, a as int / 16, a as int % 16);
    let low = seq![
        hex_letter(r0),
        hex_letter(r1),
        hex_letter(g0),
        hex_letter(g1),
        hex_letter(b0),
        hex_letter(b1),
    ];
    let short = seq![hex_letter(r1), hex_letter(g1), hex_letter(b1)];
    let clear = low + seq![hex_letter(a0), hex_letter(a1)];
    assert((seq![35u8] + low).skip(1) =~= low);
    assert((seq![35u8] + clear).skip(1) =~= clear);
    assert((seq![35u8] + short).skip(1) =~= short);
    reveal_with_fuel(without_hashes, 2);
}

} // verus!
