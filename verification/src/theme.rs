//! Colour themes: a table of styles by scope, read from TOML with palettes and inheritance.

use serde_json::Value;
use vstd::prelude::*;
use crate::bytes::same_text;
use crate::keyed::KeyedMap;
use crate::render::RgbValue;
use crate::text::{chars_of, copy_of, text_of};
use crate::theme_data::{CATPPUCCIN_MOCHA, DEFAULT_THEME};

verus! {

/// The colours of a scope.
#[derive(Clone, Copy, Debug, PartialEq, Eq, Structural)]
pub struct Style {
    pub fg: Option<RgbValue>,
    pub bg: Option<RgbValue>,
}

impl Default for Style {
    fn default() -> (r: Style)
        ensures
            r == (Style { fg: None, bg: None }),
    {
        Style { fg: None, bg: None }
    }
}

/// A value of a theme's table.
pub enum ThemeValue {
    Text(String),
    /// A table, with the texts among its values.
    Table(Vec<(String, Option<String>)>),
    Other,
}

/// What a [`ThemeValue`] stands for.
pub enum ThemeEntry {
    Text(Seq<char>),
    Table(Seq<(Seq<char>, Option<Seq<char>>)>),
    Other,
}

/// The text of an optional string.
pub open spec fn optional_text(s: Option<String>) -> Option<Seq<char>> {
    match s {
        Some(t) => Some(t@),
        None => None,
    }
}

impl View for ThemeValue {
    type V = ThemeEntry;

    open spec fn view(&self) -> ThemeEntry {
        match *self {
            ThemeValue::Text(s) => ThemeEntry::Text(s@),
            ThemeValue::Table(t) => ThemeEntry::Table(
                Seq::new(t@.len(), |i: int| (t@[i].0@, optional_text(t@[i].1))),
            ),
            ThemeValue::Other => ThemeEntry::Other,
        }
    }
}

/// The entries of a table of values.
pub open spec fn table_of(t: Seq<(String, ThemeValue)>) -> Seq<(Seq<char>, ThemeEntry)> {
    Seq::new(t.len(), |i: int| (t[i].0@, t[i].1@))
}

/// The entries of the table that a TOML text holds, or `None` where it is not TOML.
pub uninterp spec fn toml_table(text: Seq<char>) -> Option<Seq<(Seq<char>, ThemeEntry)>>;

/// `toml::from_str` into a `serde_json::Value`: the table depends on the text alone.
#[verifier::external_body]
pub(crate) fn read_toml(text: &str) -> (r: Option<Vec<(String, ThemeValue)>>)
    ensures
        match r {
            Some(t) => toml_table(text@) == Some(table_of(t@)),
            None => toml_table(text@) is None,
        },
{
    let root: Value = toml::from_str(text).ok()?;
    let entry = |v: &Value| match v {
        Value::String(s) => ThemeValue::Text(s.clone()),
        Value::Object(o) => ThemeValue::Table(
            o.iter().map(|(k, v)| (k.clone(), v.as_str().map(String::from))).collect(),
        ),
        _ => ThemeValue::Other,
    };
    root.as_object().map(|o| o.iter().map(|(k, v)| (k.clone(), entry(v))).collect())
}

/// What a theme's text says, before names of colours are looked up.
pub struct RawTheme {
    pub palette: Vec<(String, RgbValue)>,
    pub styles: Vec<(String, ThemeValue)>,
    pub inherits: Option<String>,
}

/// What a [`RawTheme`] stands for.
#[verifier::ext_equal]
pub struct Raw {
    pub palette: Seq<(Seq<char>, RgbValue)>,
    pub styles: Seq<(Seq<char>, ThemeEntry)>,
    pub inherits: Option<Seq<char>>,
}

/// The entries of a palette.
pub open spec fn palette_of(p: Seq<(String, RgbValue)>) -> Seq<(Seq<char>, RgbValue)> {
    Seq::new(p.len(), |i: int| (p[i].0@, p[i].1))
}

impl View for RawTheme {
    type V = Raw;

    open spec fn view(&self) -> Raw {
        Raw {
            palette: palette_of(self.palette@),
            styles: table_of(self.styles@),
            inherits: optional_text(self.inherits),
        }
    }
}

/// The value of a hexadecimal digit.
pub open spec fn hex_value(c: char) -> Option<int> {
    if '0' <= c <= '9' {
        Some(c as int - '0' as int)
    } else if 'a' <= c <= 'f' {
        Some(c as int - 'a' as int + 10)
    } else if 'A' <= c <= 'F' {
        Some(c as int - 'A' as int + 10)
    } else {
        None
    }
}

/// The value of two hexadecimal digits, or of one behind a plus sign.
pub open spec fn hex_pair(a: char, b: char) -> Option<int> {
    if a == '+' {
        hex_value(b)
    } else {
        match (hex_value(a), hex_value(b)) {
            (Some(x), Some(y)) => Some(16 * x + y),
            _ => None,
        }
    }
}

/// The colour that a hexadecimal notation stands for: six digits, or three that are doubled, with
/// or without `#` in front.
pub open spec fn hex_color(text: Seq<char>) -> Option<RgbValue> {
    let s = if text.len() > 0 && text[0] == '#' {
        text.skip(1)
    } else {
        text
    };
    let parts = if s.len() == 6 {
        (hex_pair(s[0], s[1]), hex_pair(s[2], s[3]), hex_pair(s[4], s[5]))
    } else if s.len() == 3 {
        (
            hex_pair('+', s[0]),
            hex_pair('+', s[1]),
            hex_pair('+', s[2]),
        )
    } else {
        (None, None, None)
    };
    let scale = if s.len() == 3 {
        17int
    } else {
        1
    };
    match parts {
        (Some(r), Some(g), Some(b)) => Some(
            RgbValue {
                red: (r * scale) as u8,
                green: (g * scale) as u8,
                blue: (b * scale) as u8,
            },
        ),
        _ => None,
    }
}

fn hex_digit(c: char) -> (r: Option<u8>)
    ensures
        match r {
            Some(v) => hex_value(c) == Some(v as int) && v < 16,
            None => hex_value(c) is None,
        },
{
    let u: u32 = c as u32;
    if '0' <= c && c <= '9' {
        Some((u - 0x30) as u8)
    } else if 'a' <= c && c <= 'f' {
        Some((u - 0x61 + 10) as u8)
    } else if 'A' <= c && c <= 'F' {
        Some((u - 0x41 + 10) as u8)
    } else {
        None
    }
}

fn hex_byte(a: char, b: char) -> (r: Option<u8>)
    ensures
        match r {
            Some(v) => hex_pair(a, b) == Some(v as int),
            None => hex_pair(a, b) is None,
        },
{
    if a == '+' {
        hex_digit(b)
    } else {
        match (hex_digit(a), hex_digit(b)) {
            (Some(x), Some(y)) => Some(16 * x + y),
            _ => None,
        }
    }
}

/// Reads a colour in hexadecimal notation.
pub fn parse_hex_color(s: &str) -> (r: Option<RgbValue>)
    ensures
        r == hex_color(s@),
{
    let all = chars_of(s);
    let from: usize = if all.len() > 0 && all[0] == '#' {
        1
    } else {
        0
    };
    let n: usize = all.len() - from;
    proof {
        assert(s@.skip(0) =~= s@);
    }
    if n == 6 {
        match (
            hex_byte(all[from], all[from + 1]),
            hex_byte(all[from + 2], all[from + 3]),
            hex_byte(all[from + 4], all[from + 5]),
        ) {
            (Some(red), Some(green), Some(blue)) => Some(RgbValue { red, green, blue }),
            _ => None,
        }
    } else if n == 3 {
        match (hex_digit(all[from]), hex_digit(all[from + 1]), hex_digit(all[from + 2])) {
            (Some(r), Some(g), Some(b)) => Some(
                RgbValue { red: r * 17, green: g * 17, blue: b * 17 },
            ),
            _ => None,
        }
    } else {
        None
    }
}

/// The first entry with a key.
pub open spec fn entry_of<T>(t: Seq<(Seq<char>, T)>, key: Seq<char>, n: int) -> Option<T>
    decreases n,
{
    if n <= 0 {
        None
    } else if entry_of(t, key, n - 1) is Some {
        entry_of(t, key, n - 1)
    } else if t[n - 1].0 == key {
        Some(t[n - 1].1)
    } else {
        None
    }
}

/// The colours among the first `n` entries of a palette table.
pub open spec fn palette_colors(
    t: Seq<(Seq<char>, Option<Seq<char>>)>,
    n: int,
) -> Seq<(Seq<char>, RgbValue)>
    decreases n,
{
    if n <= 0 {
        Seq::empty()
    } else {
        let before = palette_colors(t, n - 1);
        match t[n - 1].1 {
            Some(s) => match hex_color(s) {
                Some(rgb) => before.push((t[n - 1].0, rgb)),
                None => before,
            },
            None => before,
        }
    }
}

/// The entries that are styles: all but the palette and the name of the parent.
pub open spec fn style_entries(
    t: Seq<(Seq<char>, ThemeEntry)>,
    n: int,
) -> Seq<(Seq<char>, ThemeEntry)>
    decreases n,
{
    if n <= 0 {
        Seq::empty()
    } else if t[n - 1].0 == "palette"@ || t[n - 1].0 == "inherits"@ {
        style_entries(t, n - 1)
    } else {
        style_entries(t, n - 1).push(t[n - 1])
    }
}

/// What a theme's table says.
pub open spec fn raw_of_table(t: Seq<(Seq<char>, ThemeEntry)>) -> Raw {
    Raw {
        palette: match entry_of(t, "palette"@, t.len() as int) {
            Some(ThemeEntry::Table(p)) => palette_colors(p, p.len() as int),
            _ => Seq::empty(),
        },
        styles: style_entries(t, t.len() as int),
        inherits: match entry_of(t, "inherits"@, t.len() as int) {
            Some(ThemeEntry::Text(s)) => Some(s),
            _ => None,
        },
    }
}

/// What a theme's text says: nothing where it is not TOML.
pub open spec fn raw_of(text: Seq<char>) -> Raw {
    match toml_table(text) {
        Some(t) => raw_of_table(t),
        None => Raw { palette: Seq::empty(), styles: Seq::empty(), inherits: None },
    }
}

fn find_entry(t: &Vec<(String, ThemeValue)>, key: &str) -> (r: Option<usize>)
    ensures
        match r {
            Some(i) => i < t@.len() && entry_of(table_of(t@), key@, t@.len() as int) == Some(
                t@[i as int].1@,
            ),
            None => entry_of(table_of(t@), key@, t@.len() as int) is None,
        },
{
    let ghost all = table_of(t@);
    let mut found: Option<usize> = None;
    let mut i: usize = 0;
    while i < t.len()
        invariant
            i <= t@.len(),
            all == table_of(t@),
            match found {
                Some(k) => k < t@.len() && entry_of(all, key@, i as int) == Some(t@[k as int].1@),
                None => entry_of(all, key@, i as int) is None,
            },
        decreases t@.len() - i,
    {
        assert(all[i as int] == (t@[i as int].0@, t@[i as int].1@));
        if found.is_none() && same_text(t[i].0.as_str(), key) {
            found = Some(i);
        }
        i += 1;
    }
    found
}

/// Reads the palette table of a theme.
fn read_palette(t: &Vec<(String, Option<String>)>) -> (r: Vec<(String, RgbValue)>)
    ensures
        palette_of(r@) == palette_colors(
            Seq::new(t@.len(), |i: int| (t@[i].0@, optional_text(t@[i].1))),
            t@.len() as int,
        ),
{
    let ghost all = Seq::new(t@.len(), |i: int| (t@[i].0@, optional_text(t@[i].1)));
    let mut out: Vec<(String, RgbValue)> = Vec::new();
    let mut i: usize = 0;
    assert(palette_of(out@) =~= palette_colors(all, 0));
    while i < t.len()
        invariant
            i <= t@.len(),
            all == Seq::new(t@.len(), |i: int| (t@[i].0@, optional_text(t@[i].1))),
            palette_of(out@) == palette_colors(all, i as int),
        decreases t@.len() - i,
    {
        let ghost before = palette_of(out@);
        assert(all[i as int] == (t@[i as int].0@, optional_text(t@[i as int].1)));
        if let Some(s) = &t[i].1 {
            if let Some(rgb) = parse_hex_color(s.as_str()) {
                out.push((copy_of(t[i].0.as_str()), rgb));
                assert(palette_of(out@) =~= before.push((t@[i as int].0@, rgb)));
            }
        }
        i += 1;
    }
    out
}

/// Sorts the entries of a theme's table into palette, parent and styles.
pub fn theme_from_table(t: Vec<(String, ThemeValue)>) -> (r: RawTheme)
    ensures
        r@ == raw_of_table(table_of(t@)),
{
    let ghost all = table_of(t@);
    let palette: Vec<(String, RgbValue)> = match find_entry(&t, "palette") {
        Some(i) => match &t[i].1 {
            ThemeValue::Table(p) => read_palette(p),
            _ => Vec::new(),
        },
        None => Vec::new(),
    };
    assert(palette_of(Seq::<(String, RgbValue)>::empty()) =~= Seq::empty());
    let inherits: Option<String> = match find_entry(&t, "inherits") {
        Some(i) => match &t[i].1 {
            ThemeValue::Text(s) => Some(copy_of(s.as_str())),
            _ => None,
        },
        None => None,
    };
    let mut styles: Vec<(String, ThemeValue)> = Vec::new();
    assert(table_of(styles@) =~= style_entries(all, 0));
    for e in it: t
        invariant
            table_of(it.seq()) == all,
            table_of(styles@) == style_entries(all, it.index() as int),
    {
        let ghost before = table_of(styles@);
        let ghost k = it.index() as int;
        assert(table_of(it.seq())[k] == (e.0@, e.1@));
        if !(same_text(e.0.as_str(), "palette") || same_text(e.0.as_str(), "inherits")) {
            styles.push(e);
            assert(table_of(styles@) =~= before.push(all[k]));
        }
    }
    RawTheme { palette, styles, inherits }
}

/// Reads a theme's text.
pub fn parse_theme(toml_str: &str) -> (r: RawTheme)
    ensures
        r@ == raw_of(toml_str@),
{
    match read_toml(toml_str) {
        Some(t) => theme_from_table(t),
        None => {
            let r = RawTheme { palette: Vec::new(), styles: Vec::new(), inherits: None };
            assert(r@ =~= raw_of(toml_str@));
            r
        },
    }
}

/// `m` with the colours of the first `n` entries of `p` put in.
pub open spec fn with_palette(
    m: Map<Seq<char>, RgbValue>,
    p: Seq<(Seq<char>, RgbValue)>,
    n: int,
) -> Map<Seq<char>, RgbValue>
    decreases n,
{
    if n <= 0 {
        m
    } else {
        with_palette(m, p, n - 1).insert(p[n - 1].0, p[n - 1].1)
    }
}

/// The palette of a chain of themes, from the theme at `i` to its furthest ancestor: a theme's own
/// colours go before those it inherits.
pub open spec fn merged_palette(chain: Seq<Raw>, i: int) -> Map<Seq<char>, RgbValue>
    decreases chain.len() - i,
{
    if i >= chain.len() {
        Map::empty()
    } else {
        with_palette(merged_palette(chain, i + 1), chain[i].palette, chain[i].palette.len() as int)
    }
}

/// The colour that a text names: in hexadecimal notation, or by its name in the palette.
pub open spec fn color_named(s: Seq<char>, palette: Map<Seq<char>, RgbValue>) -> Option<RgbValue> {
    if hex_color(s) is Some {
        hex_color(s)
    } else if palette.contains_key(s) {
        Some(palette[s])
    } else {
        None
    }
}

/// The colour under a key of a style's table.
pub open spec fn color_under(
    t: Seq<(Seq<char>, Option<Seq<char>>)>,
    key: Seq<char>,
    palette: Map<Seq<char>, RgbValue>,
) -> Option<RgbValue> {
    match entry_of(t, key, t.len() as int) {
        Some(Some(s)) => color_named(s, palette),
        _ => None,
    }
}

/// The style that a value stands for. A colour alone is a foreground.
pub open spec fn style_of(v: ThemeEntry, palette: Map<Seq<char>, RgbValue>) -> Option<Style> {
    match v {
        ThemeEntry::Text(s) => match color_named(s, palette) {
            Some(rgb) => Some(Style { fg: Some(rgb), bg: None }),
            None => None,
        },
        ThemeEntry::Table(t) => Some(
            Style {
                fg: color_under(t, "fg"@, palette),
                bg: color_under(t, "bg"@, palette),
            },
        ),
        ThemeEntry::Other => None,
    }
}

/// `m` with the styles of the first `n` entries of `t` put in.
pub open spec fn with_styles(
    m: Map<Seq<char>, Style>,
    t: Seq<(Seq<char>, ThemeEntry)>,
    palette: Map<Seq<char>, RgbValue>,
    n: int,
) -> Map<Seq<char>, Style>
    decreases n,
{
    if n <= 0 {
        m
    } else {
        let before = with_styles(m, t, palette, n - 1);
        match style_of(t[n - 1].1, palette) {
            Some(style) => before.insert(t[n - 1].0, style),
            None => before,
        }
    }
}

/// The styles of a chain of themes, from the theme at `i` to its furthest ancestor.
pub open spec fn merged_styles(
    chain: Seq<Raw>,
    palette: Map<Seq<char>, RgbValue>,
    i: int,
) -> Map<Seq<char>, Style>
    decreases chain.len() - i,
{
    if i >= chain.len() {
        Map::empty()
    } else {
        with_styles(
            merged_styles(chain, palette, i + 1),
            chain[i].styles,
            palette,
            chain[i].styles.len() as int,
        )
    }
}

/// A list of themes: their names and their texts.
pub open spec fn catalog_of(themes: Seq<(&'static str, &'static str)>) -> Seq<
    (Seq<char>, Seq<char>),
> {
    Seq::new(themes.len(), |i: int| (themes[i].0@, themes[i].1@))
}

/// A theme's text and those of the themes it inherits from, one after the other. `seen` holds the
/// names so far: a name that comes again ends the chain, and `room` bounds its length.
pub open spec fn chain_from(
    catalog: Seq<(Seq<char>, Seq<char>)>,
    seen: Seq<Seq<char>>,
    name: Seq<char>,
    text: Seq<char>,
    room: nat,
) -> Seq<Raw>
    decreases room,
{
    if room == 0 || seen.contains(name) {
        Seq::empty()
    } else {
        let raw = raw_of(text);
        seq![raw] + match raw.inherits {
            None => Seq::empty(),
            Some(parent) => match entry_of(catalog, parent, catalog.len() as int) {
                None => Seq::empty(),
                Some(parent_text) => chain_from(
                    catalog,
                    seen.push(name),
                    parent,
                    parent_text,
                    (room - 1) as nat,
                ),
            },
        }
    }
}

/// The chain of a theme. No name comes twice, so it has at most one member more than the catalog.
pub open spec fn chain_of(
    catalog: Seq<(Seq<char>, Seq<char>)>,
    name: Seq<char>,
    text: Seq<char>,
) -> Seq<Raw> {
    chain_from(catalog, Seq::empty(), name, text, catalog.len() + 1)
}

/// A theme: its name and its styles by scope.
pub struct HelixTheme {
    name: String,
    styles: KeyedMap<String, Style>,
}

/// What a [`HelixTheme`] stands for.
#[verifier::ext_equal]
pub struct Theme {
    pub name: Seq<char>,
    pub styles: Map<Seq<char>, Style>,
}

impl View for HelixTheme {
    type V = Theme;

    closed spec fn view(&self) -> Theme {
        Theme { name: self.name@, styles: self.styles@ }
    }
}

/// The themes of a chain, merged.
pub open spec fn theme_of_chain(name: Seq<char>, chain: Seq<Raw>) -> Theme {
    Theme { name, styles: merged_styles(chain, merged_palette(chain, 0), 0) }
}

/// The theme with a name in a catalog.
pub open spec fn theme_named(catalog: Seq<(Seq<char>, Seq<char>)>, name: Seq<char>) -> Option<
    Theme,
> {
    match entry_of(catalog, name, catalog.len() as int) {
        Some(text) => Some(theme_of_chain(name, chain_of(catalog, name, text))),
        None => None,
    }
}

/// The catalog of the themes that come with the program.
pub open spec fn builtin_catalog() -> Seq<(Seq<char>, Seq<char>)> {
    seq![(DEFAULT_THEME@, CATPPUCCIN_MOCHA@)]
}

/// The themes that come with the program.
pub fn builtin_themes() -> (r: Vec<(&'static str, &'static str)>)
    ensures
        catalog_of(r@) == builtin_catalog(),
{
    let mut themes: Vec<(&'static str, &'static str)> = Vec::new();
    themes.push((DEFAULT_THEME, CATPPUCCIN_MOCHA));
    assert(catalog_of(themes@) =~= builtin_catalog());
    themes
}

/// The text of the theme with a name.
fn find_theme(themes: &Vec<(&'static str, &'static str)>, name: &str) -> (r: Option<&'static str>)
    ensures
        match r {
            Some(text) => entry_of(catalog_of(themes@), name@, themes@.len() as int) == Some(
                text@,
            ),
            None => entry_of(catalog_of(themes@), name@, themes@.len() as int) is None,
        },
{
    let ghost all = catalog_of(themes@);
    let mut found: Option<&'static str> = None;
    let mut i: usize = 0;
    while i < themes.len()
        invariant
            i <= themes@.len(),
            all == catalog_of(themes@),
            match found {
                Some(text) => entry_of(all, name@, i as int) == Some(text@),
                None => entry_of(all, name@, i as int) is None,
            },
        decreases themes@.len() - i,
    {
        assert(all[i as int] == (themes@[i as int].0@, themes@[i as int].1@));
        if found.is_none() && same_text(themes[i].0, name) {
            found = Some(themes[i].1);
        }
        i += 1;
    }
    found
}

/// Whether a list of names holds a name.
fn holds_name(names: &Vec<String>, name: &str) -> (r: bool)
    ensures
        r == crate::text::texts(names@).contains(name@),
{
    let ghost all = crate::text::texts(names@);
    let mut i: usize = 0;
    while i < names.len()
        invariant
            i <= names@.len(),
            all == crate::text::texts(names@),
            forall|j: int| 0 <= j < i ==> all[j] != name@,
        decreases names@.len() - i,
    {
        if same_text(names[i].as_str(), name) {
            assert(all[i as int] == name@);
            return true;
        }
        i += 1;
    }
    false
}

/// The texts of some raw themes.
pub open spec fn raws(chain: Seq<RawTheme>) -> Seq<Raw> {
    Seq::new(chain.len(), |i: int| chain[i]@)
}

/// Reads a theme and the themes it inherits from.
fn collect_chain(
    themes: &Vec<(&'static str, &'static str)>,
    name: &str,
    toml_str: &str,
) -> (r: Vec<RawTheme>)
    requires
        themes@.len() < usize::MAX,
    ensures
        raws(r@) == chain_of(catalog_of(themes@), name@, toml_str@),
{
    let ghost catalog = catalog_of(themes@);
    let ghost whole = chain_of(catalog, name@, toml_str@);
    let mut chain: Vec<RawTheme> = Vec::new();
    let mut seen: Vec<String> = Vec::new();
    let mut room: usize = themes.len() + 1;
    let mut current_name: String = copy_of(name);
    let mut current_toml: String = copy_of(toml_str);
    let mut done = false;
    assert(crate::text::texts(seen@) =~= Seq::<Seq<char>>::empty());
    assert(raws(chain@) + chain_from(
        catalog,
        Seq::empty(),
        name@,
        toml_str@,
        catalog.len() + 1,
    ) =~= whole);
    while room > 0 && !done
        invariant
            catalog == catalog_of(themes@),
            !done ==> raws(chain@) + chain_from(
                catalog,
                crate::text::texts(seen@),
                current_name@,
                current_toml@,
                room as nat,
            ) == whole,
            done ==> raws(chain@) == whole,
        decreases room, !done as int,
    {
        let ghost before = raws(chain@);
        let ghost names = crate::text::texts(seen@);
        if holds_name(&seen, current_name.as_str()) {
            done = true;
            assert(before + Seq::<Raw>::empty() =~= before);
        } else {
            let raw = parse_theme(current_toml.as_str());
            let ghost value = raw@;
            let parent: Option<String> = match &raw.inherits {
                Some(p) => Some(copy_of(p.as_str())),
                None => None,
            };
            chain.push(raw);
            assert(raws(chain@) =~= before.push(value));
            let parent_toml: Option<&'static str> = match &parent {
                Some(p) => find_theme(themes, p.as_str()),
                None => None,
            };
            match (parent, parent_toml) {
                (Some(p), Some(t)) => {
                    let mut passed: String = p;
                    std::mem::swap(&mut passed, &mut current_name);
                    seen.push(passed);
                    assert(crate::text::texts(seen@) =~= names.push(passed@));
                    current_toml = copy_of(t);
                    room -= 1;
                    proof {
                        let rest = chain_from(
                            catalog,
                            crate::text::texts(seen@),
                            current_name@,
                            current_toml@,
                            room as nat,
                        );
                        assert(before + (seq![value] + rest) =~= before.push(value) + rest);
                    }
                },
                _ => {
                    done = true;
                    assert(before + (seq![value] + Seq::<Raw>::empty()) =~= before.push(value));
                },
            }
        }
    }
    assert(raws(chain@) + Seq::<Raw>::empty() =~= raws(chain@));
    chain
}

/// The colour that a text names.
fn find_color(s: &String, palette: &KeyedMap<String, RgbValue>) -> (r: Option<RgbValue>)
    ensures
        r == color_named(s@, palette@),
{
    if let Some(rgb) = parse_hex_color(s.as_str()) {
        return Some(rgb);
    }
    match palette.get(s) {
        Some(rgb) => Some(*rgb),
        None => None,
    }
}

/// The colour under a key of a style's table.
fn find_color_under(
    t: &Vec<(String, Option<String>)>,
    key: &str,
    palette: &KeyedMap<String, RgbValue>,
) -> (r: Option<RgbValue>)
    ensures
        r == color_under(
            Seq::new(t@.len(), |i: int| (t@[i].0@, optional_text(t@[i].1))),
            key@,
            palette@,
        ),
{
    let ghost all = Seq::new(t@.len(), |i: int| (t@[i].0@, optional_text(t@[i].1)));
    let mut found: Option<usize> = None;
    let mut i: usize = 0;
    while i < t.len()
        invariant
            i <= t@.len(),
            all == Seq::new(t@.len(), |i: int| (t@[i].0@, optional_text(t@[i].1))),
            match found {
                Some(k) => k < t@.len() && entry_of(all, key@, i as int) == Some(
                    optional_text(t@[k as int].1),
                ),
                None => entry_of(all, key@, i as int) is None,
            },
        decreases t@.len() - i,
    {
        assert(all[i as int] == (t@[i as int].0@, optional_text(t@[i as int].1)));
        if found.is_none() && same_text(t[i].0.as_str(), key) {
            found = Some(i);
        }
        i += 1;
    }
    match found {
        Some(k) => match &t[k].1 {
            Some(s) => find_color(s, palette),
            None => None,
        },
        None => None,
    }
}

/// The style that a value of a theme's table stands for.
pub fn resolve_style(val: &ThemeValue, palette: &KeyedMap<String, RgbValue>) -> (r: Option<Style>)
    ensures
        r == style_of(val@, palette@),
{
    match val {
        ThemeValue::Text(s) => match find_color(s, palette) {
            Some(rgb) => Some(Style { fg: Some(rgb), bg: None }),
            None => None,
        },
        ThemeValue::Table(t) => {
            let fg = find_color_under(t, "fg", palette);
            let bg = find_color_under(t, "bg", palette);
            Some(Style { fg, bg })
        },
        ThemeValue::Other => None,
    }
}

impl HelixTheme {
    /// Merges a chain of themes, the theme itself first.
    pub fn from_chain(name: &str, chain: &Vec<RawTheme>) -> (r: Self)
        ensures
            r@ == theme_of_chain(name@, raws(chain@)),
    {
        let ghost all = raws(chain@);
        let mut palette: KeyedMap<String, RgbValue> = KeyedMap::new();
        let mut i: usize = chain.len();
        while i > 0
            invariant
                i <= chain@.len(),
                all == raws(chain@),
                palette@ == merged_palette(all, i as int),
            decreases i,
        {
            i -= 1;
            let raw = &chain[i];
            let ghost base = palette@;
            let ghost p = palette_of(raw.palette@);
            assert(all[i as int] == raw@);
            let mut j: usize = 0;
            while j < raw.palette.len()
                invariant
                    j <= raw.palette@.len(),
                    p == palette_of(raw.palette@),
                    palette@ == with_palette(base, p, j as int),
                decreases raw.palette@.len() - j,
            {
                assert(p[j as int] == (raw.palette@[j as int].0@, raw.palette@[j as int].1));
                let key = copy_of(raw.palette[j].0.as_str());
                palette.insert(key, raw.palette[j].1);
                j += 1;
            }
        }
        let mut styles: KeyedMap<String, Style> = KeyedMap::new();
        let mut i: usize = chain.len();
        while i > 0
            invariant
                i <= chain@.len(),
                all == raws(chain@),
                palette@ == merged_palette(all, 0),
                styles@ == merged_styles(all, palette@, i as int),
            decreases i,
        {
            i -= 1;
            let raw = &chain[i];
            let ghost base = styles@;
            let ghost t = table_of(raw.styles@);
            assert(all[i as int] == raw@);
            let mut j: usize = 0;
            while j < raw.styles.len()
                invariant
                    j <= raw.styles@.len(),
                    t == table_of(raw.styles@),
                    styles@ == with_styles(base, t, palette@, j as int),
                decreases raw.styles@.len() - j,
            {
                assert(t[j as int] == (raw.styles@[j as int].0@, raw.styles@[j as int].1@));
                if let Some(style) = resolve_style(&raw.styles[j].1, &palette) {
                    let key = copy_of(raw.styles[j].0.as_str());
                    styles.insert(key, style);
                }
                j += 1;
            }
        }
        HelixTheme { name: copy_of(name), styles }
    }

    /// The theme with a name in a list of themes.
    pub fn from_list(themes: &Vec<(&'static str, &'static str)>, name: &str) -> (r: Option<Self>)
        requires
            themes@.len() < usize::MAX,
        ensures
            match r {
                Some(t) => theme_named(catalog_of(themes@), name@) == Some(t@),
                None => theme_named(catalog_of(themes@), name@) is None,
            },
    {
        match find_theme(themes, name) {
            Some(text) => {
                let chain = collect_chain(themes, name, text);
                Some(HelixTheme::from_chain(name, &chain))
            },
            None => None,
        }
    }

    /// The built-in theme with a name.
    pub fn from_name(name: &str) -> (r: Option<Self>)
        ensures
            match r {
                Some(t) => theme_named(builtin_catalog(), name@) == Some(t@),
                None => theme_named(builtin_catalog(), name@) is None,
            },
    {
        let themes = builtin_themes();
        assert(themes@.len() == builtin_catalog().len());
        HelixTheme::from_list(&themes, name)
    }

    /// The theme that is used where none is chosen.
    pub fn default() -> (r: Self)
        ensures
            theme_named(builtin_catalog(), DEFAULT_THEME@) == Some(r@),
    {
        proof {
            let c = builtin_catalog();
            reveal_with_fuel(entry_of, 2);
            assert(c[0].0 == DEFAULT_THEME@);
        }
        match HelixTheme::from_name(DEFAULT_THEME) {
            Some(theme) => theme,
            None => HelixTheme { name: String::new(), styles: KeyedMap::new() },
        }
    }

    /// The names of the built-in themes.
    pub fn theme_names() -> (r: Vec<&'static str>)
        ensures
            r@.len() == builtin_catalog().len(),
            forall|i: int|
                0 <= i < r@.len() ==> (#[trigger] r@[i])@ == builtin_catalog()[i].0,
    {
        let themes = builtin_themes();
        let mut names: Vec<&'static str> = Vec::new();
        let mut i: usize = 0;
        while i < themes.len()
            invariant
                i <= themes@.len(),
                catalog_of(themes@) == builtin_catalog(),
                names@.len() == i,
                forall|j: int|
                    0 <= j < i ==> (#[trigger] names@[j])@ == builtin_catalog()[j].0,
            decreases themes@.len() - i,
        {
            assert(catalog_of(themes@)[i as int].0 == themes@[i as int].0@);
            names.push(themes[i].0);
            i += 1;
        }
        assert(catalog_of(themes@).len() == themes@.len());
        names
    }

    /// The name of the theme.
    pub fn name(&self) -> (r: &str)
        ensures
            r@ == self@.name,
    {
        self.name.as_str()
    }

    /// A theme of its own with the same name and styles.
    pub fn copy(&self) -> (r: HelixTheme)
        ensures
            r@ == self@,
    {
        let mut styles: KeyedMap<String, Style> = KeyedMap::new();
        let n: usize = self.styles.len();
        let ghost order = self.styles.order();
        let mut i: usize = 0;
        assert(styles@ =~= crate::keyed::entries_map(order.take(0)));
        while i < n
            invariant
                i <= n,
                n == order.len(),
                order == self.styles.order(),
                crate::keyed::distinct_keys(order),
                styles@ == crate::keyed::entries_map(order.take(i as int)),
            decreases n - i,
        {
            let (key, style) = self.styles.entry_at(i);
            let key: String = copy_of(key.as_str());
            styles.insert(key, *style);
            proof {
                let e = order[i as int];
                assert(order.take(i + 1).drop_last() =~= order.take(i as int));
                assert(crate::keyed::entries_map(order.take(i + 1))
                    =~= crate::keyed::entries_map(order.take(i as int)).insert(e.0@, e.1));
            }
            i += 1;
        }
        assert(order.take(n as int) =~= order);
        HelixTheme { name: copy_of(self.name.as_str()), styles }
    }
}

/// The last dot among the first `n` characters.
pub open spec fn last_dot(s: Seq<char>, n: int) -> Option<int>
    decreases n,
{
    if n <= 0 {
        None
    } else if s[n - 1] == '.' {
        Some(n - 1)
    } else {
        last_dot(s, n - 1)
    }
}

/// The last dot lies in the text.
proof fn lemma_last_dot(s: Seq<char>, n: int)
    requires
        0 <= n <= s.len(),
    ensures
        last_dot(s, n) matches Some(i) ==> 0 <= i < n,
    decreases n,
{
    if n > 0 {
        lemma_last_dot(s, n - 1);
    }
}

/// The foreground of a scope or, where it has none, of the scope it is part of.
pub open spec fn scope_fg(styles: Map<Seq<char>, Style>, scope: Seq<char>) -> Option<RgbValue>
    decreases scope.len(),
{
    if styles.contains_key(scope) && styles[scope].fg is Some {
        styles[scope].fg
    } else {
        match last_dot(scope, scope.len() as int) {
            Some(i) => if 0 <= i < scope.len() {
                scope_fg(styles, scope.take(i))
            } else {
                None
            },
            None => None,
        }
    }
}

impl Theme {
    /// The foreground of a key of the user interface.
    pub open spec fn fg(self, key: Seq<char>) -> Option<RgbValue> {
        if self.styles.contains_key(key) {
            self.styles[key].fg
        } else {
            None
        }
    }

    /// The background of a key of the user interface.
    pub open spec fn bg(self, key: Seq<char>) -> Option<RgbValue> {
        if self.styles.contains_key(key) {
            self.styles[key].bg
        } else {
            None
        }
    }

    /// The colour of a scope: its own, or that of the nearest scope around it, or that of text.
    pub open spec fn scope_color(self, scope: Seq<char>) -> Option<RgbValue> {
        if scope_fg(self.styles, scope) is Some {
            scope_fg(self.styles, scope)
        } else {
            self.fg("ui.text"@)
        }
    }

    /// The first colour that one of the scopes from the `i`-th on has.
    pub open spec fn first_color(self, scopes: Seq<Seq<char>>, i: int) -> Option<RgbValue>
        decreases scopes.len() - i,
    {
        if i >= scopes.len() {
            None
        } else if self.scope_color(scopes[i]) is Some {
            self.scope_color(scopes[i])
        } else {
            self.first_color(scopes, i + 1)
        }
    }
}

/// Whether a text is one of some names.
pub open spec fn one_of(t: Seq<char>, names: Seq<Seq<char>>) -> bool {
    exists|i: int| 0 <= i < names.len() && #[trigger] names[i] == t
}

/// The scopes whose colours stand for a type of semantic token, in order of preference.
pub open spec fn token_scopes(t: Seq<char>) -> Seq<Seq<char>> {
    if one_of(t, seq!["keyword"@, "modifier"@, "selfKeyword"@, "boolean"@]) {
        seq!["keyword"@, "keyword.control"@, "keyword.storage.modifier"@]
    } else if one_of(t, seq!["string"@, "comment"@, "character"@, "escapeSequence"@]) {
        seq!["string"@, "comment"@]
    } else if one_of(t, seq!["number"@, "const"@, "static"@]) {
        seq!["constant.numeric"@, "constant"@]
    } else if one_of(t, seq![
        "type"@, "class"@, "struct"@, "enum"@, "interface"@, "namespace"@, "builtinType"@,
        "typeAlias"@, "typeParameter"@, "constParameter"@, "generic"@, "toolModule"@,
    ]) {
        seq!["type"@, "type.builtin"@, "namespace"@]
    } else if one_of(t, seq!["function"@, "method"@]) {
        seq!["function"@, "function.method"@, "function.builtin"@]
    } else if one_of(t, seq!["macro"@, "attributeBracket"@, "builtinAttribute"@, "decorator"@]) {
        seq!["function.macro"@, "function.special"@, "function"@, "attribute"@]
    } else if one_of(t, seq!["variable"@, "parameter"@, "property"@, "enumMember"@]) {
        seq!["variable"@, "variable.parameter"@, "variable.other.member"@, "variable.builtin"@]
    } else if one_of(t, seq!["operator"@, "lifetime"@]) {
        seq!["operator"@, "label"@]
    } else {
        Seq::empty()
    }
}

/// The texts of some literals.
pub open spec fn literals(names: Seq<&'static str>) -> Seq<Seq<char>> {
    Seq::new(names.len(), |i: int| names[i]@)
}

/// Whether a text is one of some names.
fn is_one_of(t: &str, names: &Vec<&'static str>) -> (r: bool)
    ensures
        r == one_of(t@, literals(names@)),
{
    let ghost all = literals(names@);
    let mut i: usize = 0;
    while i < names.len()
        invariant
            i <= names@.len(),
            all == literals(names@),
            forall|j: int| 0 <= j < i ==> #[trigger] all[j] != t@,
        decreases names@.len() - i,
    {
        if same_text(names[i], t) {
            assert(all[i as int] == t@);
            return true;
        }
        i += 1;
    }
    false
}

/// The scopes whose colours stand for a type of semantic token, in order of preference.
pub fn lsp_token_scopes(token_type: &str) -> (r: Vec<&'static str>)
    ensures
        literals(r@) == token_scopes(token_type@),
{
    let names: Vec<&'static str> = vec!["keyword", "modifier", "selfKeyword", "boolean"];
    assert(literals(names@) =~= seq!["keyword"@, "modifier"@, "selfKeyword"@, "boolean"@]);
    if is_one_of(token_type, &names) {
        let scopes: Vec<&'static str> = vec![
            "keyword", "keyword.control", "keyword.storage.modifier",
        ];
        assert(literals(scopes@) =~= seq![
            "keyword"@, "keyword.control"@, "keyword.storage.modifier"@,
        ]);
        return scopes;
    }
    let names: Vec<&'static str> = vec!["string", "comment", "character", "escapeSequence"];
    assert(literals(names@) =~= seq!["string"@, "comment"@, "character"@, "escapeSequence"@]);
    if is_one_of(token_type, &names) {
        let scopes: Vec<&'static str> = vec!["string", "comment"];
        assert(literals(scopes@) =~= seq!["string"@, "comment"@]);
        return scopes;
    }
    let names: Vec<&'static str> = vec!["number", "const", "static"];
    assert(literals(names@) =~= seq!["number"@, "const"@, "static"@]);
    if is_one_of(token_type, &names) {
        let scopes: Vec<&'static str> = vec!["constant.numeric", "constant"];
        assert(literals(scopes@) =~= seq!["constant.numeric"@, "constant"@]);
        return scopes;
    }
    let names: Vec<&'static str> = vec![
        "type", "class", "struct", "enum", "interface", "namespace", "builtinType", "typeAlias",
        "typeParameter", "constParameter", "generic", "toolModule",
    ];
    assert(literals(names@) =~= seq![
        "type"@, "class"@, "struct"@, "enum"@, "interface"@, "namespace"@, "builtinType"@,
        "typeAlias"@, "typeParameter"@, "constParameter"@, "generic"@, "toolModule"@,
    ]);
    if is_one_of(token_type, &names) {
        let scopes: Vec<&'static str> = vec!["type", "type.builtin", "namespace"];
        assert(literals(scopes@) =~= seq!["type"@, "type.builtin"@, "namespace"@]);
        return scopes;
    }
    let names: Vec<&'static str> = vec!["function", "method"];
    assert(literals(names@) =~= seq!["function"@, "method"@]);
    if is_one_of(token_type, &names) {
        let scopes: Vec<&'static str> = vec!["function", "function.method", "function.builtin"];
        assert(literals(scopes@) =~= seq!["function"@, "function.method"@, "function.builtin"@]);
        return scopes;
    }
    let names: Vec<&'static str> = vec![
        "macro", "attributeBracket", "builtinAttribute", "decorator",
    ];
    assert(literals(names@) =~= seq![
        "macro"@, "attributeBracket"@, "builtinAttribute"@, "decorator"@,
    ]);
    if is_one_of(token_type, &names) {
        let scopes: Vec<&'static str> = vec![
            "function.macro", "function.special", "function", "attribute",
        ];
        assert(literals(scopes@) =~= seq![
            "function.macro"@, "function.special"@, "function"@, "attribute"@,
        ]);
        return scopes;
    }
    let names: Vec<&'static str> = vec!["variable", "parameter", "property", "enumMember"];
    assert(literals(names@) =~= seq!["variable"@, "parameter"@, "property"@, "enumMember"@]);
    if is_one_of(token_type, &names) {
        let scopes: Vec<&'static str> = vec![
            "variable", "variable.parameter", "variable.other.member", "variable.builtin",
        ];
        assert(literals(scopes@) =~= seq![
            "variable"@, "variable.parameter"@, "variable.other.member"@, "variable.builtin"@,
        ]);
        return scopes;
    }
    let names: Vec<&'static str> = vec!["operator", "lifetime"];
    assert(literals(names@) =~= seq!["operator"@, "lifetime"@]);
    if is_one_of(token_type, &names) {
        let scopes: Vec<&'static str> = vec!["operator", "label"];
        assert(literals(scopes@) =~= seq!["operator"@, "label"@]);
        return scopes;
    }
    let none: Vec<&'static str> = Vec::new();
    assert(literals(none@) =~= Seq::empty());
    none
}

impl HelixTheme {
    /// The colour of a scope: its own, or that of the nearest scope around it, or that of text.
    pub fn color_for_scope(&self, scope: &str) -> (r: Option<RgbValue>)
        ensures
            r == self@.scope_color(scope@),
    {
        let chars = chars_of(scope);
        let mut n: usize = chars.len();
        let ghost whole = scope@;
        assert(whole.take(n as int) =~= whole);
        loop
            invariant
                chars@ == whole,
                whole == scope@,
                n <= whole.len(),
                scope_fg(self@.styles, whole.take(n as int)) == scope_fg(self@.styles, whole),
            ensures
                scope_fg(self@.styles, whole) is None,
            decreases n,
        {
            let part = text_of(&chars, 0, n);
            proof {
                assert(part@ =~= whole.take(n as int));
                lemma_last_dot(part@, n as int);
            }
            if let Some(style) = self.styles.get(&part) {
                if let Some(fg) = style.fg {
                    return Some(fg);
                }
            }
            let mut i: usize = n;
            while i > 0 && chars[i - 1] != '.'
                invariant
                    i <= n <= chars@.len(),
                    chars@ == whole,
                    part@ == whole.take(n as int),
                    last_dot(part@, i as int) == last_dot(part@, n as int),
                decreases i,
            {
                assert(part@[i - 1] == chars@[i - 1]);
                i -= 1;
            }
            if i == 0 {
                break;
            }
            proof {
                assert(part@[i - 1] == chars@[i - 1]);
                assert(part@.take(i - 1) =~= whole.take(i - 1));
            }
            n = i - 1;
        }
        self.ui_fg("ui.text")
    }

    /// The colour of a type of semantic token.
    pub fn color_for_lsp_token(&self, token_type: &str) -> (r: Option<RgbValue>)
        ensures
            r == self@.first_color(token_scopes(token_type@), 0),
    {
        let scopes = lsp_token_scopes(token_type);
        let ghost all = literals(scopes@);
        let mut i: usize = 0;
        while i < scopes.len()
            invariant
                i <= scopes@.len(),
                all == literals(scopes@),
                all == token_scopes(token_type@),
                self@.first_color(all, i as int) == self@.first_color(all, 0),
            decreases scopes@.len() - i,
        {
            assert(all[i as int] == scopes@[i as int]@);
            if let Some(color) = self.color_for_scope(scopes[i]) {
                return Some(color);
            }
            i += 1;
        }
        None
    }

    /// The foreground of a key of the user interface.
    pub fn ui_fg(&self, key: &str) -> (r: Option<RgbValue>)
        ensures
            r == self@.fg(key@),
    {
        let key = copy_of(key);
        match self.styles.get(&key) {
            Some(style) => style.fg,
            None => None,
        }
    }

    /// The background of a key of the user interface.
    pub fn ui_bg(&self, key: &str) -> (r: Option<RgbValue>)
        ensures
            r == self@.bg(key@),
    {
        let key = copy_of(key);
        match self.styles.get(&key) {
            Some(style) => style.bg,
            None => None,
        }
    }
}

/// A style that a theme sets itself goes before the one it inherits: where the last of its entries
/// with a key stands for a style, that is the style of the key.
pub proof fn law_own_style_overrides_inherited(
    chain: Seq<Raw>,
    palette: Map<Seq<char>, RgbValue>,
    k: int,
)
    requires
        chain.len() > 0,
        0 <= k < chain[0].styles.len(),
        style_of(chain[0].styles[k].1, palette) is Some,
        forall|j: int|
            k < j < chain[0].styles.len() ==> (#[trigger] chain[0].styles[j]).0
                != chain[0].styles[k].0,
    ensures
        merged_styles(chain, palette, 0).contains_pair(
            chain[0].styles[k].0,
            style_of(chain[0].styles[k].1, palette)->0,
        ),
{
    lemma_last_style_stays(
        merged_styles(chain, palette, 1),
        chain[0].styles,
        palette,
        k,
        chain[0].styles.len() as int,
    );
}

proof fn lemma_last_style_stays(
    m: Map<Seq<char>, Style>,
    t: Seq<(Seq<char>, ThemeEntry)>,
    palette: Map<Seq<char>, RgbValue>,
    k: int,
    n: int,
)
    requires
        0 <= k < n <= t.len(),
        style_of(t[k].1, palette) is Some,
        forall|j: int| k < j < t.len() ==> (#[trigger] t[j]).0 != t[k].0,
    ensures
        with_styles(m, t, palette, n).contains_pair(t[k].0, style_of(t[k].1, palette)->0),
    decreases n,
{
    if n > k + 1 {
        lemma_last_style_stays(m, t, palette, k, n - 1);
        assert(t[n - 1].0 != t[k].0);
    }
}

/// What a theme does not set itself, it has from its parents.
pub proof fn law_other_styles_are_inherited(
    chain: Seq<Raw>,
    palette: Map<Seq<char>, RgbValue>,
    key: Seq<char>,
)
    requires
        chain.len() > 0,
        forall|j: int| 0 <= j < chain[0].styles.len() ==> (#[trigger] chain[0].styles[j]).0 != key,
    ensures
        merged_styles(chain, palette, 0).contains_key(key) == merged_styles(
            chain,
            palette,
            1,
        ).contains_key(key),
        merged_styles(chain, palette, 0)[key] == merged_styles(chain, palette, 1)[key],
{
    lemma_other_keys_stay(
        merged_styles(chain, palette, 1),
        chain[0].styles,
        palette,
        key,
        chain[0].styles.len() as int,
    );
}

proof fn lemma_other_keys_stay(
    m: Map<Seq<char>, Style>,
    t: Seq<(Seq<char>, ThemeEntry)>,
    palette: Map<Seq<char>, RgbValue>,
    key: Seq<char>,
    n: int,
)
    requires
        0 <= n <= t.len(),
        forall|j: int| 0 <= j < t.len() ==> (#[trigger] t[j]).0 != key,
    ensures
        with_styles(m, t, palette, n).contains_key(key) == m.contains_key(key),
        with_styles(m, t, palette, n)[key] == m[key],
    decreases n,
{
    if n > 0 {
        lemma_other_keys_stay(m, t, palette, key, n - 1);
        assert(t[n - 1].0 != key);
    }
}

} // verus!
