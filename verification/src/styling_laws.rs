//! Which colours a theme gives, and what a configuration says.

use vstd::prelude::*;
use crate::config::{
    CountersConfig, Entry, Node, Setting, Settings, argument, binds_in, counters_in,
};
use crate::render::RgbValue;
use crate::theme::{
    Raw, Style, ThemeEntry, chain_from, chain_of, color_named, entry_of, hex_color, hex_pair,
    hex_value, last_dot, merged_palette, raw_of, scope_fg, style_of, with_palette,
};

verus! {

/// Two hexadecimal digits for a number, in small or in capital letters.
pub open spec fn hex_digits(n: u8, capital: bool) -> Seq<char> {
    let digits = if capital {
        "0123456789ABCDEF"@
    } else {
        "0123456789abcdef"@
    };
    seq![digits[n as int / 16], digits[n as int % 16]]
}

/// A colour in hexadecimal notation.
pub open spec fn hex_notation(c: RgbValue, capital: bool) -> Seq<char> {
    hex_digits(c.red, capital) + hex_digits(c.green, capital) + hex_digits(c.blue, capital)
}

/// The digits of a number give the number.
proof fn lemma_hex_digits(n: u8, capital: bool)
    ensures
        hex_pair(hex_digits(n, capital)[0], hex_digits(n, capital)[1]) == Some(
            n as int,
        ),
        hex_digits(n, capital)[0] != '#',
{
    reveal_strlit("0123456789ABCDEF");
    reveal_strlit("0123456789abcdef");
    let a = n as int / 16;
    let b = n as int % 16;
    lemma_hex_digit(a, capital);
    lemma_hex_digit(b, capital);
    assert(16 * a + b == n);
}

/// A digit stands for its place among the digits.
proof fn lemma_hex_digit(a: int, capital: bool)
    requires
        0 <= a < 16,
    ensures
        ({
            let digits = if capital {
                "0123456789ABCDEF"@
            } else {
                "0123456789abcdef"@
            };
            hex_value(digits[a]) == Some(a) && digits[a] != '#' && digits[a] != '+'
        }),
{
    reveal_strlit("0123456789ABCDEF");
    reveal_strlit("0123456789abcdef");
}

/// Every colour in hexadecimal notation is read as that colour, with `#` in front or without.
pub proof fn law_written_color_reads_back(c: RgbValue, capital: bool)
    ensures
        hex_color(hex_notation(c, capital)) == Some(c),
        hex_color(seq!['#'] + hex_notation(c, capital)) == Some(c),
{
    lemma_hex_digits(c.red, capital);
    lemma_hex_digits(c.green, capital);
    lemma_hex_digits(c.blue, capital);
    let text = hex_notation(c, capital);
    assert(text.len() == 6);
    assert(text[0] == hex_digits(c.red, capital)[0]);
    assert(text[1] == hex_digits(c.red, capital)[1]);
    assert(text[2] == hex_digits(c.green, capital)[0]);
    assert(text[3] == hex_digits(c.green, capital)[1]);
    assert(text[4] == hex_digits(c.blue, capital)[0]);
    assert(text[5] == hex_digits(c.blue, capital)[1]);
    assert((seq!['#'] + text).skip(1) =~= text);
}

/// Three digits stand for six: each is written twice.
pub proof fn law_short_color_is_doubled(a: char, b: char, c: char)
    requires
        a != '#' && a != '+' && b != '+' && c != '+',
    ensures
        hex_color(seq![a, b, c]) == hex_color(seq![a, a, b, b, c, c]),
{
    let short = seq![a, b, c];
    let long = seq![a, a, b, b, c, c];
    assert(short[0] == a && short[1] == b && short[2] == c);
    assert(long[0] == a && long[1] == a && long[2] == b && long[3] == b && long[4] == c && long[5]
        == c);
}

/// A scope without a colour of its own has that of the scope around it: of what stands before its
/// last dot. One without a dot has none.
pub proof fn law_scope_falls_back(
    styles: Map<Seq<char>, Style>,
    around: Seq<char>,
    name: Seq<char>,
)
    requires
        !name.contains('.'),
    ensures
        ({
            let scope = around + seq!['.'] + name;
            &&& styles.contains_key(scope) && styles[scope].fg is Some ==> scope_fg(styles, scope)
                == styles[scope].fg
            &&& !(styles.contains_key(scope) && styles[scope].fg is Some) ==> scope_fg(
                styles,
                scope,
            ) == scope_fg(styles, around)
            &&& scope_fg(styles, name) == if styles.contains_key(name) {
                styles[name].fg
            } else {
                None
            }
        }),
{
    let scope = around + seq!['.'] + name;
    lemma_last_dot_before(scope, scope.len() as int, around.len() as int);
    assert(scope.take(around.len() as int) =~= around);
    lemma_no_dot(name, name.len() as int);
}

/// The last dot is the one behind which no other stands.
proof fn lemma_last_dot_before(s: Seq<char>, n: int, at: int)
    requires
        0 <= at < n <= s.len(),
        s[at] == '.',
        forall|i: int| at < i < n ==> s[i] != '.',
    ensures
        last_dot(s, n) == Some(at),
    decreases n,
{
    if at < n - 1 {
        lemma_last_dot_before(s, n - 1, at);
    }
}

proof fn lemma_no_dot(s: Seq<char>, n: int)
    requires
        !s.contains('.'),
        0 <= n <= s.len(),
    ensures
        last_dot(s, n) is None,
    decreases n,
{
    if n > 0 {
        assert(s.contains(s[n - 1]));
        lemma_no_dot(s, n - 1);
    }
}

/// A theme's own colour goes before one of the same name that it inherits, and the last of them in
/// its palette before the others; colours of other names are inherited.
pub proof fn law_own_color_overrides_inherited(chain: Seq<Raw>, name: Seq<char>, k: int)
    requires
        chain.len() > 0,
    ensures
        0 <= k < chain[0].palette.len() && chain[0].palette[k].0 == name && (forall|j: int|
            k < j < chain[0].palette.len() ==> (#[trigger] chain[0].palette[j]).0 != name)
            ==> merged_palette(chain, 0).contains_pair(name, chain[0].palette[k].1),
        (forall|j: int|
            0 <= j < chain[0].palette.len() ==> (#[trigger] chain[0].palette[j]).0 != name) ==> (
        merged_palette(chain, 0).contains_key(name) == merged_palette(
            chain.skip(1),
            0,
        ).contains_key(name) && merged_palette(chain, 0)[name] == merged_palette(
            chain.skip(1),
            0,
        )[name]),
{
    lemma_palette_of_rest(chain, 1);
    let p = chain[0].palette;
    let m = merged_palette(chain, 1);
    if forall|j: int| 0 <= j < p.len() ==> (#[trigger] p[j]).0 != name {
        lemma_others_stay(m, p, p.len() as int, name);
    }
    if 0 <= k < p.len() && p[k].0 == name && (forall|j: int|
        k < j < p.len() ==> (#[trigger] p[j]).0 != name) {
        lemma_last_color_stays(m, p, p.len() as int, k);
    }
}

proof fn lemma_palette_of_rest(chain: Seq<Raw>, i: int)
    requires
        1 <= i,
        1 <= chain.len(),
    ensures
        merged_palette(chain.skip(1), i - 1) == merged_palette(chain, i),
    decreases chain.len() - i,
{
    if i < chain.len() {
        lemma_palette_of_rest(chain, i + 1);
        assert(chain.skip(1)[i - 1] == chain[i]);
    }
}

proof fn lemma_others_stay(
    m: Map<Seq<char>, RgbValue>,
    p: Seq<(Seq<char>, RgbValue)>,
    n: int,
    name: Seq<char>,
)
    requires
        0 <= n <= p.len(),
        forall|j: int| 0 <= j < n ==> (#[trigger] p[j]).0 != name,
    ensures
        with_palette(m, p, n).contains_key(name) == m.contains_key(name),
        with_palette(m, p, n)[name] == m[name],
    decreases n,
{
    if n > 0 {
        lemma_others_stay(m, p, n - 1, name);
        assert(p[n - 1].0 != name);
    }
}

proof fn lemma_last_color_stays(
    m: Map<Seq<char>, RgbValue>,
    p: Seq<(Seq<char>, RgbValue)>,
    n: int,
    k: int,
)
    requires
        0 <= k < n <= p.len(),
        forall|j: int| k < j < n ==> (#[trigger] p[j]).0 != p[k].0,
    ensures
        with_palette(m, p, n).contains_pair(p[k].0, p[k].1),
    decreases n,
{
    if k < n - 1 {
        lemma_last_color_stays(m, p, n - 1, k);
        assert(p[n - 1].0 != p[k].0);
    }
}

/// The first entry with a key is the one that is found.
proof fn lemma_first_entry<T>(t: Seq<(Seq<char>, T)>, k: int, n: int)
    requires
        0 <= k < n <= t.len(),
        forall|j: int| 0 <= j < k ==> (#[trigger] t[j]).0 != t[k].0,
    ensures
        entry_of(t, t[k].0, n) == Some(t[k].1),
    decreases n,
{
    if k < n - 1 {
        lemma_first_entry(t, k, n - 1);
    } else {
        lemma_no_entry(t, t[k].0, n - 1);
    }
}

proof fn lemma_no_entry<T>(t: Seq<(Seq<char>, T)>, key: Seq<char>, n: int)
    requires
        0 <= n <= t.len(),
        forall|j: int| 0 <= j < n ==> (#[trigger] t[j]).0 != key,
    ensures
        entry_of(t, key, n) is None,
    decreases n,
{
    if n > 0 {
        lemma_no_entry(t, key, n - 1);
        assert(t[n - 1].0 != key);
    }
}

/// A style's table gives its foreground and its background each by its own key, and a colour alone
/// is a foreground.
pub proof fn law_style_has_colors_of_its_keys(
    t: Seq<(Seq<char>, Option<Seq<char>>)>,
    k: int,
    s: Seq<char>,
    palette: Map<Seq<char>, RgbValue>,
)
    requires
        0 <= k < t.len(),
        t[k].1 == Some(s),
        forall|j: int| 0 <= j < t.len() && j != k ==> (#[trigger] t[j]).0 != t[k].0,
    ensures
        t[k].0 == "fg"@ ==> (style_of(ThemeEntry::Table(t), palette) matches Some(style)
            && style.fg == color_named(s, palette)),
        t[k].0 == "bg"@ ==> (style_of(ThemeEntry::Table(t), palette) matches Some(style)
            && style.bg == color_named(s, palette)),
        style_of(ThemeEntry::Text(s), palette) == match color_named(s, palette) {
            Some(c) => Some(Style { fg: Some(c), bg: None }),
            None => None,
        },
{
    lemma_first_entry(t, k, t.len() as int);
}

/// A theme that inherits from another one of the catalog is followed by that one.
pub proof fn law_theme_is_followed_by_its_parent(
    catalog: Seq<(Seq<char>, Seq<char>)>,
    name: Seq<char>,
    text: Seq<char>,
    k: int,
)
    requires
        0 <= k < catalog.len(),
        raw_of(text).inherits == Some(catalog[k].0),
        catalog[k].0 != name,
        forall|j: int| 0 <= j < k ==> (#[trigger] catalog[j]).0 != catalog[k].0,
    ensures
        chain_of(catalog, name, text).len() >= 2,
        chain_of(catalog, name, text)[0] == raw_of(text),
        chain_of(catalog, name, text)[1] == raw_of(catalog[k].1),
{
    lemma_first_entry(catalog, k, catalog.len() as int);
    reveal_with_fuel(chain_from, 3);
    let seen = Seq::<Seq<char>>::empty().push(name);
    assert(!seen.contains(catalog[k].0));
}

/// The argument of a node is its first entry without a name.
pub proof fn law_argument_is_first_unnamed(entries: Seq<Entry>, k: int)
    requires
        0 <= k < entries.len(),
        entries[k].name is None,
        forall|j: int| 0 <= j < k ==> (#[trigger] entries[j]).name is Some,
    ensures
        argument(entries, 0) == Some(entries[k].value),
{
    lemma_argument(entries, k, 0);
}

proof fn lemma_argument(entries: Seq<Entry>, k: int, i: int)
    requires
        0 <= i <= k < entries.len(),
        entries[k].name is None,
        forall|j: int| 0 <= j < k ==> (#[trigger] entries[j]).name is Some,
    ensures
        argument(entries, i) == Some(entries[k].value),
    decreases k - i,
{
    if i < k {
        assert(entries[i].name is Some);
        lemma_argument(entries, k, i + 1);
    }
}

/// The key that a binding names, where it names one.
pub open spec fn key_of(leaf: Node) -> Option<Seq<char>> {
    match argument(leaf.entries, 0) {
        Some(Setting::Text(key)) => Some(key),
        _ => None,
    }
}

/// A block of bindings gives each action with its key, in the order in which they stand; the first
/// that names no key is an error that tells its name.
pub proof fn law_bindings_are_read_in_order(b: Seq<(Seq<char>, Seq<char>)>, leaves: Seq<Node>)
    ensures
        (forall|i: int| 0 <= i < leaves.len() ==> key_of(#[trigger] leaves[i]) is Some) ==> binds_in(
            b,
            leaves,
            0,
        ) == Ok::<Seq<(Seq<char>, Seq<char>)>, Seq<char>>(
            b + Seq::new(leaves.len(), |i: int| (leaves[i].name, key_of(leaves[i])->0)),
        ),
        forall|k: int|
            #![trigger leaves[k]]
            0 <= k < leaves.len() && key_of(leaves[k]) is None && (forall|i: int|
                0 <= i < k ==> key_of(#[trigger] leaves[i]) is Some) ==> binds_in(b, leaves, 0)
                == Err::<Seq<(Seq<char>, Seq<char>)>, Seq<char>>(
                "keybinding '"@ + leaves[k].name + "' must have a string key argument"@,
            ),
{
    if forall|i: int| 0 <= i < leaves.len() ==> key_of(#[trigger] leaves[i]) is Some {
        lemma_bindings(b, leaves, 0);
        let all = Seq::new(leaves.len(), |i: int| (leaves[i].name, key_of(leaves[i])->0));
        assert(all.skip(0) =~= all);
    }
    assert forall|k: int|
        #![trigger leaves[k]]
        0 <= k < leaves.len() && key_of(leaves[k]) is None && (forall|i: int|
            0 <= i < k ==> key_of(#[trigger] leaves[i]) is Some) implies binds_in(b, leaves, 0)
        == Err::<Seq<(Seq<char>, Seq<char>)>, Seq<char>>(
        "keybinding '"@ + leaves[k].name + "' must have a string key argument"@,
    ) by {
        lemma_bad_binding(b, leaves, k, 0);
    }
}

proof fn lemma_bindings(b: Seq<(Seq<char>, Seq<char>)>, leaves: Seq<Node>, i: int)
    requires
        0 <= i <= leaves.len(),
        forall|j: int| 0 <= j < leaves.len() ==> key_of(#[trigger] leaves[j]) is Some,
    ensures
        binds_in(b, leaves, i) == Ok::<Seq<(Seq<char>, Seq<char>)>, Seq<char>>(
            b + Seq::new(leaves.len(), |j: int| (leaves[j].name, key_of(leaves[j])->0)).skip(i),
        ),
    decreases leaves.len() - i,
{
    let all = Seq::new(leaves.len(), |j: int| (leaves[j].name, key_of(leaves[j])->0));
    if i < leaves.len() {
        assert(key_of(leaves[i]) is Some);
        let next = b.push(all[i]);
        lemma_bindings(next, leaves, i + 1);
        assert(next + all.skip(i + 1) =~= b + all.skip(i));
    } else {
        assert(b + all.skip(i) =~= b);
    }
}

proof fn lemma_bad_binding(b: Seq<(Seq<char>, Seq<char>)>, leaves: Seq<Node>, k: int, i: int)
    requires
        0 <= i <= k < leaves.len(),
        key_of(leaves[k]) is None,
        forall|j: int| 0 <= j < k ==> key_of(#[trigger] leaves[j]) is Some,
    ensures
        binds_in(b, leaves, i) == Err::<Seq<(Seq<char>, Seq<char>)>, Seq<char>>(
            "keybinding '"@ + leaves[k].name + "' must have a string key argument"@,
        ),
    decreases k - i,
{
    if i < k {
        assert(key_of(leaves[i]) is Some);
        lemma_bad_binding(b.push((leaves[i].name, key_of(leaves[i])->0)), leaves, k, i + 1);
    }
}

/// The last node of a name in the block of the counters decides on what it names, and on nothing
/// else.
pub proof fn law_counters_are_set_by_name(
    c: CountersConfig,
    leaves: Seq<Node>,
    last: Node,
    val: bool,
)
    requires
        argument(last.entries, 0) == Some(Setting::Flag(val)),
        counters_in(c, leaves, 0) is Ok,
    ensures
        counters_in(c, leaves.push(last), 0) matches Ok(after) && {
            let before = counters_in(c, leaves, 0)->Ok_0;
            &&& after.show == if last.name == "show"@ {
                val
            } else {
                before.show
            }
            &&& after.render_counts_as_active == if last.name == "render-counts-as-active"@ {
                val
            } else {
                before.render_counts_as_active
            }
        },
{
    reveal_strlit("show");
    reveal_strlit("render-counts-as-active");
    assert("show"@.len() != "render-counts-as-active"@.len());
    lemma_counters_pushed(c, leaves, last, 0);
}

proof fn lemma_counters_pushed(c: CountersConfig, leaves: Seq<Node>, last: Node, i: int)
    requires
        0 <= i <= leaves.len(),
        counters_in(c, leaves, i) is Ok,
    ensures
        counters_in(c, leaves.push(last), i) == counters_in(
            counters_in(c, leaves, i)->Ok_0,
            leaves.push(last),
            leaves.len() as int,
        ),
        argument(last.entries, 0) matches Some(Setting::Flag(val)) ==> counters_in(
            counters_in(c, leaves, i)->Ok_0,
            leaves.push(last),
            leaves.len() as int,
        ) == Ok::<CountersConfig, Seq<char>>(
            if last.name == "show"@ {
                CountersConfig { show: val, ..counters_in(c, leaves, i)->Ok_0 }
            } else if last.name == "render-counts-as-active"@ {
                CountersConfig { render_counts_as_active: val, ..counters_in(c, leaves, i)->Ok_0 }
            } else {
                counters_in(c, leaves, i)->Ok_0
            },
        ),
    decreases leaves.len() - i,
{
    let more = leaves.push(last);
    if i < leaves.len() {
        assert(more[i] == leaves[i]);
        if let Some(Setting::Flag(val)) = argument(leaves[i].entries, 0) {
            let next = if leaves[i].name == "show"@ {
                CountersConfig { show: val, ..c }
            } else if leaves[i].name == "render-counts-as-active"@ {
                CountersConfig { render_counts_as_active: val, ..c }
            } else {
                c
            };
            lemma_counters_pushed(next, leaves, last, i + 1);
        }
    } else {
        assert(more[i] == last);
        reveal_with_fuel(counters_in, 2);
    }
}

/// A node that the configuration does not know changes no setting, and each of the others only its
/// own.
pub proof fn law_node_sets_its_own(s: Settings, node: Node)
    ensures
        s.with_node(node) matches Ok(after) ==> {
            &&& node.name != "theme"@ ==> after.theme == s.theme
            &&& node.name != "keybindings"@ ==> after.keybindings == s.keybindings
            &&& node.name != "counters"@ ==> after.counters == s.counters
            &&& node.name == "theme"@ ==> Some(Setting::Text(after.theme->0)) == argument(
                node.entries,
                0,
            ) && after.theme is Some
        },
        node.name != "theme"@ && node.name != "keybindings"@ && node.name != "counters"@
            ==> s.with_node(node) is Ok,
{
    reveal_strlit("theme");
    reveal_strlit("keybindings");
    reveal_strlit("counters");
    assert("theme"@.len() != "counters"@.len());
    assert("theme"@.len() != "keybindings"@.len());
    assert("counters"@.len() != "keybindings"@.len());
}

} // verus!
