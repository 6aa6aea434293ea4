//! The configuration file.

use kdl::{KdlDocument, KdlEntry, KdlError, KdlIdentifier, KdlNode, KdlValue};
use vstd::prelude::*;
use crate::bytes::same_text;
use crate::text::{chars_of, copy_of, is_white_space, is_whitespace, joined};
use crate::theme::optional_text;

verus! {

/// A value in the configuration file.
#[derive(Debug)]
pub enum ConfigValue {
    Text(String),
    Flag(bool),
    /// A number or a null, in its usual notation.
    Other(String),
}

/// What a [`ConfigValue`] stands for.
#[verifier::ext_equal]
pub enum Setting {
    Text(Seq<char>),
    Flag(bool),
    Other(Seq<char>),
}

impl View for ConfigValue {
    type V = Setting;

    open spec fn view(&self) -> Setting {
        match *self {
            ConfigValue::Text(s) => Setting::Text(s@),
            ConfigValue::Flag(b) => Setting::Flag(b),
            ConfigValue::Other(s) => Setting::Other(s@),
        }
    }
}

/// An entry of a node: a value, which may have a name and an annotation.
#[derive(Debug)]
pub struct ConfigEntry {
    pub name: Option<String>,
    pub annotation: Option<String>,
    pub value: ConfigValue,
}

/// What a [`ConfigEntry`] stands for.
#[verifier::ext_equal]
pub struct Entry {
    pub name: Option<Seq<char>>,
    pub annotation: Option<Seq<char>>,
    pub value: Setting,
}

impl View for ConfigEntry {
    type V = Entry;

    open spec fn view(&self) -> Entry {
        Entry {
            name: optional_text(self.name),
            annotation: optional_text(self.annotation),
            value: self.value@,
        }
    }
}

/// A node of the configuration file, with the nodes of its block, where it has one.
#[derive(Debug)]
pub struct ConfigNode {
    pub name: String,
    pub annotation: Option<String>,
    pub entries: Vec<ConfigEntry>,
    pub children: Option<Vec<ConfigNode>>,
}

/// What a [`ConfigNode`] stands for.
#[verifier::ext_equal]
pub struct Node {
    pub name: Seq<char>,
    pub annotation: Option<Seq<char>>,
    pub entries: Seq<Entry>,
    pub children: Option<Seq<Node>>,
}

/// What some entries stand for.
pub open spec fn entries_of(entries: Seq<ConfigEntry>) -> Seq<Entry> {
    Seq::new(entries.len(), |i: int| entries[i]@)
}

/// What a node stands for.
pub open spec fn node_of(node: ConfigNode) -> Node
    decreases node,
{
    Node {
        name: node.name@,
        annotation: optional_text(node.annotation),
        entries: entries_of(node.entries@),
        children: match node.children {
            Some(children) => Some(nodes_of(children@)),
            None => None,
        },
    }
}

/// What some nodes stand for.
pub open spec fn nodes_of(nodes: Seq<ConfigNode>) -> Seq<Node>
    decreases nodes,
{
    Seq::new(
        nodes.len(),
        |i: int|
            if 0 <= i < nodes.len() {
                node_of(nodes[i])
            } else {
                arbitrary()
            },
    )
}

/// How a node is written: what stands before its entries, each of them, and what stands behind
/// them; and whether it says itself what stands between them.
#[verifier::ext_equal]
pub struct NodeText {
    pub head: Seq<char>,
    pub entries: Seq<Seq<char>>,
    pub tail: Seq<char>,
    pub is_spaced: bool,
}

/// How a document is written: what stands before its nodes, each of them, and what stands behind
/// them.
#[verifier::ext_equal]
pub struct Layout {
    pub head: Seq<char>,
    pub nodes: Seq<NodeText>,
    pub tail: Seq<char>,
}

impl Layout {
    /// How a document without nodes is written.
    pub open spec fn empty() -> Layout {
        Layout { head: Seq::empty(), nodes: Seq::empty(), tail: Seq::empty() }
    }

    /// The text of the document.
    pub open spec fn text(self) -> Seq<char> {
        self.head + joined(
            Seq::new(
                self.nodes.len(),
                |i: int| self.nodes[i].head + joined(self.nodes[i].entries) + self.nodes[i].tail,
            ),
        ) + self.tail
    }
}

/// A KDL document, with all of its spacing and comments.
#[verifier::external_type_specification]
#[verifier::external_body]
pub struct ExKdlDocument(KdlDocument);

/// The nodes of a document.
pub uninterp spec fn nodes_in(doc: KdlDocument) -> Seq<Node>;

/// How a document is written.
pub uninterp spec fn layout_in(doc: KdlDocument) -> Layout;

/// The nodes of the document that a text holds, and how it is written, or what is wrong with the
/// text.
pub uninterp spec fn kdl_read(text: Seq<char>) -> Result<(Seq<Node>, Layout), Seq<char>>;

/// How a text is written as a value, or as a name.
pub uninterp spec fn kdl_string(text: Seq<char>) -> Seq<char>;

/// `KdlDocument::from_str`, and `KdlError::to_string`: the nodes and their layout, or the message,
/// depend on the text alone. Every node that is read comes with its own spacing.
#[verifier::external_body]
pub(crate) fn read_document(text: &str) -> (r: Result<KdlDocument, String>)
    ensures
        match r {
            Ok(doc) => kdl_read(text@) == Ok::<(Seq<Node>, Layout), Seq<char>>(
                (nodes_in(doc), layout_in(doc)),
            ),
            Err(e) => kdl_read(text@) == Err::<(Seq<Node>, Layout), Seq<char>>(e@),
        },
        r matches Ok(doc) ==> layout_in(doc).nodes.len() == nodes_in(doc).len() && forall|i: int|
            0 <= i < layout_in(doc).nodes.len() ==> (#[trigger] layout_in(doc).nodes[i]).is_spaced,
{
    text.parse().map_err(|e: KdlError| e.to_string())
}

/// `KdlDocument::new`: a document without nodes, and without a text.
#[verifier::external_body]
pub(crate) fn empty_document() -> (r: KdlDocument)
    ensures
        nodes_in(r) == Seq::<Node>::empty(),
        layout_in(r) == Layout::empty(),
{
    KdlDocument::new()
}

/// `KdlDocument::nodes`: the nodes, with their names, annotations and entries, and the nodes within
/// them.
#[verifier::external_body]
pub(crate) fn document_nodes(doc: &KdlDocument) -> (r: Vec<ConfigNode>)
    ensures
        nodes_of(r@) == nodes_in(*doc),
{
    let text = |id: &KdlIdentifier| id.value().to_string();
    let entry = |e: &KdlEntry| ConfigEntry {
        name: e.name().map(text),
        annotation: e.ty().map(text),
        value: match e.value() {
            KdlValue::String(s) => ConfigValue::Text(s.clone()),
            KdlValue::Bool(b) => ConfigValue::Flag(*b),
            other => ConfigValue::Other(other.to_string()),
        },
    };
    doc.nodes().iter().map(|n| ConfigNode {
        name: text(n.name()), annotation: n.ty().map(text),
        entries: n.entries().iter().map(entry).collect(),
        children: n.children().map(document_nodes),
    }).collect()
}

/// `KdlNode::clear`, on one node of a document: the node has no entries left, and they are gone
/// from its text, where it has its own spacing.
#[verifier::external_body]
pub(crate) fn clear_entries(doc: &mut KdlDocument, i: usize)
    requires
        i < nodes_in(*old(doc)).len(),
    ensures
        nodes_in(*final(doc)) == nodes_in(*old(doc)).update(
            i as int,
            (Node { entries: Seq::empty(), ..nodes_in(*old(doc))[i as int] }),
        ),
        layout_in(*old(doc)).nodes[i as int].is_spaced ==> layout_in(*final(doc)) == (Layout {
            nodes: layout_in(*old(doc)).nodes.update(
                i as int,
                NodeText { entries: Seq::empty(), ..layout_in(*old(doc)).nodes[i as int] },
            ),
            ..layout_in(*old(doc))
        }),
{
    doc.nodes_mut()[i].clear();
}

/// `KdlNode::push` of a `KdlEntry::new`, on one node of a document: the node has one more entry, a
/// text without a name, written with a space before it, where the node has its own spacing.
#[verifier::external_body]
pub(crate) fn push_text(doc: &mut KdlDocument, i: usize, text: &str)
    requires
        i < nodes_in(*old(doc)).len(),
    ensures
        nodes_in(*final(doc)) == nodes_in(*old(doc)).update(
            i as int,
            (Node {
                entries: nodes_in(*old(doc))[i as int].entries.push(plain_entry(text@)),
                ..nodes_in(*old(doc))[i as int]
            }),
        ),
        layout_in(*old(doc)).nodes[i as int].is_spaced ==> layout_in(*final(doc)) == (Layout {
            nodes: layout_in(*old(doc)).nodes.update(
                i as int,
                NodeText {
                    entries: layout_in(*old(doc)).nodes[i as int].entries.push(
                        seq![' '] + kdl_string(text@),
                    ),
                    ..layout_in(*old(doc)).nodes[i as int]
                },
            ),
            ..layout_in(*old(doc))
        }),
{
    doc.nodes_mut()[i].push(KdlEntry::new(text));
}

/// `KdlNode::new`, as the last node of a document: the node has a name, no entries, and no nodes
/// within it. Its name is written behind the other nodes, with a line break behind it.
#[verifier::external_body]
pub(crate) fn push_node(doc: &mut KdlDocument, name: &str)
    ensures
        nodes_in(*final(doc)) == nodes_in(*old(doc)).push(bare_node(name@)),
        layout_in(*final(doc)) == (Layout {
            nodes: layout_in(*old(doc)).nodes.push(
                NodeText {
                    head: kdl_string(name@),
                    entries: Seq::empty(),
                    tail: seq!['\n'],
                    is_spaced: true,
                },
            ),
            ..layout_in(*old(doc))
        }),
{
    doc.nodes_mut().push(KdlNode::new(name));
}

/// `KdlDocument::to_string`: the text that the layout makes.
#[verifier::external_body]
pub(crate) fn document_text(doc: &KdlDocument) -> (r: String)
    ensures
        r@ == layout_in(*doc).text(),
{
    doc.to_string()
}

/// A text as an entry without a name.
pub open spec fn plain_entry(text: Seq<char>) -> Entry {
    Entry { name: None, annotation: None, value: Setting::Text(text) }
}

/// A node with nothing but a name.
pub open spec fn bare_node(name: Seq<char>) -> Node {
    Node { name, annotation: None, entries: Seq::empty(), children: None }
}

/// Settings for the status-bar session/project time counters.
#[derive(Clone, Copy, Debug, PartialEq, Eq, Structural)]
pub struct CountersConfig {
    /// Whether to display the counters on the right of the status bar (`show`).
    pub show: bool,
    /// Whether terminal output ("stuff moving") counts as active time even without
    /// keyboard input (`render-counts-as-active`).
    pub render_counts_as_active: bool,
}

impl CountersConfig {
    /// The settings where the configuration says nothing.
    pub open spec fn usual() -> CountersConfig {
        CountersConfig { show: true, render_counts_as_active: true }
    }
}

impl Default for CountersConfig {
    fn default() -> (r: Self)
        ensures
            r == CountersConfig::usual(),
    {
        CountersConfig { show: true, render_counts_as_active: true }
    }
}

/// The configuration.
#[derive(Debug)]
pub struct Config {
    pub theme: Option<String>,
    /// `(action-slug, key-spec)` pairs from the `keybindings` block.
    pub keybindings: Vec<(String, String)>,
    /// Settings for the status-bar time counters, from the `counters { … }` block.
    pub counters: CountersConfig,
}

/// What a [`Config`] stands for.
#[verifier::ext_equal]
pub struct Settings {
    pub theme: Option<Seq<char>>,
    pub keybindings: Seq<(Seq<char>, Seq<char>)>,
    pub counters: CountersConfig,
}

/// What some bindings stand for.
pub open spec fn binds_of(binds: Seq<(String, String)>) -> Seq<(Seq<char>, Seq<char>)> {
    Seq::new(binds.len(), |i: int| (binds[i].0@, binds[i].1@))
}

impl View for Config {
    type V = Settings;

    open spec fn view(&self) -> Settings {
        Settings {
            theme: optional_text(self.theme),
            keybindings: binds_of(self.keybindings@),
            counters: self.counters,
        }
    }
}

/// The first argument of a node: the value of the first entry from `i` on without a name.
pub open spec fn argument(entries: Seq<Entry>, i: int) -> Option<Setting>
    decreases entries.len() - i,
{
    if i >= entries.len() {
        None
    } else if entries[i].name is None {
        Some(entries[i].value)
    } else {
        argument(entries, i + 1)
    }
}

/// The nodes within a node.
pub open spec fn block_of(node: Node) -> Seq<Node> {
    match node.children {
        Some(children) => children,
        None => Seq::empty(),
    }
}

/// The settings of the counters that a block holds from its `i`-th node on.
pub open spec fn counters_in(c: CountersConfig, leaves: Seq<Node>, i: int) -> Result<
    CountersConfig,
    Seq<char>,
>
    decreases leaves.len() - i,
{
    if i >= leaves.len() {
        Ok(c)
    } else {
        match argument(leaves[i].entries, 0) {
            Some(Setting::Flag(val)) => counters_in(
                if leaves[i].name == "show"@ {
                    CountersConfig { show: val, ..c }
                } else if leaves[i].name == "render-counts-as-active"@ {
                    CountersConfig { render_counts_as_active: val, ..c }
                } else {
                    c
                },
                leaves,
                i + 1,
            ),
            _ => Err("counters."@ + leaves[i].name + " must have a boolean argument"@),
        }
    }
}

/// The bindings that a block holds from its `i`-th node on, behind those before.
pub open spec fn binds_in(
    b: Seq<(Seq<char>, Seq<char>)>,
    leaves: Seq<Node>,
    i: int,
) -> Result<Seq<(Seq<char>, Seq<char>)>, Seq<char>>
    decreases leaves.len() - i,
{
    if i >= leaves.len() {
        Ok(b)
    } else {
        match argument(leaves[i].entries, 0) {
            Some(Setting::Text(key)) => binds_in(b.push((leaves[i].name, key)), leaves, i + 1),
            _ => Err(
                "keybinding '"@ + leaves[i].name + "' must have a string key argument"@,
            ),
        }
    }
}

impl Settings {
    /// The settings where the configuration says nothing.
    pub open spec fn usual() -> Settings {
        Settings { theme: None, keybindings: Seq::empty(), counters: CountersConfig::usual() }
    }

    /// What a node adds to the settings before it. One without a block has no nodes within it.
    pub open spec fn with_node(self, node: Node) -> Result<Settings, Seq<char>> {
        if node.name == "counters"@ {
            match counters_in(self.counters, block_of(node), 0) {
                Ok(counters) => Ok(Settings { counters, ..self }),
                Err(e) => Err(e),
            }
        } else if node.name == "theme"@ {
            match argument(node.entries, 0) {
                Some(Setting::Text(name)) => Ok(Settings { theme: Some(name), ..self }),
                Some(_) => Err("theme node argument must be a string"@),
                None => Err("theme node must have a string argument"@),
            }
        } else if node.name == "keybindings"@ {
            match binds_in(self.keybindings, block_of(node), 0) {
                Ok(keybindings) => Ok(Settings { keybindings, ..self }),
                Err(e) => Err(e),
            }
        } else {
            Ok(self)
        }
    }

    /// What the nodes from the `i`-th on add to the settings before them.
    pub open spec fn with_nodes(self, nodes: Seq<Node>, i: int) -> Result<Settings, Seq<char>>
        decreases nodes.len() - i,
    {
        if i >= nodes.len() {
            Ok(self)
        } else {
            match self.with_node(nodes[i]) {
                Ok(next) => next.with_nodes(nodes, i + 1),
                Err(e) => Err(e),
            }
        }
    }
}

/// The first argument of a node.
fn first_argument(entries: &Vec<ConfigEntry>) -> (r: Option<&ConfigValue>)
    ensures
        argument(entries_of(entries@), 0) == match r {
            Some(v) => Some(v@),
            None => None,
        },
{
    let ghost all = entries_of(entries@);
    let mut i: usize = 0;
    while i < entries.len()
        invariant
            i <= entries@.len(),
            all == entries_of(entries@),
            argument(all, 0) == argument(all, i as int),
        decreases entries@.len() - i,
    {
        assert(all[i as int] == entries@[i as int]@);
        if entries[i].name.is_none() {
            return Some(&entries[i].value);
        }
        i += 1;
    }
    None
}

/// Reads the block of the counters.
fn read_counters(counters: CountersConfig, leaves: &Vec<ConfigNode>) -> (r: Result<
    CountersConfig,
    String,
>)
    ensures
        counters_in(counters, nodes_of(leaves@), 0) == match r {
            Ok(c) => Ok::<CountersConfig, Seq<char>>(c),
            Err(e) => Err(e@),
        },
{
    let ghost all = nodes_of(leaves@);
    let mut c = counters;
    let mut i: usize = 0;
    while i < leaves.len()
        invariant
            i <= leaves@.len(),
            all == nodes_of(leaves@),
            counters_in(counters, all, 0) == counters_in(c, all, i as int),
        decreases leaves@.len() - i,
    {
        let leaf = &leaves[i];
        assert(all[i as int] == node_of(*leaf));
        match first_argument(&leaf.entries) {
            Some(ConfigValue::Flag(val)) => {
                if same_text(leaf.name.as_str(), "show") {
                    c.show = *val;
                } else if same_text(leaf.name.as_str(), "render-counts-as-active") {
                    c.render_counts_as_active = *val;
                }
            },
            _ => {
                let mut text = String::new();
                text.append("counters.");
                text.append(leaf.name.as_str());
                text.append(" must have a boolean argument");
                assert(text@ =~= "counters."@ + leaf.name@ + " must have a boolean argument"@);
                return Err(text);
            },
        }
        i += 1;
    }
    Ok(c)
}

/// Reads the block of the bindings.
fn read_binds(binds: &mut Vec<(String, String)>, leaves: &Vec<ConfigNode>) -> (r: Result<
    (),
    String,
>)
    ensures
        match r {
            Ok(_) => binds_in(binds_of(old(binds)@), nodes_of(leaves@), 0) == Ok::<
                Seq<(Seq<char>, Seq<char>)>,
                Seq<char>,
            >(binds_of(final(binds)@)),
            Err(e) => binds_in(binds_of(old(binds)@), nodes_of(leaves@), 0) == Err::<
                Seq<(Seq<char>, Seq<char>)>,
                Seq<char>,
            >(e@),
        },
{
    let ghost all = nodes_of(leaves@);
    let ghost goal = binds_in(binds_of(binds@), all, 0);
    let mut i: usize = 0;
    while i < leaves.len()
        invariant
            i <= leaves@.len(),
            all == nodes_of(leaves@),
            goal == binds_in(binds_of(old(binds)@), all, 0),
            goal == binds_in(binds_of(binds@), all, i as int),
        decreases leaves@.len() - i,
    {
        let leaf = &leaves[i];
        assert(all[i as int] == node_of(*leaf));
        match first_argument(&leaf.entries) {
            Some(ConfigValue::Text(key)) => {
                let ghost so_far = binds@;
                binds.push((copy_of(leaf.name.as_str()), copy_of(key.as_str())));
                assert(binds_of(binds@) =~= binds_of(so_far).push((leaf.name@, key@)));
            },
            _ => {
                let mut text = String::new();
                text.append("keybinding '");
                text.append(leaf.name.as_str());
                text.append("' must have a string key argument");
                assert(text@ =~= "keybinding '"@ + leaf.name@
                    + "' must have a string key argument"@);
                return Err(text);
            },
        }
        i += 1;
    }
    Ok(())
}

/// Reads the configuration from the nodes of its file.
pub fn read_nodes(nodes: &Vec<ConfigNode>) -> (r: Result<Config, String>)
    ensures
        Settings::usual().with_nodes(nodes_of(nodes@), 0) == match r {
            Ok(config) => Ok::<Settings, Seq<char>>(config@),
            Err(e) => Err(e@),
        },
{
    let ghost all = nodes_of(nodes@);
    let mut config = Config {
        theme: None,
        keybindings: Vec::new(),
        counters: CountersConfig::default(),
    };
    assert(config@ =~= Settings::usual());
    let mut i: usize = 0;
    while i < nodes.len()
        invariant
            i <= nodes@.len(),
            all == nodes_of(nodes@),
            Settings::usual().with_nodes(all, 0) == config@.with_nodes(all, i as int),
        decreases nodes@.len() - i,
    {
        let node = &nodes[i];
        let ghost so_far = config@;
        assert(all[i as int] == node_of(*node));
        let name = node.name.as_str();
        let none: Vec<ConfigNode> = Vec::new();
        assert(nodes_of(none@) =~= Seq::<Node>::empty());
        let block: &Vec<ConfigNode> = match &node.children {
            Some(children) => children,
            None => &none,
        };
        if same_text(name, "counters") {
            match read_counters(config.counters, block) {
                Ok(counters) => {
                    config.counters = counters;
                    assert(config@ =~= (Settings { counters, ..so_far }));
                },
                Err(e) => {
                    return Err(e);
                },
            }
        } else if same_text(name, "theme") {
            match first_argument(&node.entries) {
                Some(ConfigValue::Text(val)) => {
                    config.theme = Some(copy_of(val.as_str()));
                    assert(config@ =~= (Settings { theme: Some(val@), ..so_far }));
                },
                Some(_) => {
                    return Err(copy_of("theme node argument must be a string"));
                },
                None => {
                    return Err(copy_of("theme node must have a string argument"));
                },
            }
        } else if same_text(name, "keybindings") {
            if let Err(e) = read_binds(&mut config.keybindings, block) {
                return Err(e);
            }
            assert(config@ =~= (Settings { keybindings: config@.keybindings, ..so_far }));
        }
        i += 1;
    }
    Ok(config)
}

/// The configuration that some nodes hold, where there are any to be read.
pub open spec fn settings_in(nodes: Result<Seq<Node>, Seq<char>>) -> Result<Settings, Seq<char>> {
    match nodes {
        Ok(nodes) => Settings::usual().with_nodes(nodes, 0),
        Err(e) => Err(e),
    }
}

/// Reads the configuration from the text of its file.
pub fn parse(content: &str) -> (r: Result<Config, String>)
    ensures
        settings_in(kdl_nodes(content@)) == match r {
            Ok(config) => Ok::<Settings, Seq<char>>(config@),
            Err(e) => Err(e@),
        },
{
    match read_document(content) {
        Ok(doc) => read_nodes(&document_nodes(&doc)),
        Err(e) => Err(e),
    }
}

/// Whether a text holds nothing but white space.
pub open spec fn is_blank(text: Seq<char>) -> bool {
    forall|i: int| 0 <= i < text.len() ==> is_white_space(#[trigger] text[i])
}

/// The first node from the `i`-th on with a name.
pub open spec fn node_named(nodes: Seq<Node>, name: Seq<char>, i: int) -> Option<int>
    decreases nodes.len() - i,
{
    if i >= nodes.len() {
        None
    } else if nodes[i].name == name {
        Some(i)
    } else {
        node_named(nodes, name, i + 1)
    }
}

/// The nodes with the first `theme` node, or a new one, saying a theme's name and nothing else.
pub open spec fn with_theme(nodes: Seq<Node>, theme: Seq<char>) -> Seq<Node> {
    let entries = seq![plain_entry(theme)];
    match node_named(nodes, "theme"@, 0) {
        Some(k) => nodes.update(k, Node { entries, ..nodes[k] }),
        None => nodes.push(Node { entries, ..bare_node("theme"@) }),
    }
}

/// The nodes that a text reads as, or what is wrong with it.
pub open spec fn kdl_nodes(text: Seq<char>) -> Result<Seq<Node>, Seq<char>> {
    match kdl_read(text) {
        Ok((nodes, _)) => Ok(nodes),
        Err(e) => Err(e),
    }
}

/// The document of a configuration that is to be changed: one without nodes where there is no text.
pub open spec fn document_before(content: Seq<char>) -> Result<(Seq<Node>, Layout), Seq<char>> {
    if is_blank(content) {
        Ok((Seq::empty(), Layout::empty()))
    } else {
        kdl_read(content)
    }
}

/// The layout with a theme's name as the only entry of the `k`-th node, or of a new node `theme` at
/// the end.
pub open spec fn with_theme_written(layout: Layout, k: Option<int>, theme: Seq<char>) -> Layout {
    let entries = seq![seq![' '] + kdl_string(theme)];
    Layout {
        nodes: match k {
            Some(k) => layout.nodes.update(k, NodeText { entries, ..layout.nodes[k] }),
            None => layout.nodes.push(
                NodeText {
                    head: kdl_string("theme"@),
                    entries,
                    tail: seq!['\n'],
                    is_spaced: true,
                },
            ),
        },
        ..layout
    }
}

/// The text of a configuration with a theme, or none where the configuration cannot be read.
pub open spec fn themed_text(content: Seq<char>, theme: Seq<char>) -> Seq<char> {
    match document_before(content) {
        Ok((nodes, layout)) => with_theme_written(
            layout,
            node_named(nodes, "theme"@, 0),
            theme,
        ).text(),
        Err(_) => Seq::empty(),
    }
}

/// Of two texts, with what they read as, the first that reads as some nodes, or an error.
pub open spec fn picked(
    first: (Seq<char>, Option<Seq<Node>>),
    second: (Seq<char>, Option<Seq<Node>>),
    wanted: Seq<Node>,
) -> Result<Seq<char>, Seq<char>> {
    if first.1 == Some(wanted) {
        Ok(first.0)
    } else if second.1 == Some(wanted) {
        Ok(second.0)
    } else {
        Err("the configuration would not read back"@)
    }
}

/// A text, with what it reads as.
pub open spec fn with_reading(text: Seq<char>) -> (Seq<char>, Option<Seq<Node>>) {
    (
        text,
        match kdl_nodes(text) {
            Ok(nodes) => Some(nodes),
            Err(_) => None,
        },
    )
}

/// What a configuration becomes when a theme is saved: its text with the theme, or that with a line
/// break behind it, whichever reads back as its nodes with the theme.
pub open spec fn theme_saved(content: Seq<char>, theme: Seq<char>) -> Result<Seq<char>, Seq<char>> {
    match document_before(content) {
        Ok((nodes, _)) => picked(
            with_reading(themed_text(content, theme)),
            with_reading(themed_text(content + "\n"@, theme)),
            with_theme(nodes, theme),
        ),
        Err(e) => Err(e),
    }
}

/// Whether a text holds nothing but white space.
fn blank(text: &str) -> (r: bool)
    ensures
        r == is_blank(text@),
{
    let chars = chars_of(text);
    let mut i: usize = 0;
    while i < chars.len()
        invariant
            i <= chars@.len(),
            chars@ == text@,
            forall|j: int| 0 <= j < i ==> is_white_space(#[trigger] text@[j]),
        decreases chars@.len() - i,
    {
        if !is_whitespace(chars[i]) {
            assert(!is_white_space(text@[i as int]));
            return false;
        }
        i += 1;
    }
    true
}

/// Which node of a list is the first with a name.
fn find_node(nodes: &Vec<ConfigNode>, name: &str) -> (r: Option<usize>)
    ensures
        match r {
            Some(k) => node_named(nodes_of(nodes@), name@, 0) == Some(k as int) && k < nodes@.len(),
            None => node_named(nodes_of(nodes@), name@, 0) is None,
        },
{
    let ghost all = nodes_of(nodes@);
    let mut i: usize = 0;
    while i < nodes.len()
        invariant
            i <= nodes@.len(),
            all == nodes_of(nodes@),
            node_named(all, name@, 0) == node_named(all, name@, i as int),
        decreases nodes@.len() - i,
    {
        assert(all[i as int] == node_of(nodes@[i as int]));
        if same_text(nodes[i].name.as_str(), name) {
            return Some(i);
        }
        i += 1;
    }
    None
}

/// Whether two values are the same.
fn same_value(a: &ConfigValue, b: &ConfigValue) -> (r: bool)
    ensures
        r == (a@ == b@),
{
    match (a, b) {
        (ConfigValue::Text(s), ConfigValue::Text(t)) => same_text(s.as_str(), t.as_str()),
        (ConfigValue::Flag(s), ConfigValue::Flag(t)) => *s == *t,
        (ConfigValue::Other(s), ConfigValue::Other(t)) => same_text(s.as_str(), t.as_str()),
        _ => false,
    }
}

/// Whether two texts are the same, or both missing.
fn same_optional_text(a: &Option<String>, b: &Option<String>) -> (r: bool)
    ensures
        r == (optional_text(*a) == optional_text(*b)),
{
    match (a, b) {
        (Some(s), Some(t)) => same_text(s.as_str(), t.as_str()),
        (None, None) => true,
        _ => false,
    }
}

/// Whether two lists of entries are the same.
fn same_entries(a: &Vec<ConfigEntry>, b: &Vec<ConfigEntry>) -> (r: bool)
    ensures
        r == (entries_of(a@) == entries_of(b@)),
{
    let ghost ours = entries_of(a@);
    let ghost theirs = entries_of(b@);
    if a.len() != b.len() {
        assert(ours.len() == a@.len() && theirs.len() == b@.len());
        return false;
    }
    let mut i: usize = 0;
    while i < a.len()
        invariant
            i <= a@.len(),
            a@.len() == b@.len(),
            ours == entries_of(a@),
            theirs == entries_of(b@),
            forall|j: int| 0 <= j < i ==> ours[j] == theirs[j],
        decreases a@.len() - i,
    {
        let (x, y) = (&a[i], &b[i]);
        if !same_optional_text(&x.name, &y.name) || !same_optional_text(
            &x.annotation,
            &y.annotation,
        ) || !same_value(&x.value, &y.value) {
            assert(ours[i as int] != theirs[i as int]);
            return false;
        }
        i += 1;
    }
    assert(ours =~= theirs);
    true
}

/// Whether two nodes are the same.
fn same_node(a: &ConfigNode, b: &ConfigNode) -> (r: bool)
    ensures
        r == (node_of(*a) == node_of(*b)),
    decreases a,
{
    if !same_text(a.name.as_str(), b.name.as_str()) || !same_optional_text(
        &a.annotation,
        &b.annotation,
    ) || !same_entries(&a.entries, &b.entries) {
        return false;
    }
    match (&a.children, &b.children) {
        (Some(x), Some(y)) => same_nodes(x, y),
        (None, None) => true,
        _ => false,
    }
}

/// Whether two lists of nodes are the same.
fn same_nodes(a: &Vec<ConfigNode>, b: &Vec<ConfigNode>) -> (r: bool)
    ensures
        r == (nodes_of(a@) == nodes_of(b@)),
    decreases a,
{
    let ghost ours = nodes_of(a@);
    let ghost theirs = nodes_of(b@);
    if a.len() != b.len() {
        assert(ours.len() == a@.len() && theirs.len() == b@.len());
        return false;
    }
    let mut i: usize = 0;
    while i < a.len()
        invariant
            i <= a@.len(),
            a@.len() == b@.len(),
            ours == nodes_of(a@),
            theirs == nodes_of(b@),
            forall|j: int| 0 <= j < i ==> ours[j] == theirs[j],
        decreases a@.len() - i,
    {
        assert(decreases_to!(a => a@));
        assert(decreases_to!(a@ => a@[i as int]));
        if !same_node(&a[i], &b[i]) {
            assert(ours[i as int] != theirs[i as int]);
            return false;
        }
        i += 1;
    }
    assert(ours =~= theirs);
    true
}

/// What some nodes stand for that may be missing.
pub open spec fn optional_nodes(nodes: Option<Vec<ConfigNode>>) -> Option<Seq<Node>> {
    match nodes {
        Some(nodes) => Some(nodes_of(nodes@)),
        None => None,
    }
}

/// Of two texts, with what they read as, the first that reads as some nodes, or an error.
pub fn pick_text(
    first: (String, Option<Vec<ConfigNode>>),
    second: (String, Option<Vec<ConfigNode>>),
    wanted: &Vec<ConfigNode>,
) -> (r: Result<String, String>)
    ensures
        picked(
            (first.0@, optional_nodes(first.1)),
            (second.0@, optional_nodes(second.1)),
            nodes_of(wanted@),
        ) == match r {
            Ok(text) => Ok::<Seq<char>, Seq<char>>(text@),
            Err(e) => Err(e@),
        },
{
    if let Some(nodes) = &first.1 {
        if same_nodes(nodes, wanted) {
            return Ok(first.0);
        }
    }
    if let Some(nodes) = &second.1 {
        if same_nodes(nodes, wanted) {
            return Ok(second.0);
        }
    }
    Err(copy_of("the configuration would not read back"))
}

/// What a text reads as, where it can be read.
fn reading_of(text: &str) -> (r: Option<Vec<ConfigNode>>)
    ensures
        (text@, optional_nodes(r)) == with_reading(text@),
{
    match read_document(text) {
        Ok(doc) => Some(document_nodes(&doc)),
        Err(_) => None,
    }
}

/// The document of a configuration, with a theme.
fn document_with_theme(content: &str, theme_name: &str) -> (r: Result<KdlDocument, String>)
    ensures
        match r {
            Ok(doc) => document_before(content@) matches Ok((nodes, _)) && nodes_in(doc)
                == with_theme(nodes, theme_name@) && layout_in(doc).text() == themed_text(
                content@,
                theme_name@,
            ),
            Err(e) => document_before(content@) == Err::<(Seq<Node>, Layout), Seq<char>>(e@),
        },
{
    let mut doc = if blank(content) {
        empty_document()
    } else {
        match read_document(content) {
            Ok(doc) => doc,
            Err(e) => {
                return Err(e);
            },
        }
    };
    let ghost before = nodes_in(doc);
    let ghost layout = layout_in(doc);
    let nodes = document_nodes(&doc);
    assert(nodes@.len() == before.len() == layout.nodes.len());
    let ghost place = node_named(before, "theme"@, 0);
    let k: usize = match find_node(&nodes, "theme") {
        Some(k) => {
            clear_entries(&mut doc, k);
            k
        },
        None => {
            push_node(&mut doc, "theme");
            nodes.len()
        },
    };
    push_text(&mut doc, k, theme_name);
    proof {
        let written = seq![seq![' '] + kdl_string(theme_name@)];
        assert(nodes_in(doc)[k as int].entries =~= seq![plain_entry(theme_name@)]);
        assert(nodes_in(doc) =~= with_theme(before, theme_name@));
        assert(layout_in(doc).nodes[k as int].entries =~= written);
        assert(layout_in(doc) =~= with_theme_written(layout, place, theme_name@));
    }
    Ok(doc)
}

/// Returns `content` (a KDL configuration document) with only its `theme` node updated or inserted.
/// Every other node, notably any `keybindings` block, stays as it is, so saving a theme never
/// clobbers the user's key bindings: the text reads back as those nodes, or it is an error. A last
/// line without a line break gets one where a node behind it would not be told from it otherwise.
pub fn update_theme_in_kdl(content: &str, theme_name: &str) -> (r: Result<String, String>)
    ensures
        theme_saved(content@, theme_name@) == match r {
            Ok(text) => Ok::<Seq<char>, Seq<char>>(text@),
            Err(e) => Err(e@),
        },
{
    let doc = match document_with_theme(content, theme_name) {
        Ok(doc) => doc,
        Err(e) => {
            return Err(e);
        },
    };
    let wanted = document_nodes(&doc);
    let first = document_text(&doc);
    let mut ended = copy_of(content);
    ended.append("\n");
    let second = match document_with_theme(ended.as_str(), theme_name) {
        Ok(doc) => document_text(&doc),
        Err(_) => String::new(),
    };
    assert(second@ =~= themed_text(content@ + "\n"@, theme_name@));
    let first_reading = reading_of(first.as_str());
    let second_reading = reading_of(second.as_str());
    pick_text((first, first_reading), (second, second_reading), &wanted)
}

/// A named node is where it is found, and no node before it has the name.
proof fn lemma_node_named(nodes: Seq<Node>, name: Seq<char>, i: int)
    requires
        0 <= i,
    ensures
        match node_named(nodes, name, i) {
            Some(k) => i <= k < nodes.len() && nodes[k].name == name && forall|j: int|
                i <= j < k ==> (#[trigger] nodes[j]).name != name,
            None => forall|j: int| i <= j < nodes.len() ==> (#[trigger] nodes[j]).name != name,
        },
    decreases nodes.len() - i,
{
    if i < nodes.len() {
        lemma_node_named(nodes, name, i + 1);
    }
}

/// Where no further node names a theme, the theme stays what it is.
proof fn lemma_theme_stays(s: Settings, theme: Option<Seq<char>>, nodes: Seq<Node>, i: int)
    requires
        0 <= i,
        forall|j: int| i <= j < nodes.len() ==> (#[trigger] nodes[j]).name != "theme"@,
    ensures
        (Settings { theme, ..s }).with_nodes(nodes, i) == match s.with_nodes(nodes, i) {
            Ok(r) => Ok::<Settings, Seq<char>>(Settings { theme, ..r }),
            Err(e) => Err(e),
        },
    decreases nodes.len() - i,
{
    if i < nodes.len() {
        if let Ok(next) = s.with_node(nodes[i]) {
            assert((Settings { theme, ..s }).with_node(nodes[i]) == Ok::<Settings, Seq<char>>(
                Settings { theme, ..next },
            ));
            lemma_theme_stays(next, theme, nodes, i + 1);
        }
    }
}

/// Nodes that are the same from `i` on add the same.
proof fn lemma_same_nodes(s: Settings, a: Seq<Node>, b: Seq<Node>, i: int)
    requires
        0 <= i,
        a.len() == b.len(),
        forall|j: int| i <= j < a.len() ==> a[j] == b[j],
    ensures
        s.with_nodes(a, i) == s.with_nodes(b, i),
    decreases a.len() - i,
{
    if i < a.len() {
        if let Ok(next) = s.with_node(a[i]) {
            lemma_same_nodes(next, a, b, i + 1);
        }
    }
}

/// One more node adds to what the others say.
proof fn lemma_last_node(s: Settings, nodes: Seq<Node>, node: Node, i: int)
    requires
        0 <= i <= nodes.len(),
    ensures
        s.with_nodes(nodes.push(node), i) == match s.with_nodes(nodes, i) {
            Ok(r) => r.with_node(node),
            Err(e) => Err(e),
        },
    decreases nodes.len() - i,
{
    let more = nodes.push(node);
    if i < nodes.len() {
        assert(more[i] == nodes[i]);
        if let Ok(next) = s.with_node(nodes[i]) {
            lemma_last_node(next, nodes, node, i + 1);
        }
    } else {
        assert(more[i] == node);
        reveal_with_fuel(Settings::with_nodes, 3);
    }
}

/// From the `i`-th node on: saving a theme changes the theme that is read, and nothing else.
proof fn lemma_theme_read(s: Settings, nodes: Seq<Node>, theme: Seq<char>, i: int, k: int)
    requires
        0 <= i <= k < nodes.len(),
        nodes[k].name == "theme"@,
        forall|j: int|
            0 <= j < nodes.len() && j != k ==> (#[trigger] nodes[j]).name != "theme"@,
        s.with_nodes(nodes, i) is Ok,
    ensures
        ({
            let entries = seq![plain_entry(theme)];
            s.with_nodes(nodes.update(k, Node { entries, ..nodes[k] }), i) == Ok::<
                Settings,
                Seq<char>,
            >(Settings { theme: Some(theme), ..s.with_nodes(nodes, i)->Ok_0 })
        }),
    decreases nodes.len() - i,
{
    reveal_strlit("theme");
    reveal_strlit("counters");
    let entries = seq![plain_entry(theme)];
    let updated = nodes.update(k, Node { entries, ..nodes[k] });
    let next = s.with_node(nodes[i])->Ok_0;
    assert(s.with_node(nodes[i]) is Ok);
    if i < k {
        assert(updated[i] == nodes[i]);
        lemma_theme_read(next, nodes, theme, i + 1, k);
    } else {
        assert("theme"@.len() != "counters"@.len());
        assert(argument(entries, 0) == Some(Setting::Text(theme)));
        assert(s.with_node(updated[i]) == Ok::<Settings, Seq<char>>(
            Settings { theme: Some(theme), ..s },
        ));
        assert(next == (Settings { theme: next.theme, ..s }));
        lemma_theme_stays(next, Some(theme), nodes, i + 1);
        assert((Settings { theme: Some(theme), ..next }) == (Settings {
            theme: Some(theme),
            ..s
        }));
        lemma_same_nodes(Settings { theme: Some(theme), ..s }, updated, nodes, i + 1);
    }
}

/// Saving a theme changes the theme of the configuration, and leaves the rest of it as it is, where
/// the configuration names a theme at most once.
pub proof fn law_saving_theme_keeps_the_rest(nodes: Seq<Node>, theme: Seq<char>)
    requires
        Settings::usual().with_nodes(nodes, 0) is Ok,
        forall|i: int, j: int|
            0 <= i < j < nodes.len() ==> (#[trigger] nodes[i]).name != "theme"@ || (
            #[trigger] nodes[j]).name != "theme"@,
    ensures
        Settings::usual().with_nodes(with_theme(nodes, theme), 0) == Ok::<Settings, Seq<char>>(
            Settings {
                theme: Some(theme),
                ..Settings::usual().with_nodes(nodes, 0)->Ok_0
            },
        ),
{
    lemma_node_named(nodes, "theme"@, 0);
    let entries = seq![plain_entry(theme)];
    match node_named(nodes, "theme"@, 0) {
        Some(k) => {
            assert forall|j: int| 0 <= j < nodes.len() && j != k implies (
            #[trigger] nodes[j]).name != "theme"@ by {
                assert(nodes[k].name == "theme"@);
            }
            lemma_theme_read(Settings::usual(), nodes, theme, 0, k);
        },
        None => {
            reveal_strlit("theme");
            reveal_strlit("counters");
            assert("theme"@.len() != "counters"@.len());
            assert(argument(entries, 0) == Some(Setting::Text(theme)));
            lemma_last_node(
                Settings::usual(),
                nodes,
                Node { entries, ..bare_node("theme"@) },
                0,
            );
        },
    }
}

/// Whether some nodes name a theme at most once.
pub open spec fn names_one_theme(nodes: Seq<Node>) -> bool {
    forall|i: int, j: int|
        0 <= i < j < nodes.len() ==> (#[trigger] nodes[i]).name != "theme"@ || (
        #[trigger] nodes[j]).name != "theme"@
}

/// What is written after saving a theme reads back with the theme, and with the rest of the
/// configuration as it was, where the configuration could be read and names a theme at most once.
/// It is written wherever one of the two texts for it reads back.
pub proof fn law_saved_theme_reads_back(content: Seq<char>, theme: Seq<char>)
    ensures
        document_before(content) matches Ok((nodes, _)) ==> {
            let wanted = Ok::<Seq<Node>, Seq<char>>(with_theme(nodes, theme));
            &&& theme_saved(content, theme) is Ok <==> kdl_nodes(themed_text(content, theme))
                == wanted || kdl_nodes(themed_text(content + "\n"@, theme)) == wanted
            &&& theme_saved(content, theme) matches Ok(text) ==> {
                &&& kdl_nodes(text) == wanted
                &&& names_one_theme(nodes) && settings_in(Ok(nodes)) is Ok ==> settings_in(
                    kdl_nodes(text),
                ) == Ok::<Settings, Seq<char>>(
                    Settings { theme: Some(theme), ..settings_in(Ok(nodes))->Ok_0 },
                )
            }
        },
{
    if let Ok((nodes, _)) = document_before(content) {
        if names_one_theme(nodes) && settings_in(Ok(nodes)) is Ok {
            law_saving_theme_keeps_the_rest(nodes, theme);
        }
    }
}

} // verus!
