//! The configuration tree: nodes that own their named children in the order in
//! which the children were declared.

use indexmap::IndexMap;
use vstd::prelude::*;

verus! {

/// A node of the tree as a mathematical value.
pub struct NodeSpec {
    pub key: Seq<char>,
    pub executable: Option<Seq<char>>,
    pub path: Option<Seq<char>>,
    pub args: Option<Seq<Seq<char>>>,
    pub env: Option<Seq<Seq<char>>>,
    pub children: Seq<(Seq<char>, NodeSpec)>,
}

/// The attributes declared at the top level of a configuration.
pub struct BaseSpec {
    pub executable: Option<Seq<char>>,
    pub path: Option<Seq<char>>,
    pub args: Option<Seq<Seq<char>>>,
    pub env: Option<Seq<Seq<char>>>,
}

/// The global section of a configuration: defaults that every entry inherits,
/// and the colours of the theme.
#[derive(Debug)]
pub struct BaseEntry {
    pub executable: Option<String>,
    pub path: Option<String>,
    pub args: Option<Vec<String>>,
    pub env: Option<Vec<String>>,
    pub background: Option<String>,
    pub foreground: Option<String>,
    pub highlight_accent: Option<String>,
    pub highlight: Option<String>,
    pub accent: Option<String>,
    pub faded: Option<String>,
}

impl View for BaseEntry {
    type V = BaseSpec;

    open spec fn view(&self) -> BaseSpec {
        BaseSpec {
            executable: self.executable.deep_view(),
            path: self.path.deep_view(),
            args: self.args.deep_view(),
            env: self.env.deep_view(),
        }
    }
}

/// One node of the tree: a key fragment, the attributes that it declares, and
/// its children. A node without children is a leaf.
#[derive(Debug)]
pub struct RawEntry {
    pub key: String,
    pub executable: Option<String>,
    pub path: Option<String>,
    pub args: Option<Vec<String>>,
    pub env: Option<Vec<String>>,
    pub children: EntryMap,
}

impl View for RawEntry {
    type V = NodeSpec;

    open spec fn view(&self) -> NodeSpec {
        NodeSpec {
            key: self.key@,
            executable: self.executable.deep_view(),
            path: self.path.deep_view(),
            args: self.args.deep_view(),
            env: self.env.deep_view(),
            children: entry_map_contents(self.children),
        }
    }
}

/// The named children of a node, or the named roots of a configuration: an
/// `indexmap::IndexMap` from name to node. The map is opaque to the verifier,
/// which reasons about it through `entry_map_contents` alone.
#[verifier::external_body]
#[derive(Debug)]
pub struct EntryMap {
    map: IndexMap<String, RawEntry>,
}

/// What an `EntryMap` holds: its names and nodes, in the order in which the map
/// hands them out.
pub uninterp spec fn entry_map_contents(m: EntryMap) -> Seq<(Seq<char>, NodeSpec)>;

/// The first position in `kids` that carries `name`, or the length of `kids`
/// where none does.
pub open spec fn position_of(kids: Seq<(Seq<char>, NodeSpec)>, name: Seq<char>) -> int
    decreases kids.len(),
{
    if kids.len() == 0 {
        0
    } else if kids[0].0 == name {
        0
    } else {
        1 + position_of(kids.drop_first(), name)
    }
}

/// `kids` after `node` was put in under `name`: in the place of the child that
/// had the name, or at the end where no child had it.
pub open spec fn with_child(
    kids: Seq<(Seq<char>, NodeSpec)>,
    name: Seq<char>,
    node: NodeSpec,
) -> Seq<(Seq<char>, NodeSpec)> {
    let at = position_of(kids, name);
    if 0 <= at < kids.len() {
        kids.update(at, (name, node))
    } else {
        kids.push((name, node))
    }
}

/// The pairs of `v` as mathematical values.
pub open spec fn pairs_view(v: Seq<(String, RawEntry)>) -> Seq<(Seq<char>, NodeSpec)> {
    v.map_values(|p: (String, RawEntry)| (p.0@, p.1@))
}

impl EntryMap {
    /// `IndexMap::new`: the new map holds nothing.
    #[verifier::external_body]
    pub(crate) fn empty() -> (m: EntryMap)
        ensures
            entry_map_contents(m) == Seq::<(Seq<char>, NodeSpec)>::empty(),
    {
        EntryMap { map: IndexMap::new() }
    }

    /// `IndexMap::len`: the number of pairs that the map holds.
    #[verifier::external_body]
    pub(crate) fn count(&self) -> (n: usize)
        ensures
            n == entry_map_contents(*self).len(),
    {
        self.map.len()
    }

    /// `IndexMap::insert`: where the map has the name already, the node under it
    /// is replaced and keeps its place in the order; otherwise the pair becomes
    /// the last one. All other pairs stay as they are.
    #[verifier::external_body]
    pub(crate) fn put(&mut self, name: String, node: RawEntry)
        ensures
            entry_map_contents(*final(self)) == with_child(
                entry_map_contents(*old(self)),
                name@,
                node@,
            ),
    {
        self.map.insert(name, node);
    }

    /// `IndexMap::into_iter`, collected: the pairs of the map in its order, each
    /// name and node handed out as it was held.
    #[verifier::external_body]
    pub(crate) fn into_pairs(self) -> (v: Vec<(String, RawEntry)>)
        ensures
            pairs_view(v@) == entry_map_contents(self),
    {
        self.map.into_iter().collect()
    }
}

impl EntryMap {
    /// The names and nodes of the map, in its order.
    pub fn into_entries(self) -> (v: Vec<(String, RawEntry)>)
        ensures
            pairs_view(v@) == entry_map_contents(self),
    {
        self.into_pairs()
    }
}

impl RawEntry {
    /// A leaf with the given key fragment and attributes.
    pub fn new(
        key: String,
        executable: Option<String>,
        path: Option<String>,
        args: Option<Vec<String>>,
        env: Option<Vec<String>>,
    ) -> (node: RawEntry)
        ensures
            node@ == (NodeSpec {
                key: key@,
                executable: executable.deep_view(),
                path: path.deep_view(),
                args: args.deep_view(),
                env: env.deep_view(),
                children: Seq::empty(),
            }),
    {
        RawEntry { key, executable, path, args, env, children: EntryMap::empty() }
    }

    /// Puts `child` under `name` among the children of this node. A child that
    /// had the name is replaced where it stood; a new name comes last.
    pub fn add_child(&mut self, name: String, child: RawEntry)
        ensures
            final(self)@ == (NodeSpec {
                children: with_child(old(self)@.children, name@, child@),
                ..old(self)@
            }),
    {
        self.children.put(name, child);
    }

    /// Whether this node has no children.
    pub fn is_leaf(&self) -> (leaf: bool)
        ensures
            leaf == (self@.children.len() == 0),
    {
        self.children.count() == 0
    }
}

/// A whole configuration: the global section and the named roots of the tree.
#[derive(Debug)]
pub struct ConfigFile {
    pub global: BaseEntry,
    pub entries: EntryMap,
}

impl ConfigFile {
    /// A configuration with the given global section and no entries.
    pub fn new(global: BaseEntry) -> (config: ConfigFile)
        ensures
            config.global == global,
            config.tree().len() == 0,
    {
        ConfigFile { global, entries: EntryMap::empty() }
    }

    /// The named roots of the tree, in their order.
    pub open spec fn tree(&self) -> Seq<(Seq<char>, NodeSpec)> {
        entry_map_contents(self.entries)
    }

    /// Puts `entry` under `name` among the roots of the tree. A root that had
    /// the name is replaced where it stood; a new name comes last.
    pub fn add_entry(&mut self, name: String, entry: RawEntry)
        ensures
            final(self).global == old(self).global,
            final(self).tree() == with_child(old(self).tree(), name@, entry@),
    {
        self.entries.put(name, entry);
    }
}

} // verus!
