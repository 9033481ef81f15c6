//! Flattening the configuration tree into the list of entries that can be
//! launched, each with what it inherits from the nodes above it.

use crate::text::{
    after_first, before_first, clone_pairs, clone_strings, join, join_strings, length,
    split_first, text_len, trim_end, trim_end_matches, trim_start, trim_start_matches,
};
pub use crate::flatten::{build_entries, get_entries};
use crate::tree::NodeSpec;
pub use crate::tree::{BaseEntry, ConfigFile, RawEntry};
use vstd::prelude::*;
use vstd::string::*;

verus! {

/// An entry as a mathematical value.
pub struct EntrySpec {
    pub key: Seq<char>,
    pub name: Seq<char>,
    pub breadcrumbs: Seq<(Seq<char>, Seq<char>)>,
    pub executable: Seq<char>,
    pub path: Seq<char>,
    pub args: Seq<Seq<char>>,
    pub argstr: Seq<char>,
    pub env: Seq<(Seq<char>, Seq<char>)>,
    pub envstr: Seq<char>,
}

/// A shortcut that can be launched: a leaf of the tree with all that it
/// inherits from the nodes above it.
#[derive(Debug, PartialEq, Eq)]
pub struct Entry {
    /// The key fragments of the nodes from the root down to the leaf, in one string.
    pub key: String,
    /// The labels of those nodes, joined with `" > "`.
    pub name: String,
    /// For each of those nodes its label and the key as far as that node.
    pub breadcrumbs: Vec<(String, String)>,
    pub executable: String,
    pub path: String,
    pub args: Vec<String>,
    /// The arguments, joined with a space.
    pub argstr: String,
    pub env: Vec<(String, String)>,
    /// The names of the environment variables, joined with a comma.
    pub envstr: String,
}

impl View for Entry {
    type V = EntrySpec;

    open spec fn view(&self) -> EntrySpec {
        EntrySpec {
            key: self.key@,
            name: self.name@,
            breadcrumbs: self.breadcrumbs.deep_view(),
            executable: self.executable@,
            path: self.path@,
            args: self.args.deep_view(),
            argstr: self.argstr@,
            env: self.env.deep_view(),
            envstr: self.envstr@,
        }
    }
}

impl DeepView for Entry {
    type V = EntrySpec;

    open spec fn deep_view(&self) -> EntrySpec {
        self@
    }
}

impl Clone for Entry {
    fn clone(&self) -> (copy: Entry)
        ensures
            copy@ == self@,
    {
        Entry {
            key: self.key.clone(),
            name: self.name.clone(),
            breadcrumbs: clone_pairs(&self.breadcrumbs),
            executable: self.executable.clone(),
            path: self.path.clone(),
            args: clone_strings(&self.args),
            argstr: self.argstr.clone(),
            env: clone_pairs(&self.env),
            envstr: self.envstr.clone(),
        }
    }
}

/// The widest of each column over a list of entries, in bytes.
#[derive(Clone, Copy, Debug, PartialEq, Eq, Structural)]
pub struct Lengths {
    pub key: usize,
    pub name: usize,
    pub args: usize,
    pub path: usize,
    pub executable: usize,
    pub env: usize,
}

/// The larger of two lengths.
pub open spec fn longer(a: usize, b: usize) -> usize {
    if a >= b {
        a
    } else {
        b
    }
}

impl Lengths {
    /// All columns empty.
    pub open spec fn zero() -> Lengths {
        Lengths { key: 0, name: 0, args: 0, path: 0, executable: 0, env: 0 }
    }

    /// The columns of one entry.
    pub open spec fn of(e: EntrySpec) -> Lengths {
        Lengths {
            key: text_len(e.key),
            name: text_len(e.name),
            args: text_len(e.argstr),
            path: text_len(e.path),
            executable: text_len(e.executable),
            env: text_len(e.envstr),
        }
    }

    /// Column by column the larger of `self` and `other`.
    pub open spec fn merged(self, other: Lengths) -> Lengths {
        Lengths {
            key: longer(self.key, other.key),
            name: longer(self.name, other.name),
            args: longer(self.args, other.args),
            path: longer(self.path, other.path),
            executable: longer(self.executable, other.executable),
            env: longer(self.env, other.env),
        }
    }

    /// Whether no column of `other` is wider than that of `self`.
    pub open spec fn covers(self, other: Lengths) -> bool {
        &&& other.key <= self.key
        &&& other.name <= self.name
        &&& other.args <= self.args
        &&& other.path <= self.path
        &&& other.executable <= self.executable
        &&& other.env <= self.env
    }

    /// Widens each column to hold `entry`.
    pub fn absorb(&mut self, entry: &Entry)
        ensures
            *final(self) == old(self).merged(Lengths::of(entry@)),
    {
        let key = length(&entry.key);
        if key > self.key {
            self.key = key;
        }
        let name = length(&entry.name);
        if name > self.name {
            self.name = name;
        }
        let args = length(&entry.argstr);
        if args > self.args {
            self.args = args;
        }
        let path = length(&entry.path);
        if path > self.path {
            self.path = path;
        }
        let executable = length(&entry.executable);
        if executable > self.executable {
            self.executable = executable;
        }
        let env = length(&entry.envstr);
        if env > self.env {
            self.env = env;
        }
    }
}

impl Default for Lengths {
    fn default() -> (lengths: Lengths)
        ensures
            lengths == Lengths::zero(),
    {
        Lengths { key: 0, name: 0, args: 0, path: 0, executable: 0, env: 0 }
    }
}

/// The widest of each column over `entries`.
pub open spec fn lengths_of(entries: Seq<EntrySpec>) -> Lengths
    decreases entries.len(),
{
    if entries.len() == 0 {
        Lengths::zero()
    } else {
        lengths_of(entries.drop_last()).merged(Lengths::of(entries.last()))
    }
}

/// Why a configuration yields no entries.
#[derive(Debug, PartialEq, Eq)]
pub enum BuildError {
    /// A leaf has no executable, neither its own nor an inherited one.
    MissingExec { entry_name: String },
    /// The key of one entry is the beginning of the key of another.
    PrefixConflict { key: String },
}

/// A build error as a mathematical value.
pub enum BuildErrorSpec {
    MissingExec { entry_name: Seq<char> },
    PrefixConflict { key: Seq<char> },
}

impl View for BuildError {
    type V = BuildErrorSpec;

    open spec fn view(&self) -> BuildErrorSpec {
        match self {
            BuildError::MissingExec { entry_name } => BuildErrorSpec::MissingExec {
                entry_name: entry_name@,
            },
            BuildError::PrefixConflict { key } => BuildErrorSpec::PrefixConflict { key: key@ },
        }
    }
}

impl BuildError {
    /// The error in words.
    pub open spec fn message_spec(e: BuildErrorSpec) -> Seq<char> {
        match e {
            BuildErrorSpec::MissingExec { entry_name } => "No exec command for entry "@
                + entry_name,
            BuildErrorSpec::PrefixConflict { key } => "Prefix conflict "@ + key,
        }
    }

    /// The error in words.
    pub fn message(&self) -> (text: String)
        ensures
            text@ == Self::message_spec(self@),
    {
        match self {
            BuildError::MissingExec { entry_name } => {
                String::from_str("No exec command for entry ").concat(entry_name.as_str())
            },
            BuildError::PrefixConflict { key } => {
                String::from_str("Prefix conflict ").concat(key.as_str())
            },
        }
    }
}

/// One `NAME=VALUE` string as a pair: cut at the first `=`, which is dropped.
/// Without a `=` the whole string is the name and the value is empty.
pub open spec fn env_pair(s: Seq<char>) -> (Seq<char>, Seq<char>) {
    (before_first(s, '='), after_first(s, '='))
}

/// Each `NAME=VALUE` string of `env` as a pair.
pub open spec fn env_pairs(env: Seq<Seq<char>>) -> Seq<(Seq<char>, Seq<char>)> {
    env.map_values(|s: Seq<char>| env_pair(s))
}

/// Splits each `NAME=VALUE` string at its first `=`.
pub fn to_env(env: Vec<String>) -> (pairs: Vec<(String, String)>)
    ensures
        pairs.deep_view() == env_pairs(env.deep_view()),
{
    let mut pairs: Vec<(String, String)> = Vec::new();
    let mut i: usize = 0;
    while i < env.len()
        invariant
            i <= env.len(),
            pairs.len() == i,
            forall|j: int| 0 <= j < i ==> (#[trigger] pairs[j]).deep_view() == env_pair(env[j]@),
        decreases env.len() - i,
    {
        let pair = split_first(env[i].as_str(), '=');
        pairs.push(pair);
        i += 1;
    }
    assert(pairs.deep_view() =~= env_pairs(env.deep_view()));
    pairs
}

/// The text that stands between two labels of a name.
pub open spec fn name_separator() -> Seq<char> {
    seq![' ', '>', ' ']
}

/// The path of a node that declares `own` below an inherited path. A declared
/// path that begins with `+` is appended: the inherited path without its
/// trailing `/`, one `/`, and the declared path without its leading `+` and `/`.
/// Any other declared path replaces the inherited one.
pub open spec fn resolve_path(inherited: Seq<char>, own: Option<Seq<char>>) -> Seq<char> {
    match own {
        None => inherited,
        Some(p) => if p.len() > 0 && p[0] == '+' {
            trim_end(inherited, '/') + seq!['/'] + trim_start(p, '/', '+')
        } else {
            p
        },
    }
}

/// The strings of `list`, or none where there is no list.
pub open spec fn listed(list: Option<Seq<Seq<char>>>) -> Seq<Seq<char>> {
    match list {
        Some(l) => l,
        None => Seq::empty(),
    }
}

/// What a node labelled `label` makes of the entry `current` that it inherits:
/// the label joins the name, the key fragment joins the key, both make a new
/// breadcrumb; a declared executable or path takes the place of the inherited
/// one; declared arguments and environment follow the inherited ones.
pub open spec fn descend(current: EntrySpec, label: Seq<char>, node: NodeSpec) -> EntrySpec {
    let key = current.key + node.key;
    EntrySpec {
        key,
        name: if current.breadcrumbs.len() == 0 {
            label
        } else {
            current.name + name_separator() + label
        },
        breadcrumbs: current.breadcrumbs.push((label, key)),
        executable: match node.executable {
            Some(e) => e,
            None => current.executable,
        },
        path: resolve_path(current.path, node.path),
        args: current.args + listed(node.args),
        argstr: current.argstr,
        env: current.env + env_pairs(listed(node.env)),
        envstr: current.envstr,
    }
}

/// The names of the variables of `env`.
pub open spec fn env_names(env: Seq<(Seq<char>, Seq<char>)>) -> Seq<Seq<char>> {
    env.map_values(|p: (Seq<char>, Seq<char>)| p.0)
}

/// `e` with its two display strings brought up to date.
pub open spec fn finalize(e: EntrySpec) -> EntrySpec {
    EntrySpec { argstr: join(e.args, seq![' ']), envstr: join(env_names(e.env), seq![',']), ..e }
}

/// The entries below one node, in declaration order: the node itself where it
/// is a leaf, else those of its children.
pub open spec fn flatten_node(current: EntrySpec, label: Seq<char>, node: NodeSpec) -> Seq<
    EntrySpec,
>
    decreases node,
{
    let entry = descend(current, label, node);
    if node.children.len() == 0 {
        seq![finalize(entry)]
    } else {
        flatten_children(entry, node.children)
    }
}

/// The entries below the nodes `kids`, which all inherit `current`: those of
/// the first node, then those of the second, and so on.
pub open spec fn flatten_children(current: EntrySpec, kids: Seq<(Seq<char>, NodeSpec)>) -> Seq<
    EntrySpec,
>
    decreases kids,
{
    if kids.len() == 0 {
        Seq::empty()
    } else {
        flatten_children(current, kids.drop_last()) + flatten_node(
            current,
            kids.last().0,
            kids.last().1,
        )
    }
}

/// The position of the first entry without an executable, or the length of
/// `entries` where each has one.
pub open spec fn first_without_exec(entries: Seq<EntrySpec>) -> int
    decreases entries.len(),
{
    if entries.len() == 0 {
        0
    } else if entries[0].executable.len() == 0 {
        0
    } else {
        1 + first_without_exec(entries.drop_first())
    }
}

/// The path of a node that declares `own` below the path `inherited`.
pub fn inherit_path(inherited: &String, own: &Option<String>) -> (path: String)
    ensures
        path@ == resolve_path(inherited@, own.deep_view()),
{
    match own {
        None => inherited.clone(),
        Some(p) => {
            if p.as_str().unicode_len() > 0 && p.as_str().get_char(0) == '+' {
                let mut out = trim_end_matches(inherited.as_str(), '/');
                let tail = trim_start_matches(p.as_str(), '/', '+');
                proof {
                    reveal_strlit("/");
                    assert("/"@ =~= seq!['/']);
                }
                out.append("/");
                out.append(tail.as_str());
                out
            } else {
                p.clone()
            }
        },
    }
}

/// The entry that a node labelled `label` makes of the entry `current` that it
/// inherits.
pub fn extend_entry(current: &Entry, label: String, node: &RawEntry) -> (next: Entry)
    ensures
        next@ == descend(current@, label@, node@),
{
    let mut key = current.key.clone();
    key.append(node.key.as_str());
    let name = if current.breadcrumbs.len() == 0 {
        label.clone()
    } else {
        let mut name = current.name.clone();
        proof {
            reveal_strlit(" > ");
            assert(" > "@ =~= name_separator());
        }
        name.append(" > ");
        name.append(label.as_str());
        name
    };
    let mut breadcrumbs = clone_pairs(&current.breadcrumbs);
    breadcrumbs.push((label, key.clone()));
    let executable = match &node.executable {
        Some(e) => e.clone(),
        None => current.executable.clone(),
    };
    let path = inherit_path(&current.path, &node.path);
    let mut args = clone_strings(&current.args);
    match &node.args {
        Some(own) => {
            let mut more = clone_strings(own);
            args.append(&mut more);
        },
        None => {},
    }
    let mut env = clone_pairs(&current.env);
    match &node.env {
        Some(own) => {
            let mut more = to_env(clone_strings(own));
            env.append(&mut more);
        },
        None => {},
    }
    let next = Entry {
        key,
        name,
        breadcrumbs,
        executable,
        path,
        args,
        argstr: current.argstr.clone(),
        env,
        envstr: current.envstr.clone(),
    };
    proof {
        let want = descend(current@, label@, node@);
        assert(next@.breadcrumbs =~= want.breadcrumbs);
        assert(next@.args =~= want.args);
        assert(next@.env =~= want.env);
    }
    next
}

/// Brings the two display strings of `entry` up to date.
pub fn finish_entry(entry: &mut Entry)
    ensures
        final(entry)@ == finalize(old(entry)@),
{
    let mut names: Vec<String> = Vec::new();
    let mut i: usize = 0;
    while i < entry.env.len()
        invariant
            i <= entry.env.len(),
            names.len() == i,
            *entry == *old(entry),
            forall|j: int| 0 <= j < i ==> names[j]@ == entry.env[j].0@,
        decreases entry.env.len() - i,
    {
        names.push(entry.env[i].0.clone());
        i += 1;
    }
    proof {
        reveal_strlit(" ");
        reveal_strlit(",");
        assert(" "@ =~= seq![' ']);
        assert(","@ =~= seq![',']);
        assert(names.deep_view() =~= env_names(entry@.env));
    }
    entry.argstr = join_strings(&entry.args, " ");
    entry.envstr = join_strings(&names, ",");
}

/// The arguments that an entry is launched with: its own, and after them the
/// expanded path where the entry has a path.
pub open spec fn launch_args(e: EntrySpec, expanded_path: Seq<char>) -> Seq<Seq<char>> {
    if e.path.len() > 0 {
        e.args.push(expanded_path)
    } else {
        e.args
    }
}

/// The arguments to launch `entry` with, given its path with all placeholders
/// expanded.
pub fn command_args(entry: &Entry, expanded_path: String) -> (args: Vec<String>)
    ensures
        args.deep_view() == launch_args(entry@, expanded_path@),
{
    let mut args = clone_strings(&entry.args);
    if !entry.path.as_str().is_empty() {
        let ghost before = args.deep_view();
        args.push(expanded_path);
        proof {
            assert(args.deep_view() =~= before.push(expanded_path@));
        }
    }
    args
}

} // verus!
