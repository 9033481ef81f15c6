//! Paths through the tree. Each entry of a configuration is what the nodes on
//! one path from a root to a leaf make of the entry that the roots inherit, and
//! each such path gives an entry.

use crate::entries::{
    descend, env_pairs, finalize, first_without_exec, flatten_children, flatten_node, listed,
    BuildErrorSpec, EntrySpec,
};
use crate::flatten::{base_entry, build, lemma_first_without_exec};
use crate::text::{trim_end, trim_start};
use crate::tree::{BaseSpec, NodeSpec};
use vstd::prelude::*;

verus! {

/// What the nodes of `path`, from the first to the last, make of `current`.
pub open spec fn walk(current: EntrySpec, path: Seq<(Seq<char>, NodeSpec)>) -> EntrySpec
    decreases path.len(),
{
    if path.len() == 0 {
        current
    } else {
        walk(descend(current, path[0].0, path[0].1), path.drop_first())
    }
}

/// Whether `path` leads from one of `kids` down to a leaf, each node a child of
/// the one before it.
pub open spec fn leads_to_leaf(
    kids: Seq<(Seq<char>, NodeSpec)>,
    path: Seq<(Seq<char>, NodeSpec)>,
) -> bool
    decreases path.len(),
{
    &&& path.len() > 0
    &&& kids.contains(path[0])
    &&& if path.len() == 1 {
        path[0].1.children.len() == 0
    } else {
        leads_to_leaf(path[0].1.children, path.drop_first())
    }
}

/// The arguments that the nodes of `path` declare, in order.
pub open spec fn declared_args(path: Seq<(Seq<char>, NodeSpec)>) -> Seq<Seq<char>>
    decreases path.len(),
{
    if path.len() == 0 {
        Seq::empty()
    } else {
        listed(path[0].1.args) + declared_args(path.drop_first())
    }
}

/// The environment that the nodes of `path` declare, in order.
pub open spec fn declared_env(path: Seq<(Seq<char>, NodeSpec)>) -> Seq<(Seq<char>, Seq<char>)>
    decreases path.len(),
{
    if path.len() == 0 {
        Seq::empty()
    } else {
        env_pairs(listed(path[0].1.env)) + declared_env(path.drop_first())
    }
}

/// Whether a node declares no executable, or an empty one.
pub open spec fn declares_no_exec(node: NodeSpec) -> bool {
    match node.executable {
        None => true,
        Some(e) => e.len() == 0,
    }
}

/// The entries below the node at `i` are among the entries below all nodes.
pub proof fn lemma_flatten_holds_node(
    current: EntrySpec,
    kids: Seq<(Seq<char>, NodeSpec)>,
    i: int,
    e: EntrySpec,
)
    requires
        0 <= i < kids.len(),
        flatten_node(current, kids[i].0, kids[i].1).contains(e),
    ensures
        flatten_children(current, kids).contains(e),
    decreases kids.len(),
{
    let front = flatten_children(current, kids.drop_last());
    let back = flatten_node(current, kids.last().0, kids.last().1);
    if i == kids.len() - 1 {
        let k = choose|k: int| 0 <= k < back.len() && back[k] == e;
        assert((front + back)[front.len() + k] == e);
    } else {
        assert(kids.drop_last()[i] == kids[i]);
        lemma_flatten_holds_node(current, kids.drop_last(), i, e);
        let k = choose|k: int| 0 <= k < front.len() && front[k] == e;
        assert((front + back)[k] == e);
    }
}

/// Every path to a leaf gives an entry: what its nodes make of `current`, with
/// the display strings brought up to date.
pub proof fn lemma_path_gives_entry(
    current: EntrySpec,
    kids: Seq<(Seq<char>, NodeSpec)>,
    path: Seq<(Seq<char>, NodeSpec)>,
)
    requires
        leads_to_leaf(kids, path),
    ensures
        flatten_children(current, kids).contains(finalize(walk(current, path))),
    decreases path.len(),
{
    let i = choose|i: int| 0 <= i < kids.len() && kids[i] == path[0];
    let next = descend(current, path[0].0, path[0].1);
    let below = flatten_node(current, kids[i].0, kids[i].1);
    let e = finalize(walk(current, path));
    if path.len() == 1 {
        assert(path.drop_first().len() == 0);
        assert(walk(current, path) == next) by {
            reveal_with_fuel(walk, 2);
        }
        assert(below[0] == e);
    } else {
        lemma_path_gives_entry(next, path[0].1.children, path.drop_first());
    }
    lemma_flatten_holds_node(current, kids, i, e);
}

/// Every entry comes from a path to a leaf. The result is that path.
pub proof fn lemma_entry_has_path(
    current: EntrySpec,
    kids: Seq<(Seq<char>, NodeSpec)>,
    k: int,
) -> (path: Seq<(Seq<char>, NodeSpec)>)
    requires
        0 <= k < flatten_children(current, kids).len(),
    ensures
        leads_to_leaf(kids, path),
        flatten_children(current, kids)[k] == finalize(walk(current, path)),
    decreases kids, 1int,
{
    let front_kids = kids.drop_last();
    let front = flatten_children(current, front_kids);
    let last = kids.last();
    if k < front.len() {
        let path = lemma_entry_has_path(current, front_kids, k);
        let i = choose|i: int| 0 <= i < front_kids.len() && front_kids[i] == path[0];
        assert(kids[i] == path[0]);
        path
    } else {
        let path = lemma_node_entry_has_path(current, last.0, last.1, k - front.len());
        assert(kids[kids.len() - 1] == path[0]);
        path
    }
}

/// Every entry below a node comes from a path that starts at the node. The
/// result is that path.
pub proof fn lemma_node_entry_has_path(
    current: EntrySpec,
    label: Seq<char>,
    node: NodeSpec,
    k: int,
) -> (path: Seq<(Seq<char>, NodeSpec)>)
    requires
        0 <= k < flatten_node(current, label, node).len(),
    ensures
        path.len() > 0,
        path[0] == (label, node),
        if path.len() == 1 {
            node.children.len() == 0
        } else {
            leads_to_leaf(node.children, path.drop_first())
        },
        flatten_node(current, label, node)[k] == finalize(walk(current, path)),
    decreases node, 0int,
{
    let next = descend(current, label, node);
    if node.children.len() == 0 {
        let path = seq![(label, node)];
        assert(path.drop_first().len() == 0);
        assert(walk(current, path) == next) by {
            reveal_with_fuel(walk, 2);
        }
        path
    } else {
        let rest = lemma_entry_has_path(next, node.children, k);
        let path = seq![(label, node)] + rest;
        assert(path.drop_first() =~= rest);
        path
    }
}

/// A node that declares an executable gives it to the entry; a node that
/// declares none leaves the inherited one.
pub proof fn lemma_exec_inherited_or_overridden(
    current: EntrySpec,
    label: Seq<char>,
    node: NodeSpec,
)
    ensures
        node.executable is None ==> descend(current, label, node).executable
            == current.executable,
        node.executable matches Some(own) ==> descend(current, label, node).executable == own,
{
}

/// A declared path that begins with `+` is appended to the inherited path,
/// with one `/` between the two; any other declared path replaces it; a node
/// that declares none leaves the inherited one.
pub proof fn lemma_path_appended_or_replaced(
    current: EntrySpec,
    label: Seq<char>,
    node: NodeSpec,
)
    ensures
        node.path is None ==> descend(current, label, node).path == current.path,
        node.path matches Some(own) ==> descend(current, label, node).path == if own.len() > 0
            && own[0] == '+' {
            trim_end(current.path, '/') + seq!['/'] + trim_start(own, '/', '+')
        } else {
            own
        },
{
}

/// What a path makes of an entry has the arguments and the environment of the
/// entry first, then those that the nodes of the path declare: nothing that was
/// inherited is replaced.
pub proof fn lemma_args_and_env_accumulate(current: EntrySpec, path: Seq<(Seq<char>, NodeSpec)>)
    ensures
        walk(current, path).args == current.args + declared_args(path),
        walk(current, path).env == current.env + declared_env(path),
        current.args.is_prefix_of(walk(current, path).args),
        current.env.is_prefix_of(walk(current, path).env),
    decreases path.len(),
{
    if path.len() == 0 {
        assert(current.args + declared_args(path) =~= current.args);
        assert(current.env + declared_env(path) =~= current.env);
    } else {
        let next = descend(current, path[0].0, path[0].1);
        lemma_args_and_env_accumulate(next, path.drop_first());
        assert(next.args + declared_args(path.drop_first()) =~= current.args + declared_args(
            path,
        ));
        assert(next.env + declared_env(path.drop_first()) =~= current.env + declared_env(path));
    }
}

/// Where neither the entry nor a node of the path has an executable, what the
/// path makes of the entry has none.
pub proof fn lemma_no_exec_along_path(current: EntrySpec, path: Seq<(Seq<char>, NodeSpec)>)
    requires
        current.executable.len() == 0,
        forall|j: int| 0 <= j < path.len() ==> declares_no_exec(#[trigger] path[j].1),
    ensures
        walk(current, path).executable.len() == 0,
    decreases path.len(),
{
    if path.len() > 0 {
        let next = descend(current, path[0].0, path[0].1);
        assert(declares_no_exec(path[0].1));
        let rest = path.drop_first();
        assert forall|j: int| 0 <= j < rest.len() implies declares_no_exec(
            #[trigger] rest[j].1,
        ) by {
            assert(rest[j] == path[j + 1]);
        }
        lemma_no_exec_along_path(next, rest);
    }
}

/// A configuration with a leaf that has no executable, neither its own nor one
/// from a node above it nor one from the global section, yields no entries: the
/// build reports a missing executable.
pub proof fn lemma_leaf_without_exec_fails(
    global: BaseSpec,
    tree: Seq<(Seq<char>, NodeSpec)>,
    path: Seq<(Seq<char>, NodeSpec)>,
)
    requires
        leads_to_leaf(tree, path),
        base_entry(global).executable.len() == 0,
        forall|j: int| 0 <= j < path.len() ==> declares_no_exec(#[trigger] path[j].1),
    ensures
        build(global, tree) matches Err(BuildErrorSpec::MissingExec { .. }),
{
    let root = base_entry(global);
    let all = flatten_children(root, tree);
    let e = finalize(walk(root, path));
    lemma_no_exec_along_path(root, path);
    lemma_path_gives_entry(root, tree, path);
    let k = choose|k: int| 0 <= k < all.len() && all[k] == e;
    lemma_first_without_exec(all);
    if first_without_exec(all) >= all.len() {
        assert(all[k].executable.len() > 0);
    }
}

} // verus!
