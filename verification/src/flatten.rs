//! Building the list of entries: the walk through the configuration tree that
//! gives the entries in declaration order, and the two ways in which a
//! configuration can fail to yield entries.

use crate::conflict::{
    find_conflict, first_conflict, keys_of, lemma_first_conflict_none, prefix_free, shorter_key,
};
use crate::entries::{
    env_pairs, extend_entry, finish_entry, first_without_exec, flatten_children, flatten_node,
    lengths_of, listed, to_env, BuildError, BuildErrorSpec, Entry, EntrySpec, Lengths,
};
use crate::text::starts_with;
use crate::tree::{
    entry_map_contents, pairs_view, BaseEntry, BaseSpec, ConfigFile, EntryMap, NodeSpec,
};
use vstd::prelude::*;

verus! {

/// What `first_without_exec` names is the first entry without an executable.
pub proof fn lemma_first_without_exec(entries: Seq<EntrySpec>)
    ensures
        0 <= first_without_exec(entries) <= entries.len(),
        forall|i: int|
            0 <= i < first_without_exec(entries) ==> (#[trigger] entries[i]).executable.len() > 0,
        first_without_exec(entries) < entries.len() ==> entries[first_without_exec(
            entries,
        )].executable.len() == 0,
    decreases entries.len(),
{
    if entries.len() > 0 && entries[0].executable.len() != 0 {
        let rest = entries.drop_first();
        lemma_first_without_exec(rest);
        assert forall|i: int| 0 <= i < first_without_exec(entries) implies (
        #[trigger] entries[i]).executable.len() > 0 by {
            if i > 0 {
                assert(entries[i] == rest[i - 1]);
            }
        }
        if first_without_exec(entries) < entries.len() {
            assert(entries[first_without_exec(entries)] == rest[first_without_exec(rest)]);
        }
    }
}

/// A position before which every entry has an executable, and which holds none
/// or an entry without one, is the one that `first_without_exec` names.
pub proof fn lemma_first_without_exec_is(entries: Seq<EntrySpec>, k: int)
    requires
        0 <= k <= entries.len(),
        forall|i: int| 0 <= i < k ==> (#[trigger] entries[i]).executable.len() > 0,
        k < entries.len() ==> entries[k].executable.len() == 0,
    ensures
        first_without_exec(entries) == k,
{
    lemma_first_without_exec(entries);
    let f = first_without_exec(entries);
    if f < k {
        assert(entries[f].executable.len() > 0);
    } else if k < f {
        assert(entries[k].executable.len() > 0);
    }
}

/// In a list made of two the first entry without an executable is that of the
/// first list, or else that of the second.
pub proof fn lemma_first_without_exec_concat(a: Seq<EntrySpec>, b: Seq<EntrySpec>)
    ensures
        first_without_exec(a + b) == if first_without_exec(a) < a.len() {
            first_without_exec(a)
        } else {
            a.len() + first_without_exec(b)
        },
{
    lemma_first_without_exec(a);
    lemma_first_without_exec(b);
    let ab = a + b;
    let fa = first_without_exec(a);
    let fb = first_without_exec(b);
    let k = if fa < a.len() {
        fa
    } else {
        a.len() + fb
    };
    assert forall|i: int| 0 <= i < k implies (#[trigger] ab[i]).executable.len() > 0 by {
        if i < a.len() {
            assert(ab[i] == a[i]);
        } else {
            assert(ab[i] == b[i - a.len()]);
        }
    }
    if k < ab.len() {
        if fa < a.len() {
            assert(ab[k] == a[fa]);
        } else {
            assert(ab[k] == b[fb]);
        }
    }
    lemma_first_without_exec_is(ab, k);
}

/// The columns of a list made of two are the columns of both.
pub proof fn lemma_lengths_of_concat(a: Seq<EntrySpec>, b: Seq<EntrySpec>)
    ensures
        lengths_of(a + b) == lengths_of(a).merged(lengths_of(b)),
    decreases b.len(),
{
    if b.len() == 0 {
        assert(a + b =~= a);
    } else {
        let ab = a + b;
        assert(ab.drop_last() =~= a + b.drop_last());
        assert(ab.last() == b.last());
        lemma_lengths_of_concat(a, b.drop_last());
    }
}

/// The entries below the first `i` of some nodes come first among the entries
/// below all of them. The result is what follows them.
pub proof fn lemma_flatten_take(
    current: EntrySpec,
    kids: Seq<(Seq<char>, NodeSpec)>,
    i: int,
) -> (tail: Seq<EntrySpec>)
    requires
        0 <= i <= kids.len(),
    ensures
        flatten_children(current, kids) == flatten_children(current, kids.take(i)) + tail,
    decreases kids.len(),
{
    if i == kids.len() {
        assert(kids.take(i) =~= kids);
        let tail = Seq::<EntrySpec>::empty();
        assert(flatten_children(current, kids) + tail =~= flatten_children(current, kids));
        tail
    } else {
        let front = kids.drop_last();
        let t = lemma_flatten_take(current, front, i);
        assert(front.take(i) =~= kids.take(i));
        let last = flatten_node(current, kids.last().0, kids.last().1);
        let tail = t + last;
        assert(flatten_children(current, kids.take(i)) + t + last =~= flatten_children(
            current,
            kids.take(i),
        ) + tail);
        tail
    }
}

/// The entries below `children`, which all inherit `current`, in declaration
/// order; `lengths` grows to hold them. Where a leaf has no executable the
/// first such leaf is named, and `lengths` holds the entries before it.
pub fn build_entries(current: Entry, children: EntryMap, lengths: &mut Lengths) -> (res: Result<
    Vec<Entry>,
    BuildError,
>)
    ensures
        ({
            let all = flatten_children(current@, entry_map_contents(children));
            let k = first_without_exec(all);
            &&& *final(lengths) == old(lengths).merged(lengths_of(all.take(k)))
            &&& k < all.len() ==> (res matches Err(e) && e@ == BuildErrorSpec::MissingExec {
                entry_name: all[k].name,
            })
            &&& k >= all.len() ==> (res matches Ok(v) && v.deep_view() == all)
        }),
    decreases entry_map_contents(children),
{
    let ghost kids = entry_map_contents(children);
    let ghost start = *lengths;
    let ghost cur = current@;
    let pairs = children.into_pairs();
    let ghost items = pairs@;
    let mut out: Vec<Entry> = Vec::new();
    proof {
        assert(kids.take(0) =~= Seq::empty());
        assert(out.deep_view() =~= Seq::<EntrySpec>::empty());
        assert(lengths_of(out.deep_view()) == Lengths::zero());
    }
    for pair in it: pairs
        invariant
            it.seq() == items,
            pairs_view(items) == kids,
            kids == entry_map_contents(children),
            cur == current@,
            start == *old(lengths),
            out.deep_view() == flatten_children(cur, kids.take(it.index() as int)),
            first_without_exec(out.deep_view()) == out.len(),
            *lengths == start.merged(lengths_of(out.deep_view())),
    {
        let ghost i = it.index() as int;
        let ghost done = out.deep_view();
        let ghost kid = kids[i];
        let (label, node) = pair;
        proof {
            assert(kids.take(i + 1).drop_last() =~= kids.take(i));
            assert(kids.take(i + 1).last() == kid);
            assert(kid.0 == label@ && kid.1 == node@);
        }
        let ghost below = flatten_node(cur, kid.0, kid.1);
        let ghost tail = lemma_flatten_take(cur, kids, i + 1);
        let ghost all = flatten_children(cur, kids);
        proof {
            assert(flatten_children(cur, kids.take(i + 1)) == done + below);
            lemma_first_without_exec_concat(done, below);
            lemma_first_without_exec_concat(done + below, tail);
            lemma_first_without_exec(below);
            lemma_lengths_of_concat(done, below);
        }
        let mut entry = extend_entry(&current, label, &node);
        if node.is_leaf() {
            if entry.executable.as_str().is_empty() {
                proof {
                    assert(first_without_exec(below) == 0);
                    assert(all.take(done.len() as int) =~= done);
                    assert(all[done.len() as int] == below[0]);
                }
                return Err(BuildError::MissingExec { entry_name: entry.name });
            }
            finish_entry(&mut entry);
            lengths.absorb(&entry);
            proof {
                assert(below =~= seq![entry@]);
                assert(below.drop_last() =~= Seq::<EntrySpec>::empty());
                assert(below.last() == entry@);
                assert(lengths_of(below.drop_last()) == Lengths::zero());
                assert(lengths_of(below) == Lengths::zero().merged(Lengths::of(entry@)));
                assert(out.deep_view().push(entry@) =~= done + below);
            }
            out.push(entry);
            proof {
                assert(out.deep_view() =~= done + below);
            }
        } else {
            proof {
                assert(decreases_to!(kids => kid));
                assert(decreases_to!(kid => kid.1));
                assert(decreases_to!(kid.1 => kid.1.children));
                assert(kid.1.children == entry_map_contents(node.children));
            }
            let ghost before = *lengths;
            match build_entries(entry, node.children, lengths) {
                Ok(mut more) => {
                    proof {
                        assert(more.deep_view() == below);
                        assert(below.take(below.len() as int) =~= below);
                        assert(out.deep_view() + more.deep_view() =~= done + below);
                    }
                    let ghost sub = more.deep_view();
                    out.append(&mut more);
                    proof {
                        assert(out.deep_view() =~= done + sub);
                    }
                },
                Err(e) => {
                    proof {
                        let kb = first_without_exec(below);
                        let k = done.len() + kb;
                        assert(first_without_exec(all) == k);
                        assert(all.take(k) =~= done + below.take(kb));
                        lemma_lengths_of_concat(done, below.take(kb));
                        assert(all[k] == below[kb]);
                    }
                    return Err(e);
                },
            }
        }
    }
    proof {
        assert(kids.take(kids.len() as int) =~= kids);
        let all = flatten_children(cur, kids);
        assert(all.take(all.len() as int) =~= all);
    }
    Ok(out)
}

/// The text of `text`, or no text where there is none.
pub open spec fn text_or_empty(text: Option<Seq<char>>) -> Seq<char> {
    match text {
        Some(t) => t,
        None => Seq::empty(),
    }
}

/// The entry that the roots of the tree inherit: no key, no name, and what the
/// global section declares.
pub open spec fn base_entry(global: BaseSpec) -> EntrySpec {
    EntrySpec {
        key: Seq::empty(),
        name: Seq::empty(),
        breadcrumbs: Seq::empty(),
        executable: text_or_empty(global.executable),
        path: text_or_empty(global.path),
        args: listed(global.args),
        argstr: Seq::empty(),
        env: env_pairs(listed(global.env)),
        envstr: Seq::empty(),
    }
}

/// What a configuration yields: its entries in declaration order with the
/// widest of each column, or the reason why it yields none. A leaf without an
/// executable goes before any conflict between keys; of several such leaves
/// the first is named, and of several conflicts the first, by the key that is
/// the beginning of the other.
pub open spec fn build(global: BaseSpec, tree: Seq<(Seq<char>, NodeSpec)>) -> Result<
    (Seq<EntrySpec>, Lengths),
    BuildErrorSpec,
> {
    let all = flatten_children(base_entry(global), tree);
    let k = first_without_exec(all);
    if k < all.len() {
        Err(BuildErrorSpec::MissingExec { entry_name: all[k].name })
    } else {
        match first_conflict(keys_of(all)) {
            Some((i, j)) => Err(
                BuildErrorSpec::PrefixConflict {
                    key: shorter_key(keys_of(all)[i], keys_of(all)[j]),
                },
            ),
            None => Ok((all, lengths_of(all))),
        }
    }
}

/// The entry that the roots of the tree inherit from `global`.
pub fn root_entry(global: BaseEntry) -> (root: Entry)
    ensures
        root@ == base_entry(global@),
{
    let executable = match global.executable {
        Some(e) => e,
        None => String::new(),
    };
    let path = match global.path {
        Some(p) => p,
        None => String::new(),
    };
    let args = match global.args {
        Some(a) => a,
        None => Vec::new(),
    };
    let env = match global.env {
        Some(e) => to_env(e),
        None => Vec::new(),
    };
    let root = Entry {
        key: String::new(),
        name: String::new(),
        breadcrumbs: Vec::new(),
        executable,
        path,
        args,
        argstr: String::new(),
        env,
        envstr: String::new(),
    };
    proof {
        let want = base_entry(global@);
        assert(root@.breadcrumbs =~= want.breadcrumbs);
        assert(root@.args =~= want.args);
        assert(root@.env =~= want.env);
    }
    root
}

/// The entries of a configuration, in declaration order, with the widest of
/// each column; or the reason why the configuration yields none.
pub fn get_entries(config: ConfigFile) -> (res: Result<(Vec<Entry>, Lengths), BuildError>)
    ensures
        match build(config.global@, config.tree()) {
            Ok((entries, lengths)) => res matches Ok(built) && built.0.deep_view() == entries
                && built.1 == lengths,
            Err(e) => res matches Err(found) && found@ == e,
        },
        res matches Ok(built) ==> prefix_free(keys_of(built.0.deep_view())),
{
    let ghost all = flatten_children(base_entry(config.global@), config.tree());
    let base = root_entry(config.global);
    let mut lengths = Lengths::default();
    let entries = match build_entries(base, config.entries, &mut lengths) {
        Ok(entries) => entries,
        Err(e) => {
            return Err(e);
        },
    };
    proof {
        lemma_first_without_exec(all);
        assert(all.take(all.len() as int) =~= all);
    }
    match find_conflict(&entries) {
        Some((i, j)) => {
            let ghost keys = keys_of(all);
            proof {
                assert(keys[i as int] == entries[i as int].key@);
                assert(keys[j as int] == entries[j as int].key@);
            }
            let key = if starts_with(entries[j].key.as_str(), entries[i].key.as_str()) {
                entries[i].key.clone()
            } else {
                entries[j].key.clone()
            };
            Err(BuildError::PrefixConflict { key })
        },
        None => Ok((entries, lengths)),
    }
}

/// The widest of each column over some entries is at least as wide as the
/// column of each of them.
pub proof fn lemma_lengths_cover(entries: Seq<EntrySpec>, i: int)
    requires
        0 <= i < entries.len(),
    ensures
        lengths_of(entries).covers(Lengths::of(entries[i])),
    decreases entries.len(),
{
    if i < entries.len() - 1 {
        assert(entries.drop_last()[i] == entries[i]);
        lemma_lengths_cover(entries.drop_last(), i);
    }
}

/// A configuration yields entries exactly where each leaf has an executable
/// and no key is the beginning of another. The entries are then all the leaves
/// in declaration order, and the lengths are the widest of each column. A leaf
/// without an executable makes the build fail as such, and otherwise a conflict
/// does.
pub proof fn lemma_build_outcomes(global: BaseSpec, tree: Seq<(Seq<char>, NodeSpec)>)
    ensures
        ({
            let all = flatten_children(base_entry(global), tree);
            let complete = forall|i: int|
                0 <= i < all.len() ==> (#[trigger] all[i]).executable.len() > 0;
            &&& build(global, tree) is Ok <==> complete && prefix_free(keys_of(all))
            &&& build(global, tree) is Ok ==> build(global, tree) == Ok::<
                (Seq<EntrySpec>, Lengths),
                BuildErrorSpec,
            >((all, lengths_of(all)))
            &&& (build(global, tree) matches Err(BuildErrorSpec::MissingExec { .. })) <==> !complete
            &&& (build(global, tree) matches Err(BuildErrorSpec::PrefixConflict { .. }))
                <==> complete && !prefix_free(keys_of(all))
        }),
{
    let all = flatten_children(base_entry(global), tree);
    lemma_first_without_exec(all);
    lemma_first_conflict_none(keys_of(all));
}

} // verus!
