//! Keys that stand in each other's way: one the beginning of another.

use crate::entries::{Entry, EntrySpec};
use crate::text::starts_with;
use vstd::prelude::*;

verus! {

/// Whether one of `a` and `b` is the beginning of the other. Equal keys are in
/// conflict too.
pub open spec fn conflicts(a: Seq<char>, b: Seq<char>) -> bool {
    a.is_prefix_of(b) || b.is_prefix_of(a)
}

/// The keys of `entries`.
pub open spec fn keys_of(entries: Seq<EntrySpec>) -> Seq<Seq<char>> {
    entries.map_values(|e: EntrySpec| e.key)
}

/// Whether no two of `keys` are in conflict.
pub open spec fn prefix_free(keys: Seq<Seq<char>>) -> bool {
    forall|i: int, j: int| 0 <= i < j < keys.len() ==> !conflicts(#[trigger] keys[i], #[trigger] keys[j])
}

/// Whether the pair at `a` and `b` comes before the pair at `i` and `j`, when
/// the pairs are taken in turn: the first key with each that follows it, then
/// the second key with each that follows it, and so on.
pub open spec fn pair_before(a: int, b: int, i: int, j: int) -> bool {
    a < i || (a == i && b < j)
}

/// Whether the keys at `i` and `j` are the first pair in conflict.
pub open spec fn is_first_conflict(keys: Seq<Seq<char>>, i: int, j: int) -> bool {
    &&& 0 <= i < j < keys.len()
    &&& conflicts(keys[i], keys[j])
    &&& forall|a: int, b: int|
        0 <= a < b < keys.len() && pair_before(a, b, i, j) ==> !conflicts(
            #[trigger] keys[a],
            #[trigger] keys[b],
        )
}

/// The first pair of `keys` in conflict, if there is one.
pub open spec fn first_conflict(keys: Seq<Seq<char>>) -> Option<(int, int)> {
    if exists|i: int, j: int| is_first_conflict(keys, i, j) {
        Some(choose|p: (int, int)| is_first_conflict(keys, p.0, p.1))
    } else {
        None
    }
}

/// Of two keys in conflict the one that is the beginning of the other.
pub open spec fn shorter_key(a: Seq<char>, b: Seq<char>) -> Seq<char> {
    if a.is_prefix_of(b) {
        a
    } else {
        b
    }
}

/// There is at most one first pair in conflict.
pub proof fn lemma_first_conflict_unique(keys: Seq<Seq<char>>, i: int, j: int, a: int, b: int)
    requires
        is_first_conflict(keys, i, j),
        is_first_conflict(keys, a, b),
    ensures
        i == a,
        j == b,
{
    if pair_before(a, b, i, j) {
        assert(!conflicts(keys[a], keys[b]));
    } else if pair_before(i, j, a, b) {
        assert(!conflicts(keys[i], keys[j]));
    }
}

/// A first pair in conflict is the one that `first_conflict` names.
pub proof fn lemma_first_conflict_is(keys: Seq<Seq<char>>, i: int, j: int)
    requires
        is_first_conflict(keys, i, j),
    ensures
        first_conflict(keys) == Some((i, j)),
{
    let p = choose|p: (int, int)| is_first_conflict(keys, p.0, p.1);
    assert(is_first_conflict(keys, (i, j).0, (i, j).1));
    lemma_first_conflict_unique(keys, i, j, p.0, p.1);
}

/// Keys without a pair in conflict have no first such pair, and keys with a
/// first pair in conflict are not free of conflicts.
pub proof fn lemma_first_conflict_none(keys: Seq<Seq<char>>)
    ensures
        prefix_free(keys) <==> first_conflict(keys) is None,
{
    if prefix_free(keys) {
        if exists|i: int, j: int| is_first_conflict(keys, i, j) {
            let (i, j) = choose|i: int, j: int| is_first_conflict(keys, i, j);
            assert(conflicts(keys[i], keys[j]));
        }
    } else {
        let (i, j) = choose|i: int, j: int|
            0 <= i < j < keys.len() && conflicts(#[trigger] keys[i], #[trigger] keys[j]);
        lemma_first_conflict_exists(keys, i, j);
    }
}

/// Where some pair is in conflict, some pair is the first one.
pub proof fn lemma_first_conflict_exists(keys: Seq<Seq<char>>, i: int, j: int)
    requires
        0 <= i < j < keys.len(),
        conflicts(keys[i], keys[j]),
    ensures
        exists|a: int, b: int| is_first_conflict(keys, a, b),
    decreases i * keys.len() + j,
{
    let n = keys.len() as int;
    if is_first_conflict(keys, i, j) {
    } else {
        let (a, b) = choose|a: int, b: int|
            0 <= a < b < n && pair_before(a, b, i, j) && conflicts(
                #[trigger] keys[a],
                #[trigger] keys[b],
            );
        assert(a * n + b < i * n + j) by (nonlinear_arith)
            requires
                0 <= a < b < n,
                0 <= i < j < n,
                a < i || (a == i && b < j),
        ;
        assert(0 <= a * n + b) by (nonlinear_arith)
            requires
                0 <= a,
                0 <= b,
                0 <= n,
        ;
        lemma_first_conflict_exists(keys, a, b);
    }
}

/// Among two or more keys of which none is the beginning of another, none is
/// empty.
pub proof fn lemma_keys_not_empty(keys: Seq<Seq<char>>, i: int)
    requires
        prefix_free(keys),
        keys.len() >= 2,
        0 <= i < keys.len(),
    ensures
        keys[i].len() > 0,
{
    if keys[i].len() == 0 {
        if i == 0 {
            assert(keys[0].is_prefix_of(keys[1]));
            assert(conflicts(keys[0], keys[1]));
        } else {
            assert(keys[i].is_prefix_of(keys[0]));
            assert(conflicts(keys[0], keys[i]));
        }
    }
}

/// Whether one of `a` and `b` is the beginning of the other.
pub fn in_conflict(a: &String, b: &String) -> (r: bool)
    ensures
        r == conflicts(a@, b@),
{
    starts_with(b.as_str(), a.as_str()) || starts_with(a.as_str(), b.as_str())
}

/// The first two entries whose keys are in conflict, by their positions. Each
/// pair of entries is compared once.
pub fn find_conflict(entries: &Vec<Entry>) -> (found: Option<(usize, usize)>)
    ensures
        match found {
            Some((i, j)) => first_conflict(keys_of(entries.deep_view())) == Some(
                (i as int, j as int),
            ) && is_first_conflict(keys_of(entries.deep_view()), i as int, j as int),
            None => first_conflict(keys_of(entries.deep_view())) is None && prefix_free(
                keys_of(entries.deep_view()),
            ),
        },
{
    let ghost keys = keys_of(entries.deep_view());
    let n = entries.len();
    let mut i: usize = 0;
    while i < n
        invariant
            i <= n,
            n == entries.len(),
            keys == keys_of(entries.deep_view()),
            forall|a: int, b: int|
                0 <= a < b < n && a < i ==> !conflicts(#[trigger] keys[a], #[trigger] keys[b]),
        decreases n - i,
    {
        let mut j: usize = i + 1;
        while j < n
            invariant
                i < j <= n,
                n == entries.len(),
                keys == keys_of(entries.deep_view()),
                forall|a: int, b: int|
                    0 <= a < b < n && a < i ==> !conflicts(#[trigger] keys[a], #[trigger] keys[b]),
                forall|b: int| i < b < j ==> !conflicts(keys[i as int], #[trigger] keys[b]),
            decreases n - j,
        {
            if in_conflict(&entries[i].key, &entries[j].key) {
                proof {
                    assert(keys[i as int] == entries[i as int].key@);
                    assert(keys[j as int] == entries[j as int].key@);
                    assert(is_first_conflict(keys, i as int, j as int));
                    lemma_first_conflict_is(keys, i as int, j as int);
                }
                return Some((i, j));
            }
            proof {
                assert(keys[i as int] == entries[i as int].key@);
                assert(keys[j as int] == entries[j as int].key@);
            }
            j += 1;
        }
        i += 1;
    }
    proof {
        assert(prefix_free(keys));
        lemma_first_conflict_none(keys);
    }
    None
}

} // verus!
