//! Narrowing the entries down to one, a key at a time: the buffer of what was
//! typed, and what each key makes of it.

use crate::conflict::{keys_of, prefix_free};
use crate::entries::Entry;
use crate::text::starts_with;
use vstd::prelude::*;
use vstd::string::*;

verus! {

/// What a key is, as far as the launcher tells keys apart.
#[derive(Clone, Copy, Debug, PartialEq, Eq, Structural)]
pub enum KeyCode {
    /// A key that types a character.
    Char(char),
    Backspace,
    Esc,
    /// Any other key, and any event that is no key.
    Other,
}

/// One key, with whether Control was held.
#[derive(Clone, Copy, Debug, PartialEq, Eq, Structural)]
pub struct KeyEvent {
    pub code: KeyCode,
    pub control: bool,
}

/// The user gave up.
#[derive(Clone, Copy, Debug, PartialEq, Eq, Structural)]
pub struct Cancelled;

/// Where the navigation stands.
#[derive(Clone, Copy, Debug, PartialEq, Eq, Structural)]
pub enum NavState {
    /// Nothing typed yet.
    Idle,
    /// Something typed that is no key of an entry yet.
    Narrowing,
    /// What was typed is the key of the entry at this position.
    Resolved(usize),
    /// The user gave up.
    Cancelled,
}

/// Whether `event` gives up: Escape, or `c` with Control.
pub open spec fn cancels(event: KeyEvent) -> bool {
    event.code == KeyCode::Esc || (event.code == KeyCode::Char('c') && event.control)
}

/// Whether some key begins with `buffer`.
pub open spec fn reaches(keys: Seq<Seq<char>>, buffer: Seq<char>) -> bool {
    exists|i: int| 0 <= i < keys.len() && buffer.is_prefix_of(#[trigger] keys[i])
}

/// The buffer after `event`. A character typed without Control is taken where
/// some key begins with the longer buffer, and dropped otherwise; Backspace
/// takes the last character away; no other key changes the buffer.
pub open spec fn next_buffer(buffer: Seq<char>, keys: Seq<Seq<char>>, event: KeyEvent) -> Seq<
    char,
> {
    if cancels(event) {
        buffer
    } else {
        match event.code {
            KeyCode::Backspace => if buffer.len() == 0 {
                buffer
            } else {
                buffer.drop_last()
            },
            KeyCode::Char(c) => if !event.control && reaches(keys, buffer.push(c)) {
                buffer.push(c)
            } else {
                buffer
            },
            _ => buffer,
        }
    }
}

/// The first position in `keys` that holds `buffer`, or the length of `keys`
/// where none does.
pub open spec fn first_match(keys: Seq<Seq<char>>, buffer: Seq<char>) -> int
    decreases keys.len(),
{
    if keys.len() == 0 {
        0
    } else if keys[0] == buffer {
        0
    } else {
        1 + first_match(keys.drop_first(), buffer)
    }
}

/// Where the navigation stands with `buffer` typed.
pub open spec fn classify(buffer: Seq<char>, keys: Seq<Seq<char>>) -> NavState {
    let at = first_match(keys, buffer);
    if 0 <= at < keys.len() {
        NavState::Resolved(at as usize)
    } else if buffer.len() == 0 {
        NavState::Idle
    } else {
        NavState::Narrowing
    }
}

/// The buffer and the state after one key.
pub open spec fn step(buffer: Seq<char>, keys: Seq<Seq<char>>, event: KeyEvent) -> (
    Seq<char>,
    NavState,
) {
    if cancels(event) {
        (buffer, NavState::Cancelled)
    } else {
        let next = next_buffer(buffer, keys, event);
        (next, classify(next, keys))
    }
}

/// The buffer and the state after the keys `events`, one after the other. A
/// resolved buffer takes no further key, and nothing follows giving up.
pub open spec fn run(buffer: Seq<char>, keys: Seq<Seq<char>>, events: Seq<KeyEvent>) -> (
    Seq<char>,
    NavState,
)
    decreases events.len(),
{
    let now = classify(buffer, keys);
    if now is Resolved || events.len() == 0 {
        (buffer, now)
    } else {
        let after = step(buffer, keys, events[0]);
        if after.1 is Cancelled {
            after
        } else {
            run(after.0, keys, events.drop_first())
        }
    }
}

/// What `first_match` names is the first position that holds `buffer`.
pub proof fn lemma_first_match(keys: Seq<Seq<char>>, buffer: Seq<char>)
    ensures
        0 <= first_match(keys, buffer) <= keys.len(),
        forall|i: int| 0 <= i < first_match(keys, buffer) ==> #[trigger] keys[i] != buffer,
        first_match(keys, buffer) < keys.len() ==> keys[first_match(keys, buffer)] == buffer,
    decreases keys.len(),
{
    if keys.len() > 0 && keys[0] != buffer {
        let rest = keys.drop_first();
        lemma_first_match(rest, buffer);
        assert forall|i: int| 0 <= i < first_match(keys, buffer) implies #[trigger] keys[i]
            != buffer by {
            if i > 0 {
                assert(keys[i] == rest[i - 1]);
            }
        }
        if first_match(keys, buffer) < keys.len() {
            assert(keys[first_match(keys, buffer)] == rest[first_match(rest, buffer)]);
        }
    }
}

/// A position that holds `buffer`, with none before it that does, is the one
/// that `first_match` names.
pub proof fn lemma_first_match_is(keys: Seq<Seq<char>>, buffer: Seq<char>, k: int)
    requires
        0 <= k <= keys.len(),
        forall|i: int| 0 <= i < k ==> #[trigger] keys[i] != buffer,
        k < keys.len() ==> keys[k] == buffer,
    ensures
        first_match(keys, buffer) == k,
{
    lemma_first_match(keys, buffer);
    let f = first_match(keys, buffer);
    if f < k {
        assert(keys[f] != buffer);
    } else if k < f {
        assert(keys[k] != buffer);
    }
}

/// `buffer` with `c` after it, where the key of some entry begins with that.
pub fn continuation(entries: &Vec<Entry>, buffer: &str, c: char) -> (longer: Option<String>)
    ensures
        match longer {
            Some(text) => text@ == buffer@.push(c) && reaches(
                keys_of(entries.deep_view()),
                buffer@.push(c),
            ),
            None => !reaches(keys_of(entries.deep_view()), buffer@.push(c)),
        },
{
    let ghost keys = keys_of(entries.deep_view());
    let ghost want = buffer@.push(c);
    let n = buffer.unicode_len();
    let mut i: usize = 0;
    while i < entries.len()
        invariant
            i <= entries.len(),
            n == buffer@.len(),
            want == buffer@.push(c),
            keys == keys_of(entries.deep_view()),
            forall|j: int| 0 <= j < i ==> !want.is_prefix_of(#[trigger] keys[j]),
        decreases entries.len() - i,
    {
        let key = entries[i].key.as_str();
        proof {
            assert(keys[i as int] == key@);
        }
        if starts_with(key, buffer) && key.unicode_len() > n && key.get_char(n) == c {
            let longer = String::from_str(key.substring_char(0, n + 1));
            proof {
                assert(longer@ =~= want);
                assert(want.is_prefix_of(keys[i as int]));
            }
            return Some(longer);
        }
        proof {
            if want.is_prefix_of(key@) {
                assert(want[n as int] == key@[n as int]);
                assert forall|k: int| 0 <= k < buffer@.len() implies buffer@[k] == key@[k] by {
                    assert(want[k] == key@[k]);
                }
            }
        }
        i += 1;
    }
    None
}

/// The position of the entry whose key is `buffer`: the first one, where
/// several entries have that key.
pub fn exact_match(entries: &Vec<Entry>, buffer: &String) -> (found: Option<usize>)
    ensures
        match found {
            Some(at) => at == first_match(keys_of(entries.deep_view()), buffer@) && at
                < entries.len() && entries[at as int].key@ == buffer@,
            None => first_match(keys_of(entries.deep_view()), buffer@) == entries.len()
                && forall|i: int| 0 <= i < entries.len() ==> (#[trigger] entries[i]).key@ != buffer@,
        },
{
    let ghost keys = keys_of(entries.deep_view());
    let mut i: usize = 0;
    while i < entries.len()
        invariant
            i <= entries.len(),
            keys == keys_of(entries.deep_view()),
            forall|j: int| 0 <= j < i ==> #[trigger] keys[j] != buffer@,
            forall|j: int| 0 <= j < i ==> (#[trigger] entries[j]).key@ != buffer@,
        decreases entries.len() - i,
    {
        proof {
            assert(keys[i as int] == entries[i as int].key@);
        }
        if entries[i].key == *buffer {
            proof {
                lemma_first_match_is(keys, buffer@, i as int);
            }
            return Some(i);
        }
        i += 1;
    }
    proof {
        lemma_first_match_is(keys, buffer@, entries.len() as int);
    }
    None
}

/// Takes one key: changes the buffer as the key asks, and reports whether the
/// user gave up.
pub fn input_ui(prompt: &mut String, entries: &Vec<Entry>, event: KeyEvent) -> (res: Result<
    (),
    Cancelled,
>)
    ensures
        final(prompt)@ == next_buffer(old(prompt)@, keys_of(entries.deep_view()), event),
        res is Err <==> cancels(event),
{
    match event.code {
        KeyCode::Esc => Err(Cancelled),
        KeyCode::Backspace => {
            let n = prompt.as_str().unicode_len();
            if n > 0 {
                let shorter = String::from_str(prompt.as_str().substring_char(0, n - 1));
                *prompt = shorter;
            }
            Ok(())
        },
        KeyCode::Char(c) => {
            if event.control {
                if c == 'c' {
                    Err(Cancelled)
                } else {
                    Ok(())
                }
            } else {
                match continuation(entries, prompt.as_str(), c) {
                    Some(longer) => {
                        *prompt = longer;
                    },
                    None => {},
                }
                Ok(())
            }
        },
        KeyCode::Other => Ok(()),
    }
}

/// Where the navigation stands with `prompt` typed.
pub fn nav_state(prompt: &String, entries: &Vec<Entry>) -> (state: NavState)
    ensures
        state == classify(prompt@, keys_of(entries.deep_view())),
{
    match exact_match(entries, prompt) {
        Some(at) => NavState::Resolved(at),
        None => if prompt.as_str().is_empty() {
            NavState::Idle
        } else {
            NavState::Narrowing
        },
    }
}

/// Takes one key and reports where the navigation stands after it.
pub fn navigate(prompt: &mut String, entries: &Vec<Entry>, event: KeyEvent) -> (state: NavState)
    ensures
        (final(prompt)@, state) == step(old(prompt)@, keys_of(entries.deep_view()), event),
{
    match input_ui(prompt, entries, event) {
        Err(_) => NavState::Cancelled,
        Ok(()) => nav_state(prompt, entries),
    }
}

/// Takes the keys `events` one after the other, from the buffer `prompt` on,
/// until the buffer is resolved, the user gives up, or the keys run out.
pub fn replay(prompt: &mut String, entries: &Vec<Entry>, events: &Vec<KeyEvent>) -> (state:
    NavState)
    ensures
        (final(prompt)@, state) == run(old(prompt)@, keys_of(entries.deep_view()), events@),
{
    let ghost keys = keys_of(entries.deep_view());
    let mut state = nav_state(prompt, entries);
    let mut i: usize = 0;
    proof {
        assert(events@.skip(0) =~= events@);
    }
    while i < events.len() && !matches!(state, NavState::Resolved(_))
        invariant
            i <= events.len(),
            keys == keys_of(entries.deep_view()),
            state == classify(prompt@, keys),
            run(old(prompt)@, keys, events@) == run(prompt@, keys, events@.skip(i as int)),
        decreases events.len() - i,
    {
        let ghost rest = events@.skip(i as int);
        proof {
            assert(rest[0] == events@[i as int]);
            assert(rest.drop_first() =~= events@.skip(i + 1));
        }
        state = navigate(prompt, entries, events[i]);
        if matches!(state, NavState::Cancelled) {
            return state;
        }
        i += 1;
    }
    proof {
        if i == events.len() {
            assert(events@.skip(i as int).len() == 0);
        }
    }
    state
}

/// Where no key is the beginning of another, at most one entry has a given key.
pub proof fn lemma_unique_match(keys: Seq<Seq<char>>, buffer: Seq<char>, i: int, j: int)
    requires
        prefix_free(keys),
        0 <= i < keys.len(),
        0 <= j < keys.len(),
        keys[i] == buffer,
        keys[j] == buffer,
    ensures
        i == j,
{
    if i < j {
        assert(keys[i].is_prefix_of(keys[j]));
    } else if j < i {
        assert(keys[j].is_prefix_of(keys[i]));
    }
}

/// A resolved buffer is the key of the entry that it is resolved to, and a
/// buffer that is the key of an entry is resolved.
pub proof fn lemma_resolved_is_exact(buffer: Seq<char>, keys: Seq<Seq<char>>)
    ensures
        keys.len() <= usize::MAX ==> (classify(buffer, keys) matches NavState::Resolved(at) ==> at
            < keys.len() && keys[at as int] == buffer),
        classify(buffer, keys) is Resolved <==> keys.contains(buffer),
        !(classify(buffer, keys) is Cancelled),
{
    lemma_first_match(keys, buffer);
    if keys.contains(buffer) {
        let i = choose|i: int| 0 <= i < keys.len() && keys[i] == buffer;
        if first_match(keys, buffer) >= keys.len() {
            assert(keys[i] != buffer);
        }
    }
}

/// Backspace is always taken: it drops the last character of the buffer,
/// whatever the entries are, and leaves an empty buffer empty.
pub proof fn lemma_backspace_always_succeeds(
    buffer: Seq<char>,
    keys: Seq<Seq<char>>,
    control: bool,
)
    ensures
        next_buffer(buffer, keys, KeyEvent { code: KeyCode::Backspace, control }) == if buffer.len()
            == 0 {
            buffer
        } else {
            buffer.drop_last()
        },
{
}

/// A character that leads to no entry is not taken: the buffer stays as it is.
pub proof fn lemma_dead_end_is_ignored(buffer: Seq<char>, keys: Seq<Seq<char>>, event: KeyEvent)
    requires
        event.code matches KeyCode::Char(c) && !reaches(keys, buffer.push(c)),
    ensures
        next_buffer(buffer, keys, event) == buffer,
{
}

/// A character typed without Control that leads to some entry is taken.
pub proof fn lemma_live_character_is_taken(buffer: Seq<char>, keys: Seq<Seq<char>>, c: char)
    requires
        reaches(keys, buffer.push(c)),
    ensures
        next_buffer(buffer, keys, KeyEvent { code: KeyCode::Char(c), control: false })
            == buffer.push(c),
{
}

/// No key leads into a dead end: a buffer that some key of an entry begins
/// with is still one after any key.
pub proof fn lemma_never_a_dead_end(buffer: Seq<char>, keys: Seq<Seq<char>>, event: KeyEvent)
    requires
        reaches(keys, buffer),
    ensures
        reaches(keys, next_buffer(buffer, keys, event)),
{
    let i = choose|i: int| 0 <= i < keys.len() && buffer.is_prefix_of(#[trigger] keys[i]);
    if buffer.len() > 0 {
        assert(buffer.drop_last().is_prefix_of(keys[i]));
    }
}

/// Escape gives up in every state, and so does `c` with Control: the buffer
/// stays as it is and the state is `Cancelled`.
pub proof fn lemma_escape_cancels(buffer: Seq<char>, keys: Seq<Seq<char>>, control: bool)
    ensures
        step(buffer, keys, KeyEvent { code: KeyCode::Esc, control }) == (
            buffer,
            NavState::Cancelled,
        ),
        step(buffer, keys, KeyEvent { code: KeyCode::Char('c'), control: true }) == (
            buffer,
            NavState::Cancelled,
        ),
{
}

/// Only giving up cancels: after any other key the state is not `Cancelled`.
pub proof fn lemma_only_cancel_cancels(buffer: Seq<char>, keys: Seq<Seq<char>>, event: KeyEvent)
    ensures
        step(buffer, keys, event).1 is Cancelled <==> cancels(event),
{
    lemma_resolved_is_exact(next_buffer(buffer, keys, event), keys);
}

/// Where the first of some keys gives up, the keys end in `Cancelled` with the
/// buffer as it was, unless the buffer was resolved before any key was taken.
/// Giving up never ends in a resolved entry.
pub proof fn lemma_run_stops_on_cancel(
    buffer: Seq<char>,
    keys: Seq<Seq<char>>,
    events: Seq<KeyEvent>,
)
    requires
        events.len() > 0,
        cancels(events[0]),
        !(classify(buffer, keys) is Resolved),
    ensures
        run(buffer, keys, events) == (buffer, NavState::Cancelled),
{
}

} // verus!
