use qop::entries::Entry;
use qop::flatten::get_entries;
use qop::navigation::{
    continuation, exact_match, input_ui, nav_state, navigate, replay, Cancelled,
    KeyCode, KeyEvent, NavState,
};
use qop::tree::{BaseEntry, ConfigFile, RawEntry};

fn registry(keys: &[&str]) -> Vec<Entry> {
    let global = BaseEntry {
        executable: Some("sh".to_string()),
        path: None,
        args: None,
        env: None,
        background: None,
        foreground: None,
        highlight_accent: None,
        highlight: None,
        accent: None,
        faded: None,
    };
    let mut config = ConfigFile::new(global);
    for key in keys {
        config.add_entry(
            format!("entry-{key}"),
            RawEntry::new(key.to_string(), None, None, None, None),
        );
    }
    get_entries(config).unwrap().0
}

fn typed(c: char) -> KeyEvent {
    KeyEvent { code: KeyCode::Char(c), control: false }
}

fn key(code: KeyCode) -> KeyEvent {
    KeyEvent { code, control: false }
}

#[test]
fn typing_a_then_b_resolves_ab() {
    let entries = registry(&["ab", "ac", "ba"]);
    let mut buffer = String::new();
    assert_eq!(navigate(&mut buffer, &entries, typed('a')), NavState::Narrowing);
    assert_eq!(buffer, "a");
    assert_eq!(navigate(&mut buffer, &entries, typed('b')), NavState::Resolved(0));
    assert_eq!(buffer, "ab");
    assert_eq!(entries[0].key, "ab");
}

#[test]
fn backspace_then_b_resolves_ab() {
    let entries = registry(&["ab", "ac", "ba"]);
    let mut buffer = String::new();
    let state = replay(
        &mut buffer,
        &entries,
        &vec![typed('a'), typed('c'), key(KeyCode::Backspace), typed('b')],
    );
    assert_eq!(state, NavState::Resolved(1));
    assert_eq!(buffer, "ac");
    let mut buffer = String::from("ac");
    assert!(input_ui(&mut buffer, &entries, key(KeyCode::Backspace)).is_ok());
    assert_eq!(buffer, "a");
    assert_eq!(navigate(&mut buffer, &entries, typed('b')), NavState::Resolved(0));
    assert_eq!(buffer, "ab");
}

#[test]
fn dead_end_after_a_then_backspace_then_b() {
    let entries = registry(&["ab", "ba"]);
    let mut buffer = String::new();
    let state = replay(
        &mut buffer,
        &entries,
        &vec![typed('a'), typed('c'), key(KeyCode::Backspace), typed('a'), typed('b')],
    );
    assert_eq!(state, NavState::Resolved(0));
    assert_eq!(buffer, "ab");
}

#[test]
fn typing_x_from_empty_buffer_changes_nothing() {
    let entries = registry(&["ab", "ac", "ba"]);
    let mut buffer = String::new();
    assert_eq!(navigate(&mut buffer, &entries, typed('x')), NavState::Idle);
    assert_eq!(buffer, "");
}

#[test]
fn dead_end_character_is_dropped() {
    let entries = registry(&["ab", "ac", "ba"]);
    let mut buffer = String::from("a");
    assert_eq!(input_ui(&mut buffer, &entries, typed('x')), Ok(()));
    assert_eq!(buffer, "a");
}

#[test]
fn backspace_on_empty_buffer_is_a_no_op() {
    let entries = registry(&["ab"]);
    let mut buffer = String::new();
    assert_eq!(input_ui(&mut buffer, &entries, key(KeyCode::Backspace)), Ok(()));
    assert_eq!(buffer, "");
}

#[test]
fn backspace_drops_one_character_not_one_byte() {
    let entries = registry(&["éa"]);
    let mut buffer = String::from("é");
    assert_eq!(input_ui(&mut buffer, &entries, typed('a')), Ok(()));
    assert_eq!(buffer, "éa");
    assert_eq!(input_ui(&mut buffer, &entries, key(KeyCode::Backspace)), Ok(()));
    assert_eq!(buffer, "é");
    assert_eq!(input_ui(&mut buffer, &entries, key(KeyCode::Backspace)), Ok(()));
    assert_eq!(buffer, "");
}

#[test]
fn backspace_works_outside_the_entries() {
    let entries = registry(&["ab"]);
    let mut buffer = String::from("zz");
    assert_eq!(input_ui(&mut buffer, &entries, key(KeyCode::Backspace)), Ok(()));
    assert_eq!(buffer, "z");
}

#[test]
fn escape_cancels_from_every_state() {
    let entries = registry(&["ab", "ac"]);
    for start in ["", "a", "ab", "zz"] {
        let mut buffer = String::from(start);
        assert_eq!(input_ui(&mut buffer, &entries, key(KeyCode::Esc)), Err(Cancelled));
        assert_eq!(buffer, start);
        assert_eq!(navigate(&mut buffer, &entries, key(KeyCode::Esc)), NavState::Cancelled);
        assert_eq!(buffer, start);
    }
}

#[test]
fn control_c_cancels() {
    let entries = registry(&["ca"]);
    let mut buffer = String::new();
    let event = KeyEvent { code: KeyCode::Char('c'), control: true };
    assert_eq!(input_ui(&mut buffer, &entries, event), Err(Cancelled));
    assert_eq!(buffer, "");
}

#[test]
fn plain_c_is_typed() {
    let entries = registry(&["ca"]);
    let mut buffer = String::new();
    assert_eq!(input_ui(&mut buffer, &entries, typed('c')), Ok(()));
    assert_eq!(buffer, "c");
}

#[test]
fn other_control_characters_are_ignored() {
    let entries = registry(&["ab"]);
    let mut buffer = String::new();
    let event = KeyEvent { code: KeyCode::Char('a'), control: true };
    assert_eq!(input_ui(&mut buffer, &entries, event), Ok(()));
    assert_eq!(buffer, "");
}

#[test]
fn other_keys_are_ignored() {
    let entries = registry(&["ab"]);
    let mut buffer = String::from("a");
    assert_eq!(input_ui(&mut buffer, &entries, key(KeyCode::Other)), Ok(()));
    assert_eq!(buffer, "a");
    assert_eq!(navigate(&mut buffer, &entries, key(KeyCode::Other)), NavState::Narrowing);
}

#[test]
fn replay_stops_at_cancel() {
    let entries = registry(&["ab", "ac"]);
    let mut buffer = String::new();
    let state = replay(&mut buffer, &entries, &vec![typed('a'), key(KeyCode::Esc), typed('b')]);
    assert_eq!(state, NavState::Cancelled);
    assert_eq!(buffer, "a");
}

#[test]
fn replay_stops_when_resolved() {
    let entries = registry(&["ab", "ac"]);
    let mut buffer = String::new();
    let state = replay(
        &mut buffer,
        &entries,
        &vec![typed('a'), typed('b'), key(KeyCode::Esc), key(KeyCode::Backspace)],
    );
    assert_eq!(state, NavState::Resolved(0));
    assert_eq!(buffer, "ab");
}

#[test]
fn replay_without_keys_gives_the_state() {
    let entries = registry(&["ab"]);
    let mut buffer = String::new();
    assert_eq!(replay(&mut buffer, &entries, &vec![]), NavState::Idle);
    let mut buffer = String::from("a");
    assert_eq!(replay(&mut buffer, &entries, &vec![]), NavState::Narrowing);
    let mut buffer = String::from("ab");
    assert_eq!(replay(&mut buffer, &entries, &vec![key(KeyCode::Esc)]), NavState::Resolved(0));
}

#[test]
fn states_by_buffer() {
    let entries = registry(&["ab", "ac", "ba"]);
    assert_eq!(nav_state(&String::new(), &entries), NavState::Idle);
    assert_eq!(nav_state(&String::from("a"), &entries), NavState::Narrowing);
    assert_eq!(nav_state(&String::from("ac"), &entries), NavState::Resolved(1));
    assert_eq!(nav_state(&String::from("ba"), &entries), NavState::Resolved(2));
    assert_eq!(nav_state(&String::from("zz"), &entries), NavState::Narrowing);
}

#[test]
fn single_entry_with_empty_key_is_resolved_at_once() {
    let entries = registry(&[""]);
    assert_eq!(nav_state(&String::new(), &entries), NavState::Resolved(0));
}

#[test]
fn exact_match_finds_the_entry_with_the_key() {
    let entries = registry(&["ab", "ac", "ba"]);
    assert_eq!(exact_match(&entries, &String::from("ac")), Some(1));
    assert_eq!(exact_match(&entries, &String::from("a")), None);
    assert_eq!(exact_match(&entries, &String::from("abc")), None);
    assert_eq!(exact_match(&Vec::new(), &String::new()), None);
}

#[test]
fn typed_character_is_put_at_the_end() {
    let entries = registry(&["xyz"]);
    let mut buffer = String::from("x");
    assert_eq!(input_ui(&mut buffer, &entries, typed('y')), Ok(()));
    assert_eq!(buffer, "xy");
}

#[test]
fn continuation_is_the_buffer_with_the_character() {
    let entries = registry(&["ab", "ac", "ba", "éü"]);
    assert_eq!(continuation(&entries, "", 'a'), Some("a".to_string()));
    assert_eq!(continuation(&entries, "a", 'c'), Some("ac".to_string()));
    assert_eq!(continuation(&entries, "a", 'a'), None);
    assert_eq!(continuation(&entries, "ab", 'c'), None);
    assert_eq!(continuation(&entries, "", 'x'), None);
    assert_eq!(continuation(&entries, "é", 'ü'), Some("éü".to_string()));
    assert_eq!(continuation(&entries, "zz", 'a'), None);
}
