use qop::entries::{Entry, Lengths};
use qop::flatten::get_entries;
use qop::theme::{RGBColor, UiStyle};
use qop::tree::{BaseEntry, ConfigFile, RawEntry};
use qop::ui::{blank, relevance, render_entry, render_ui, Row, Span, SpanStyle};

fn s(text: &str) -> String {
    text.to_string()
}

fn sample() -> (Vec<Entry>, Lengths) {
    let global = BaseEntry {
        executable: Some(s("sh")),
        path: Some(s("/home")),
        args: None,
        env: None,
        background: None,
        foreground: None,
        highlight_accent: None,
        highlight: None,
        accent: None,
        faded: None,
    };
    let mut tools = RawEntry::new(s("a"), None, None, Some(vec![s("-c")]), None);
    tools.add_child(
        s("edit"),
        RawEntry::new(s("b"), Some(s("editor")), Some(s("+notes")), None, Some(vec![s("A=1")])),
    );
    tools.add_child(s("list"), RawEntry::new(s("c"), None, None, Some(vec![s("ls")]), None));
    let mut config = ConfigFile::new(global);
    config.add_entry(s("tools"), tools);
    config.add_entry(s("web"), RawEntry::new(s("ba"), Some(s("browser")), None, None, None));
    get_entries(config).unwrap()
}

fn raw(text: &str) -> Span {
    Span { text: s(text), style: SpanStyle { fg: None, bold: false } }
}

fn styled(text: &str, fg: RGBColor, bold: bool) -> Span {
    Span { text: s(text), style: SpanStyle { fg: Some(fg), bold } }
}

fn texts(row: &Row) -> Vec<String> {
    row.spans.iter().map(|span| span.text.clone()).collect()
}

#[test]
fn row_of_a_relevant_entry() {
    let (entries, lengths) = sample();
    assert_eq!(lengths, Lengths { key: 2, name: 12, args: 5, path: 11, executable: 7, env: 1 });
    let style = UiStyle::default();
    let row = render_entry(&s("a"), &entries[0], &lengths, &style);
    assert_eq!(
        row,
        Row {
            spans: vec![
                styled("a", style.highlight_accent, true),
                styled("b", style.foreground, false),
                raw("  "),
                styled("tools", style.highlight_accent, true),
                styled(" > ", style.faded, false),
                styled("edit", style.foreground, true),
                styled("", style.faded, false),
                raw("  "),
                styled("editor", style.accent, true),
                raw(" "),
                styled("-c", style.foreground, false),
                raw(" "),
                styled("/home/notes", style.foreground, false),
                raw("    "),
                raw(" "),
                styled("A", style.faded, false),
            ],
            background: style.highlight,
        }
    );
}

#[test]
fn row_of_an_entry_that_is_out_of_reach() {
    let (entries, lengths) = sample();
    let style = UiStyle::default();
    let row = render_entry(&s("a"), &entries[2], &lengths, &style);
    assert_eq!(
        row,
        Row {
            spans: vec![
                styled("", style.highlight_accent, true),
                styled("ba", style.foreground, false),
                raw("  "),
                styled("web", style.foreground, true),
                styled("", style.faded, false),
                raw("           "),
                styled("browser", style.accent, true),
                raw(" "),
                styled("", style.foreground, false),
                raw(" "),
                styled("/home", style.foreground, false),
                raw("           "),
                raw(" "),
                styled("", style.faded, false),
            ],
            background: style.background,
        }
    );
}

#[test]
fn empty_buffer_lights_nothing() {
    let (entries, lengths) = sample();
    let style = UiStyle::default();
    let rows = render_ui(&s(""), &entries, &lengths, &style);
    assert_eq!(rows.len(), 3);
    for (row, entry) in rows.iter().zip(entries.iter()) {
        assert_eq!(row.background, style.background);
        assert_eq!(row.spans[0].text, "");
        assert_eq!(row.spans[1].text, entry.key);
        for span in row.spans.iter().filter(|span| !span.text.is_empty()) {
            assert_ne!(span.style.fg, Some(style.highlight_accent));
        }
    }
}

#[test]
fn buffer_that_matches_nothing_lights_nothing() {
    let (entries, lengths) = sample();
    let style = UiStyle::default();
    let rows = render_ui(&s("zz"), &entries, &lengths, &style);
    assert_eq!(rows.len(), 3);
    for (row, entry) in rows.iter().zip(entries.iter()) {
        assert_eq!(row.background, style.background);
        assert_eq!(row.spans[0].text, "");
        assert_eq!(row.spans[1].text, entry.key);
        assert_eq!(row.spans[3].style.fg, Some(style.foreground));
    }
}

#[test]
fn every_breadcrumb_on_the_typed_path_is_lit() {
    let (entries, lengths) = sample();
    let style = UiStyle::default();
    let row = render_entry(&s("ab"), &entries[0], &lengths, &style);
    assert_eq!(row.spans[3], styled("tools", style.highlight_accent, true));
    assert_eq!(row.spans[5], styled("edit", style.highlight_accent, true));
    let other = render_entry(&s("ab"), &entries[1], &lengths, &style);
    assert_eq!(other.spans[3], styled("tools", style.foreground, true));
    assert_eq!(other.background, style.background);
}

#[test]
fn columns_end_at_the_same_place() {
    let (entries, lengths) = sample();
    let style = UiStyle::default();
    let rows = render_ui(&s(""), &entries, &lengths, &style);
    for (row, entry) in rows.iter().zip(entries.iter()) {
        let t = texts(row);
        assert_eq!(t[0].len() + t[1].len() + t[2].len(), lengths.key + 2);
        let crumbs = entry.breadcrumbs.len() * 2;
        assert_eq!(entry.name.len() + t[3 + crumbs].len(), lengths.name + 2);
        let tail: usize = t[3 + crumbs + 1..3 + crumbs + 7].iter().map(|x| x.len()).sum();
        assert_eq!(tail, lengths.executable + lengths.args + lengths.path + 2);
    }
}

#[test]
fn rendering_twice_gives_the_same_rows() {
    let (entries, lengths) = sample();
    let style = UiStyle::default();
    for buffer in ["", "a", "ab", "b", "zz"] {
        let first = render_ui(&s(buffer), &entries, &lengths, &style);
        let second = render_ui(&s(buffer), &entries, &lengths, &style);
        assert_eq!(first, second);
    }
}

#[test]
fn rendering_is_total_over_lengths_that_are_too_small() {
    let (entries, _) = sample();
    let style = UiStyle::default();
    let rows = render_ui(&s("a"), &entries, &Lengths::default(), &style);
    assert_eq!(rows.len(), 3);
    assert_eq!(rows[0].spans[2].text, "  ");
    assert_eq!(rows[0].spans[13].text, "");
}

#[test]
fn rows_keep_the_order_of_the_entries() {
    let (entries, lengths) = sample();
    let style = UiStyle::default();
    for buffer in ["", "a", "ba"] {
        let rows = render_ui(&s(buffer), &entries, &lengths, &style);
        let keys: Vec<String> =
            rows.iter().map(|row| format!("{}{}", row.spans[0].text, row.spans[1].text)).collect();
        assert_eq!(keys, vec![s("ab"), s("ac"), s("ba")]);
    }
}

#[test]
fn relevance_marks_every_entry() {
    let (entries, _) = sample();
    assert_eq!(relevance(&entries, ""), vec![true, true, true]);
    assert_eq!(relevance(&entries, "a"), vec![true, true, false]);
    assert_eq!(relevance(&entries, "b"), vec![false, false, true]);
    assert_eq!(relevance(&entries, "ab"), vec![true, false, false]);
    assert_eq!(relevance(&entries, "x"), vec![false, false, false]);
}

#[test]
fn blank_is_made_of_spaces() {
    assert_eq!(blank(0), "");
    assert_eq!(blank(1), " ");
    assert_eq!(blank(5), "     ");
}
