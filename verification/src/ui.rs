//! What the list of entries looks like for a given buffer: one row of styled
//! spans for each entry. Drawing the rows is left to the caller.

use crate::entries::{Entry, EntrySpec, Lengths};
use crate::text::{length, starts_with, text_len};
pub use crate::navigation::input_ui;
pub use crate::theme::{RGBColor, UiStyle};
use vstd::prelude::*;
use vstd::string::*;

verus! {

/// How a span is drawn: its colour, if it has one of its own, and its weight.
#[derive(Clone, Copy, Debug, PartialEq, Eq, Structural)]
pub struct SpanStyle {
    pub fg: Option<RGBColor>,
    pub bold: bool,
}

/// A run of text drawn in one style.
#[derive(Debug, PartialEq, Eq)]
pub struct Span {
    pub text: String,
    pub style: SpanStyle,
}

/// A span as a mathematical value.
pub struct SpanSpec {
    pub text: Seq<char>,
    pub style: SpanStyle,
}

impl View for Span {
    type V = SpanSpec;

    open spec fn view(&self) -> SpanSpec {
        SpanSpec { text: self.text@, style: self.style }
    }
}

impl DeepView for Span {
    type V = SpanSpec;

    open spec fn deep_view(&self) -> SpanSpec {
        self@
    }
}

/// One line of the list: the spans of an entry on a background.
#[derive(Debug, PartialEq, Eq)]
pub struct Row {
    pub spans: Vec<Span>,
    pub background: RGBColor,
}

/// A row as a mathematical value.
pub struct RowSpec {
    pub spans: Seq<SpanSpec>,
    pub background: RGBColor,
}

impl View for Row {
    type V = RowSpec;

    open spec fn view(&self) -> RowSpec {
        RowSpec { spans: self.spans.deep_view(), background: self.background }
    }
}

impl DeepView for Row {
    type V = RowSpec;

    open spec fn deep_view(&self) -> RowSpec {
        self@
    }
}

/// `n` spaces.
pub open spec fn spaces(n: usize) -> Seq<char> {
    Seq::new(n as nat, |i: int| ' ')
}

/// A span without a style of its own.
pub open spec fn raw(text: Seq<char>) -> SpanSpec {
    SpanSpec { text, style: SpanStyle { fg: None, bold: false } }
}

/// A span in the colour `fg`.
pub open spec fn styled(text: Seq<char>, fg: RGBColor, bold: bool) -> SpanSpec {
    SpanSpec { text, style: SpanStyle { fg: Some(fg), bold } }
}

/// The spaces after a column that is `len` wide where its widest is `widest`:
/// what the column lacks, and two more.
pub open spec fn pad(widest: usize, len: usize) -> usize {
    widest.saturating_sub(len).saturating_add(2)
}

/// The spaces after executable, arguments and path of `e`: what the three
/// together lack of the widest of each.
pub open spec fn tail_pad(lengths: Lengths, e: EntrySpec) -> usize {
    lengths.executable.saturating_add(lengths.args).saturating_add(lengths.path).saturating_add(
        1,
    ).saturating_sub(
        text_len(e.executable).saturating_add(text_len(e.argstr)).saturating_add(
            text_len(e.path),
        ).saturating_add(1),
    )
}

/// Whether the entry `e` can still be reached with `buffer` typed.
pub open spec fn relevant(buffer: Seq<char>, e: EntrySpec) -> bool {
    buffer.is_prefix_of(e.key)
}

/// The key of `e`: what was typed of it, what remains, and the spaces after it.
pub open spec fn key_spans(buffer: Seq<char>, e: EntrySpec, lengths: Lengths, style: UiStyle) -> Seq<
    SpanSpec,
> {
    let typed = if relevant(buffer, e) {
        e.key.take(buffer.len() as int)
    } else {
        Seq::empty()
    };
    let rest = if relevant(buffer, e) {
        e.key.skip(buffer.len() as int)
    } else {
        e.key
    };
    seq![
        styled(typed, style.highlight_accent, true),
        styled(rest, style.foreground, false),
        raw(spaces(pad(lengths.key, text_len(e.key)))),
    ]
}

/// What stands between two breadcrumbs.
pub open spec fn crumb_separator() -> Seq<char> {
    seq![' ', '>', ' ']
}

/// The breadcrumb of `e` at `at`, and what separates it from the next one. The
/// breadcrumb is lit where `e` can still be reached and the buffer has got as
/// far as the key of the breadcrumb.
pub open spec fn crumb_pair(buffer: Seq<char>, e: EntrySpec, at: int, style: UiStyle) -> Seq<
    SpanSpec,
> {
    let crumb = e.breadcrumbs[at];
    let lit = relevant(buffer, e) && crumb.1.is_prefix_of(buffer);
    seq![
        styled(
            crumb.0,
            if lit {
                style.highlight_accent
            } else {
                style.foreground
            },
            true,
        ),
        styled(
            if at == e.breadcrumbs.len() - 1 {
                Seq::empty()
            } else {
                crumb_separator()
            },
            style.faded,
            false,
        ),
    ]
}

/// The first `n` breadcrumbs of `e`.
pub open spec fn crumb_spans(buffer: Seq<char>, e: EntrySpec, n: nat, style: UiStyle) -> Seq<
    SpanSpec,
>
    decreases n,
{
    if n == 0 {
        Seq::empty()
    } else {
        crumb_spans(buffer, e, (n - 1) as nat, style) + crumb_pair(buffer, e, n - 1, style)
    }
}

/// What follows the breadcrumbs of `e`: executable, arguments, path and the
/// names of the environment variables, set apart by spaces.
pub open spec fn tail_spans(e: EntrySpec, lengths: Lengths, style: UiStyle) -> Seq<SpanSpec> {
    seq![
        raw(spaces(pad(lengths.name, text_len(e.name)))),
        styled(e.executable, style.accent, true),
        raw(spaces(1)),
        styled(e.argstr, style.foreground, false),
        raw(spaces(1)),
        styled(e.path, style.foreground, false),
        raw(spaces(tail_pad(lengths, e))),
        raw(spaces(1)),
        styled(e.envstr, style.faded, false),
    ]
}

/// The row of the entry `e` with `buffer` typed. The row stands out where
/// something is typed and `e` can still be reached.
pub open spec fn render_row(buffer: Seq<char>, e: EntrySpec, lengths: Lengths, style: UiStyle) -> RowSpec {
    RowSpec {
        spans: key_spans(buffer, e, lengths, style) + crumb_spans(
            buffer,
            e,
            e.breadcrumbs.len(),
            style,
        ) + tail_spans(e, lengths, style),
        background: if relevant(buffer, e) && buffer.len() > 0 {
            style.highlight
        } else {
            style.background
        },
    }
}

/// The rows of `entries` with `buffer` typed: one for each entry, in order.
pub open spec fn render(
    buffer: Seq<char>,
    entries: Seq<EntrySpec>,
    lengths: Lengths,
    style: UiStyle,
) -> Seq<RowSpec> {
    entries.map_values(|e: EntrySpec| render_row(buffer, e, lengths, style))
}

/// A string of `n` spaces.
pub fn blank(n: usize) -> (s: String)
    ensures
        s@ == spaces(n),
{
    let mut s = String::new();
    let mut i: usize = 0;
    proof {
        reveal_strlit(" ");
        assert(" "@ =~= seq![' ']);
    }
    while i < n
        invariant
            i <= n,
            s@ == spaces(i),
            " "@ == seq![' '],
        decreases n - i,
    {
        s.append(" ");
        i += 1;
        proof {
            assert(s@ =~= spaces(i));
        }
    }
    s
}

fn raw_span(text: String) -> (span: Span)
    ensures
        span@ == raw(text@),
{
    Span { text, style: SpanStyle { fg: None, bold: false } }
}

fn styled_span(text: String, fg: RGBColor, bold: bool) -> (span: Span)
    ensures
        span@ == styled(text@, fg, bold),
{
    Span { text, style: SpanStyle { fg: Some(fg), bold } }
}

/// Every entry with whether it can still be reached with `buffer` typed. No
/// entry is left out, so that each keeps its place in the list.
pub fn relevance(entries: &Vec<Entry>, buffer: &str) -> (flags: Vec<bool>)
    ensures
        flags.len() == entries.len(),
        forall|i: int| 0 <= i < entries.len() ==> flags[i] == relevant(buffer@, entries[i]@),
{
    let mut flags: Vec<bool> = Vec::new();
    let mut i: usize = 0;
    while i < entries.len()
        invariant
            i <= entries.len(),
            flags.len() == i,
            forall|j: int| 0 <= j < i ==> flags[j] == relevant(buffer@, entries[j]@),
        decreases entries.len() - i,
    {
        flags.push(starts_with(entries[i].key.as_str(), buffer));
        i += 1;
    }
    flags
}

/// The row of `entry` with `prompt` typed.
pub fn render_entry(prompt: &String, entry: &Entry, lengths: &Lengths, style: &UiStyle) -> (row:
    Row)
    ensures
        row@ == render_row(prompt@, entry@, *lengths, *style),
{
    let ghost buffer = prompt@;
    let ghost e = entry@;
    let is_relevant = starts_with(entry.key.as_str(), prompt.as_str());
    let typed_len = prompt.as_str().unicode_len();
    let key_len = entry.key.as_str().unicode_len();
    let (typed, rest) = if is_relevant {
        (
            String::from_str(entry.key.as_str().substring_char(0, typed_len)),
            String::from_str(entry.key.as_str().substring_char(typed_len, key_len)),
        )
    } else {
        (String::new(), entry.key.clone())
    };
    let mut spans: Vec<Span> = Vec::new();
    spans.push(styled_span(typed, style.highlight_accent, true));
    spans.push(styled_span(rest, style.foreground, false));
    spans.push(
        raw_span(blank(lengths.key.saturating_sub(length(&entry.key)).saturating_add(2))),
    );
    proof {
        assert(spans.deep_view() =~= key_spans(buffer, e, *lengths, *style));
    }
    let n = entry.breadcrumbs.len();
    let mut i: usize = 0;
    while i < n
        invariant
            i <= n,
            n == entry.breadcrumbs.len(),
            e == entry@,
            buffer == prompt@,
            is_relevant == relevant(buffer, e),
            spans.deep_view() == key_spans(buffer, e, *lengths, *style) + crumb_spans(
                buffer,
                e,
                i as nat,
                *style,
            ),
        decreases n - i,
    {
        let ghost before = spans.deep_view();
        let crumb = &entry.breadcrumbs[i];
        proof {
            assert(e.breadcrumbs[i as int] == (crumb.0@, crumb.1@));
        }
        let lit = is_relevant && starts_with(prompt.as_str(), crumb.1.as_str());
        let fg = if lit {
            style.highlight_accent
        } else {
            style.foreground
        };
        spans.push(styled_span(crumb.0.clone(), fg, true));
        let separator = if i == n - 1 {
            String::new()
        } else {
            proof {
                reveal_strlit(" > ");
                assert(" > "@ =~= crumb_separator());
            }
            String::from_str(" > ")
        };
        spans.push(styled_span(separator, style.faded, false));
        proof {
            assert(spans.deep_view() =~= before + crumb_pair(buffer, e, i as int, *style));
            assert(before + crumb_pair(buffer, e, i as int, *style) =~= key_spans(
                buffer,
                e,
                *lengths,
                *style,
            ) + crumb_spans(buffer, e, (i + 1) as nat, *style));
        }
        i += 1;
    }
    let ghost before = spans.deep_view();
    let taken = length(&entry.executable).saturating_add(length(&entry.argstr)).saturating_add(
        length(&entry.path),
    ).saturating_add(1);
    let widest = lengths.executable.saturating_add(lengths.args).saturating_add(
        lengths.path,
    ).saturating_add(1);
    spans.push(
        raw_span(blank(lengths.name.saturating_sub(length(&entry.name)).saturating_add(2))),
    );
    spans.push(styled_span(entry.executable.clone(), style.accent, true));
    spans.push(raw_span(blank(1)));
    spans.push(styled_span(entry.argstr.clone(), style.foreground, false));
    spans.push(raw_span(blank(1)));
    spans.push(styled_span(entry.path.clone(), style.foreground, false));
    spans.push(raw_span(blank(widest.saturating_sub(taken))));
    spans.push(raw_span(blank(1)));
    spans.push(styled_span(entry.envstr.clone(), style.faded, false));
    proof {
        assert(spans.deep_view() =~= before + tail_spans(e, *lengths, *style));
    }
    let background = if is_relevant && typed_len > 0 {
        style.highlight
    } else {
        style.background
    };
    Row { spans, background }
}

/// The rows of `entries` with `prompt` typed: one for each entry, in order.
pub fn render_ui(prompt: &String, entries: &Vec<Entry>, lengths: &Lengths, style: &UiStyle) -> (rows:
    Vec<Row>)
    ensures
        rows.deep_view() == render(prompt@, entries.deep_view(), *lengths, *style),
{
    let mut rows: Vec<Row> = Vec::new();
    let mut i: usize = 0;
    while i < entries.len()
        invariant
            i <= entries.len(),
            rows.len() == i,
            forall|j: int|
                0 <= j < i ==> (#[trigger] rows[j])@ == render_row(
                    prompt@,
                    entries[j]@,
                    *lengths,
                    *style,
                ),
        decreases entries.len() - i,
    {
        rows.push(render_entry(prompt, &entries[i], lengths, style));
        i += 1;
    }
    proof {
        assert(rows.deep_view() =~= render(prompt@, entries.deep_view(), *lengths, *style));
    }
    rows
}

/// There is one row for each entry, in the order of the entries, and the row
/// of an entry does not depend on the other entries: every entry keeps its
/// place in the list, whatever is typed.
pub proof fn lemma_one_row_per_entry(
    buffer: Seq<char>,
    entries: Seq<EntrySpec>,
    lengths: Lengths,
    style: UiStyle,
)
    ensures
        render(buffer, entries, lengths, style).len() == entries.len(),
        forall|i: int|
            0 <= i < entries.len() ==> #[trigger] render(buffer, entries, lengths, style)[i]
                == render_row(buffer, entries[i], lengths, style),
{
}

/// Rendering has no state of its own: what two calls return for the same
/// buffer, entries, lengths and style is the same.
pub proof fn lemma_render_is_repeatable(
    first: Vec<Row>,
    second: Vec<Row>,
    buffer: Seq<char>,
    entries: Seq<EntrySpec>,
    lengths: Lengths,
    style: UiStyle,
)
    requires
        first.deep_view() == render(buffer, entries, lengths, style),
        second.deep_view() == render(buffer, entries, lengths, style),
    ensures
        first.deep_view() == second.deep_view(),
{
}

/// With nothing typed, and for an entry that cannot be reached with what is
/// typed, nothing is lit: the row has the plain background, no part of the key
/// is marked as typed, and no breadcrumb is lit.
pub proof fn lemma_nothing_lit(
    buffer: Seq<char>,
    e: EntrySpec,
    lengths: Lengths,
    style: UiStyle,
    at: int,
)
    requires
        buffer.len() == 0 || !relevant(buffer, e),
    ensures
        render_row(buffer, e, lengths, style).background == style.background,
        key_spans(buffer, e, lengths, style)[0].text.len() == 0,
        key_spans(buffer, e, lengths, style)[1].text == e.key,
        !relevant(buffer, e) ==> crumb_pair(buffer, e, at, style)[0].style.fg == Some(
            style.foreground,
        ),
{
    if relevant(buffer, e) {
        assert(e.key.skip(0) =~= e.key);
    }
}

/// For an entry that can be reached, the part of the key that is marked as
/// typed is the buffer, and the two parts of the key make up the key.
pub proof fn lemma_typed_part_is_buffer(
    buffer: Seq<char>,
    e: EntrySpec,
    lengths: Lengths,
    style: UiStyle,
)
    requires
        relevant(buffer, e),
    ensures
        key_spans(buffer, e, lengths, style)[0].text == buffer,
        key_spans(buffer, e, lengths, style)[0].text + key_spans(buffer, e, lengths, style)[1].text
            == e.key,
        buffer.len() > 0 ==> render_row(buffer, e, lengths, style).background == style.highlight,
{
    assert(e.key.take(buffer.len() as int) =~= buffer);
    assert(e.key.take(buffer.len() as int) + e.key.skip(buffer.len() as int) =~= e.key);
}

/// Where a column is no wider than its widest, and the widest leaves room for
/// two more, the spaces after the column are what it lacks and two more: all
/// columns end at the same place.
pub proof fn lemma_pad_aligns(widest: usize, len: usize)
    requires
        len <= widest,
        widest + 2 <= usize::MAX,
    ensures
        pad(widest, len) == widest - len + 2,
        len + pad(widest, len) == widest + 2,
{
}

} // verus!
