//! Rendering of Markdown events as IncrementalDOM JavaScript calls.
//!
//! Every event becomes a short piece of JavaScript (`IncrementalDOM.text(..)`,
//! `IncrementalDOM.elementOpen(..)`, `display_math(..)`, ...). A few events
//! read further events: a `latex` code block takes its lines from the text
//! events that follow it and reads its end with them, and an image collects
//! the plain text of everything up to its end as its `alt` text.
//!
//! Rendering has one error result, `None`: a `latex` code block that is not
//! followed by a text event (an empty block) has no math to display, and
//! rendering stops there and reports it instead of panicking.

use vstd::prelude::*;
use vstd::string::*;

use crate::events::{ColumnAlignment, EventView, MdEvent, MdTag, TagView, events_view};
use crate::markdown_handler::MARKER_CHARACTER;
use crate::text::{attribute_encoded, attribute_encoding_concatenates, decimal, encode_attribute, js_escaped, push_decimal, push_js_escaped};

verus! {

/// What the renderer remembers between events.
pub struct DomState {
    /// whether table cells are header cells (`th`) rather than body cells (`td`)
    pub table_head: bool,
    /// the column alignments of the current table
    pub alignments: Seq<ColumnAlignment>,
    /// the column of the next table cell
    pub cell: nat,
    /// footnote labels in the order they were first seen; a label's number
    /// is its position plus one
    pub notes: Seq<Seq<char>>,
}

/// The state before the first event.
pub open spec fn initial_state() -> DomState {
    DomState { table_head: true, alignments: Seq::empty(), cell: 0, notes: Seq::empty() }
}

/// The number of footnote `name`: the one it already has, or the next one.
pub open spec fn note_number(notes: Seq<Seq<char>>, name: Seq<char>) -> nat {
    if notes.contains(name) {
        (notes.index_of(name) + 1) as nat
    } else {
        notes.len() + 1
    }
}

/// The footnote labels after `name` has been seen.
pub open spec fn note_register(notes: Seq<Seq<char>>, name: Seq<char>) -> Seq<Seq<char>> {
    if notes.contains(name) {
        notes
    } else {
        notes.push(name)
    }
}

/// The language of a code block: its info string up to the first space.
pub open spec fn code_language(info: Seq<char>) -> Seq<char>
    decreases info.len(),
{
    if info.len() == 0 || info[0] == ' ' {
        Seq::empty()
    } else {
        seq![info[0]] + code_language(info.drop_first())
    }
}

/// The plain text of the events from `pos` up to the end of the element
/// that encloses them (`nest` counts the elements opened in between):
/// text, code and HTML attribute-encoded, breaks and rules as spaces,
/// footnote references as `[n]`, task markers as `[x]` or `[ ]`. Returns the
/// text, the position after the closing event, and the footnote labels.
pub open spec fn raw_text(events: Seq<EventView>, pos: int, nest: nat, notes: Seq<Seq<char>>) -> (
    Seq<char>,
    int,
    Seq<Seq<char>>,
)
    decreases events.len() - pos,
{
    if pos < 0 || pos >= events.len() {
        (Seq::empty(), pos, notes)
    } else {
        match events[pos] {
            EventView::Start(_) => raw_text(events, pos + 1, nest + 1, notes),
            EventView::End(_) => if nest == 0 {
                (Seq::empty(), pos + 1, notes)
            } else {
                raw_text(events, pos + 1, (nest - 1) as nat, notes)
            },
            EventView::Text(t) => {
                let r = raw_text(events, pos + 1, nest, notes);
                (attribute_encoded(t) + r.0, r.1, r.2)
            },
            EventView::Code(t) => {
                let r = raw_text(events, pos + 1, nest, notes);
                (attribute_encoded(t) + r.0, r.1, r.2)
            },
            EventView::Html(t) => {
                let r = raw_text(events, pos + 1, nest, notes);
                (attribute_encoded(t) + r.0, r.1, r.2)
            },
            EventView::FootnoteReference(name) => {
                let r = raw_text(events, pos + 1, nest, note_register(notes, name));
                (seq!['['] + decimal(note_number(notes, name)) + seq![']'] + r.0, r.1, r.2)
            },
            EventView::TaskListMarker(checked) => {
                let r = raw_text(events, pos + 1, nest, notes);
                let mark = if checked {
                    seq!['[', 'x', ']']
                } else {
                    seq!['[', ' ', ']']
                };
                (mark + r.0, r.1, r.2)
            },
            _ => {
                let r = raw_text(events, pos + 1, nest, notes);
                (seq![' '] + r.0, r.1, r.2)
            },
        }
    }
}

/// The name of a table cell element.
pub open spec fn cell_element(head: bool) -> Seq<char> {
    if head {
        "th"@
    } else {
        "td"@
    }
}

/// The `align` attribute of the table cell in column `cell`.
pub open spec fn cell_alignment(alignments: Seq<ColumnAlignment>, cell: nat) -> Seq<char> {
    if cell < alignments.len() {
        match alignments[cell as int] {
            ColumnAlignment::Left => "left"@,
            ColumnAlignment::Center => "center"@,
            ColumnAlignment::Right => "right"@,
            ColumnAlignment::Unaligned => Seq::empty(),
        }
    } else {
        Seq::empty()
    }
}

/// The output of a start tag that reads no further events, with the state
/// after it. (Code blocks and images read further events; see
/// `start_output`.)
pub open spec fn plain_start(tag: TagView, st: DomState) -> (Seq<char>, DomState) {
    match tag {
        TagView::Paragraph => ("IncrementalDOM.elementOpen('p',null,null);"@, st),
        TagView::BlockQuote => ("IncrementalDOM.elementOpen('blockquote',null,null);"@, st),
        TagView::Emphasis => ("IncrementalDOM.elementOpen('em',null,null);"@, st),
        TagView::FootnoteDefinition(name) => (
            "IncrementalDOM.elementOpen('div',null,null,'class','footnote-definition','id','"@
                + attribute_encoded(name) + ";"@
                + "IncrementalDOM.elementOpen('sup',null,null,'class','footnote-definition-label');"@
                + "IncrementalDOM.text('"@ + decimal(note_number(st.notes, name)) + "');"@
                + "IncrementalDOM.elementClose('sup');"@,
            DomState { notes: note_register(st.notes, name), ..st },
        ),
        TagView::Heading(level) => (
            "IncrementalDOM.elementOpen('h"@ + decimal(level as nat) + "',null,null);"@,
            st,
        ),
        TagView::Item => ("IncrementalDOM.elementOpen('li',null,null);"@, st),
        TagView::List(Some(start)) => if start == 1 {
            ("IncrementalDOM.elementOpen('ol',null,null);"@, st)
        } else {
            (
                "IncrementalDOM.elementOpen('ol',null,null,'start','"@ + decimal(start as nat)
                    + "');"@,
                st,
            )
        },
        TagView::List(None) => ("IncrementalDOM.elementOpen('ul',null,null);"@, st),
        TagView::Strikethrough => ("IncrementalDOM.elementOpen('del',null,null);"@, st),
        TagView::Strong => ("IncrementalDOM.elementOpen('strong',null,null);"@, st),
        TagView::Table(alignments) => (
            "IncrementalDOM.elementOpen('table',null,null);"@,
            DomState { alignments, ..st },
        ),
        TagView::TableHead => (
            "IncrementalDOM.elementOpen('thead',null,null);IncrementalDOM.elementOpen('tr',null,null);"@,
            DomState { table_head: true, cell: 0, ..st },
        ),
        TagView::TableRow => (
            "IncrementalDOM.elementOpen('tr',null,null);"@,
            DomState { cell: 0, ..st },
        ),
        TagView::TableCell => (
            "IncrementalDOM.elementOpen('"@ + cell_element(st.table_head) + "',null,null,'align','"@
                + cell_alignment(st.alignments, st.cell) + "');"@,
            st,
        ),
        // links render as their text only; code blocks and images are
        // handled by `start_output`
        _ => (Seq::empty(), st),
    }
}

/// The text of the run of text events that starts at `pos`, and the
/// position of the first event after the run.
pub open spec fn text_run(events: Seq<EventView>, pos: int) -> (Seq<char>, int)
    decreases events.len() - pos,
{
    if 0 <= pos < events.len() {
        match events[pos] {
            EventView::Text(t) => {
                let r = text_run(events, pos + 1);
                (t + r.0, r.1)
            },
            _ => (Seq::empty(), pos),
        }
    } else {
        (Seq::empty(), pos)
    }
}

/// The output of a start tag whose event stands just before `next`: the
/// text, the position of the next event to render, and the new state. A
/// `latex` code block renders as `display_math(..)` of all its lines: the
/// text events that follow it, joined; the event after them, the block's
/// end, is read with them. `None`, the error result, where a `latex` code
/// block is not followed by a text event.
pub open spec fn start_output(events: Seq<EventView>, next: int, tag: TagView, st: DomState) -> Option<
    (Seq<char>, int, DomState),
> {
    match tag {
        TagView::CodeBlock(info) => if code_language(info) == "latex"@ {
            if 0 <= next < events.len() && events[next] is Text {
                let run = text_run(events, next);
                Some(
                    (
                        "display_math('"@ + js_escaped(run.0) + "');"@,
                        if run.1 < events.len() {
                            run.1 + 1
                        } else {
                            run.1
                        },
                        st,
                    ),
                )
            } else {
                None
            }
        } else {
            Some(
                (
                    "IncrementalDOM.elementOpen('pre',null,null);IncrementalDOM.elementOpen('code',null,null,'class','language-"@
                        + code_language(info) + "');"@,
                    next,
                    st,
                ),
            )
        },
        TagView::Image(_, url, title) => {
            let alt = raw_text(events, next, 0, st.notes);
            Some(
                (
                    "IncrementalDOM.elementOpen('img',null,null,'src','"@ + url + "','alt','"@ + alt.0
                        + "','title','"@ + title + "');"@ + "IncrementalDOM.elementClose('img');"@,
                    alt.1,
                    DomState { notes: alt.2, ..st },
                ),
            )
        },
        _ => {
            let r = plain_start(tag, st);
            Some((r.0, next, r.1))
        },
    }
}

/// The output of an end tag, with the state after it.
pub open spec fn end_output(tag: TagView, st: DomState) -> (Seq<char>, DomState) {
    match tag {
        TagView::Paragraph => ("IncrementalDOM.elementClose('p');"@, st),
        TagView::Heading(level) => (
            "IncrementalDOM.elementClose('h"@ + decimal(level as nat) + "');"@,
            st,
        ),
        TagView::Table(_) => (
            "IncrementalDOM.elementClose('tbody');IncrementalDOM.elementClose('table');"@,
            st,
        ),
        TagView::TableHead => (
            "IncrementalDOM.elementClose('tr');IncrementalDOM.elementClose('thead');IncrementalDOM.elementOpen('tbody',null,null);"@,
            DomState { table_head: false, ..st },
        ),
        TagView::TableRow => ("IncrementalDOM.elementClose('tr');"@, st),
        TagView::TableCell => (
            if st.table_head {
                "IncrementalDOM.elementClose('th');"@
            } else {
                "IncrementalDOM.elementClose('td');"@
            },
            DomState { cell: st.cell + 1, ..st },
        ),
        TagView::BlockQuote => ("IncrementalDOM.elementClose('blockquote');"@, st),
        TagView::CodeBlock(_) => (
            "IncrementalDOM.elementClose('code');IncrementalDOM.elementClose('pre');"@,
            st,
        ),
        TagView::List(Some(_)) => ("IncrementalDOM.elementClose('ol');"@, st),
        TagView::List(None) => ("IncrementalDOM.elementClose('ul');"@, st),
        TagView::Item => ("IncrementalDOM.elementClose('li');"@, st),
        TagView::Emphasis => ("IncrementalDOM.elementClose('em');"@, st),
        TagView::Strong => ("IncrementalDOM.elementClose('strong');"@, st),
        TagView::Strikethrough => ("IncrementalDOM.elementClose('del');"@, st),
        TagView::FootnoteDefinition(_) => ("IncrementalDOM.elementClose('div');"@, st),
        // links and images close with nothing
        _ => (Seq::empty(), st),
    }
}

/// The output of inline code: `inline_math(..)` where the code starts with
/// the math marker, an IncrementalDOM `code` element otherwise.
pub open spec fn code_output(t: Seq<char>) -> Seq<char> {
    let e = js_escaped(t);
    if e.len() > 0 && e[0] == MARKER_CHARACTER {
        "inline_math('"@ + e.drop_first() + "');"@
    } else {
        "IncrementalDOM.elementOpen('code',null,null);"@ + "IncrementalDOM.text('"@ + e + "');"@
            + "IncrementalDOM.elementClose('code');"@
    }
}

/// The output of the event at `pos`, the position of the next event to
/// render, and the new state; `None` where rendering cannot go on.
pub open spec fn event_output(events: Seq<EventView>, pos: int, st: DomState) -> Option<
    (Seq<char>, int, DomState),
> {
    if pos < 0 || pos >= events.len() {
        None
    } else {
        match events[pos] {
            EventView::Start(tag) => start_output(events, pos + 1, tag, st),
            EventView::End(tag) => {
                let r = end_output(tag, st);
                Some((r.0, pos + 1, r.1))
            },
            EventView::Text(t) => Some(
                ("IncrementalDOM.text('"@ + js_escaped(t) + "');"@, pos + 1, st),
            ),
            EventView::Code(t) => Some((code_output(t), pos + 1, st)),
            EventView::Html(t) => Some(("html('"@ + js_escaped(t) + "');"@, pos + 1, st)),
            EventView::SoftBreak => Some(
                ("IncrementalDOM.elementVoid('br',null,null);"@, pos + 1, st),
            ),
            EventView::HardBreak => Some(
                ("IncrementalDOM.elementVoid('br',null,null);"@, pos + 1, st),
            ),
            EventView::Rule => Some(("IncrementalDOM.elementVoid('hr',null,null);"@, pos + 1, st)),
            EventView::FootnoteReference(name) => Some(
                (
                    "IncrementalDOM.elementOpen('sup',null,null,'class','footnote-reference');"@
                        + "IncrementalDOM.elementOpen('a', null,null,'href','#"@
                        + attribute_encoded(name) + "IncrementalDOM.text('"@
                        + decimal(note_number(st.notes, name)) + "');"@
                        + "IncrementalDOM.elementClose('a');IncrementalDOM.elementClose('sup');"@,
                    pos + 1,
                    DomState { notes: note_register(st.notes, name), ..st },
                ),
            ),
            EventView::TaskListMarker(checked) => Some(
                (
                    if checked {
                        "IncrementalDOM.elementVoid('input',null,null,'disabled','','type','checkbox','checked','');"@
                    } else {
                        "IncrementalDOM.elementVoid('input',null,null,'disabled','','type','checkbox');"@
                    },
                    pos + 1,
                    st,
                ),
            ),
        }
    }
}

/// The JavaScript for the events from `pos` on, rendered from state `st`;
/// `None` where rendering cannot go on.
pub open spec fn render_from(events: Seq<EventView>, pos: int, st: DomState) -> Option<Seq<char>>
    decreases events.len() - pos,
{
    if pos < 0 || pos >= events.len() {
        Some(Seq::empty())
    } else {
        match event_output(events, pos, st) {
            Some(r) => if pos < r.1 <= events.len() {
                match render_from(events, r.1, r.2) {
                    Some(rest) => Some(r.0 + rest),
                    None => None,
                }
            } else {
                None
            },
            None => None,
        }
    }
}

/// The IncrementalDOM JavaScript for a whole sequence of events; `None`
/// where a `latex` code block that is rendered is not followed by a text
/// event.
pub open spec fn incremental_dom(events: Seq<EventView>) -> Option<Seq<char>> {
    render_from(events, 0, initial_state())
}

} // verus!

verus! {

/// A copy of a list of column alignments.
fn copy_alignments(a: &Vec<ColumnAlignment>) -> (res: Vec<ColumnAlignment>)
    ensures
        res@ == a@,
{
    let mut res = Vec::new();
    for i in 0..a.len()
        invariant
            res@ == a@.take(i as int),
    {
        res.push(a[i]);
        assert(a@.take(i + 1) =~= a@.take(i as int).push(a@[i as int]));
    }
    assert(a@.take(a.len() as int) =~= a@);
    res
}

/// The language of a code block's info string: the text up to its first
/// space.
fn code_language_of(info: &str) -> (lang: String)
    ensures
        lang@ == code_language(info@),
{
    broadcast use vstd::string::group_string_axioms;
    let ghost all = info@;
    let mut lang = String::new();
    let mut done = false;
    assert(all.skip(0) =~= all);
    assert(lang@ + code_language(all) =~= code_language(all));
    for c in it: info.chars()
        invariant
            it.seq() == all,
            !done ==> lang@ + code_language(all.skip(it.index() as int)) == code_language(all),
            done ==> lang@ == code_language(all),
    {
        let ghost i = it.index() as int;
        if !done {
            assert(all.skip(i).drop_first() =~= all.skip(i + 1));
            assert(all.skip(i)[0] == c);
            if c == ' ' {
                assert(lang@ + Seq::<char>::empty() =~= lang@);
                done = true;
            } else {
                assert(lang@ + (seq![c] + code_language(all.skip(i + 1))) =~= lang@.push(c)
                    + code_language(all.skip(i + 1)));
                lang.push(c);
            }
        }
    }
    proof {
        if !done {
            assert(all.skip(all.len() as int) =~= Seq::<char>::empty());
            assert(lang@ + Seq::<char>::empty() =~= lang@);
        }
    }
    lang
}

/// `o` with `p` put in front of the text it holds.
pub open spec fn prefixed(p: Seq<char>, o: Option<Seq<char>>) -> Option<Seq<char>> {
    match o {
        Some(r) => Some(p + r),
        None => None,
    }
}

/// The output of an inline code event (see `code_output`).
fn code_text(t: &str) -> (res: String)
    ensures
        res@ == code_output(t@),
{
    let mut text = String::new();
    push_js_escaped(&mut text, t);
    let n = text.as_str().unicode_len();
    let mut out = String::new();
    if n > 0 && text.as_str().get_char(0) == MARKER_CHARACTER {
        out.append("inline_math('");
        out.append(text.as_str().substring_char(1, n));
        assert(text@.subrange(1, n as int) =~= text@.drop_first());
        out.append("');");
    } else {
        out.append("IncrementalDOM.elementOpen('code',null,null);");
        out.append("IncrementalDOM.text('");
        out.append(text.as_str());
        out.append("');");
        out.append("IncrementalDOM.elementClose('code');");
    }
    out
}

/// Whether table cells are currently header or body cells.
enum TableState {
    Head,
    Body,
}

/// Walks a sequence of events and writes their IncrementalDOM JavaScript.
pub struct IncrementalDomWriter<'a> {
    events: &'a Vec<MdEvent>,
    pos: usize,
    table_state: TableState,
    table_alignments: Vec<ColumnAlignment>,
    table_cell_index: usize,
    numbers: Vec<String>,
}

impl<'a> IncrementalDomWriter<'a> {
    /// The events being rendered.
    pub closed spec fn input(&self) -> Seq<EventView> {
        events_view(self.events@)
    }

    /// The position of the next event to read.
    pub closed spec fn position(&self) -> int {
        self.pos as int
    }

    /// The footnote labels seen so far.
    pub closed spec fn notes(&self) -> Seq<Seq<char>> {
        self.numbers@.map_values(|s: String| s@)
    }

    /// The renderer's state.
    pub closed spec fn state(&self) -> DomState {
        DomState {
            table_head: self.table_state is Head,
            alignments: self.table_alignments@,
            cell: self.table_cell_index as nat,
            notes: self.notes(),
        }
    }

    /// The position never passes the end, and every counter is bounded by
    /// the number of events read; footnote labels are distinct.
    pub closed spec fn wf(&self) -> bool {
        &&& self.pos <= self.events.len()
        &&& self.table_cell_index <= self.pos
        &&& self.numbers.len() <= self.pos
        &&& self.notes().no_duplicates()
    }

    /// A writer at the first of `events`, in the initial state.
    pub fn new(events: &'a Vec<MdEvent>) -> (w: Self)
        ensures
            w.wf(),
            w.input() == events_view(events@),
            w.position() == 0,
            w.state() == initial_state(),
    {
        let w = IncrementalDomWriter {
            events,
            pos: 0,
            table_state: TableState::Head,
            table_alignments: Vec::new(),
            table_cell_index: 0,
            numbers: Vec::new(),
        };
        assert(w.notes() =~= Seq::<Seq<char>>::empty());
        assert(w.state().alignments =~= initial_state().alignments);
        w
    }

    /// Text escaped for a single-quoted JavaScript string.
    pub fn escape_without_quotes(s: &str) -> (res: String)
        ensures
            res@ == js_escaped(s@),
    {
        let mut res = String::new();
        push_js_escaped(&mut res, s);
        res
    }

    /// The number of footnote `name`, registering it if it is new.
    fn footnote_number(&mut self, name: &String) -> (n: usize)
        requires
            old(self).notes().no_duplicates(),
            old(self).numbers.len() < old(self).pos,
        ensures
            n == note_number(old(self).notes(), name@),
            final(self).notes() == note_register(old(self).notes(), name@),
            final(self).notes().no_duplicates(),
            final(self).numbers.len() <= old(self).numbers.len() + 1,
            final(self).events == old(self).events,
            final(self).pos == old(self).pos,
            final(self).table_state == old(self).table_state,
            final(self).table_alignments == old(self).table_alignments,
            final(self).table_cell_index == old(self).table_cell_index,
    {
        let ghost notes = self.notes();
        let len = self.numbers.len();
        let mut i: usize = 0;
        while i < len
            invariant
                len == self.numbers.len(),
                i <= len,
                notes == self.notes(),
                notes.len() == len,
                notes.no_duplicates(),
                forall|j: int| 0 <= j < i ==> notes[j] != name@,
            decreases len - i,
        {
            if self.numbers[i] == *name {
                assert(notes[i as int] == name@);
                assert(notes.contains(name@));
                let ghost k = notes.index_of(name@);
                assert(notes[k] == name@);
                assert(k == i);
                return i + 1;
            }
            i += 1;
        }
        assert(!notes.contains(name@));
        self.numbers.push(name.clone());
        assert(self.notes() =~= notes.push(name@));
        len + 1
    }

    /// Reads events up to the end of the enclosing element and returns
    /// their plain text (see `raw_text`).
    fn raw_text(&mut self) -> (res: String)
        requires
            old(self).wf(),
        ensures
            final(self).wf(),
            (res@, final(self).position(), final(self).notes()) == raw_text(
                old(self).input(),
                old(self).position(),
                0,
                old(self).notes(),
            ),
            old(self).pos <= final(self).pos,
            final(self).events == old(self).events,
            final(self).table_state == old(self).table_state,
            final(self).table_alignments == old(self).table_alignments,
            final(self).table_cell_index == old(self).table_cell_index,
    {
        let events = self.events;
        let len = events.len();
        let ghost input = self.input();
        let ghost start = self.pos as int;
        let ghost notes0 = self.notes();
        let mut ret = String::new();
        let mut nest: usize = 0;
        loop
            invariant_except_break
                nest <= self.pos - start,
                ({
                    let r = raw_text(input, self.pos as int, nest as nat, self.notes());
                    raw_text(input, start, 0, notes0) == (ret@ + r.0, r.1, r.2)
                }),
            invariant
                self.wf(),
                self.events == events,
                len == events.len(),
                input == self.input(),
                input.len() == len,
                0 <= start <= self.pos,
                old(self).table_state == self.table_state,
                old(self).table_alignments == self.table_alignments,
                old(self).table_cell_index == self.table_cell_index,
            ensures
                self.wf(),
                self.events == events,
                start <= self.pos,
                old(self).table_state == self.table_state,
                old(self).table_alignments == self.table_alignments,
                old(self).table_cell_index == self.table_cell_index,
                raw_text(input, start, 0, notes0) == (ret@, self.pos as int, self.notes()),
            decreases len - self.pos,
        {
            if self.pos >= len {
                assert(ret@ + Seq::<char>::empty() =~= ret@);
                break;
            }
            let p = self.pos;
            let event = &events[p];
            assert(input[p as int] == event@);
            let ghost before = ret@;
            let ghost notes_before = self.notes();
            self.pos = p + 1;
            match event {
                MdEvent::Start(_) => {
                    assert(nest < len);
                    nest = nest + 1;
                },
                MdEvent::End(_) => {
                    if nest == 0 {
                        assert(ret@ + Seq::<char>::empty() =~= ret@);
                        break;
                    }
                    nest = nest - 1;
                },
                MdEvent::Text(t) => {
                    let e = encode_attribute(t.as_str());
                    ret.append(e.as_str());
                },
                MdEvent::Code(t) => {
                    let e = encode_attribute(t.as_str());
                    ret.append(e.as_str());
                },
                MdEvent::Html(t) => {
                    let e = encode_attribute(t.as_str());
                    ret.append(e.as_str());
                },
                MdEvent::FootnoteReference(name) => {
                    let n = self.footnote_number(name);
                    ret.push('[');
                    push_decimal(&mut ret, n as u64);
                    ret.push(']');
                },
                MdEvent::TaskListMarker(checked) => {
                    if *checked {
                        ret.push('[');
                        ret.push('x');
                        ret.push(']');
                    } else {
                        ret.push('[');
                        ret.push(' ');
                        ret.push(']');
                    }
                },
                _ => {
                    ret.push(' ');
                },
            }
            proof {
                let r = raw_text(input, self.pos as int, nest as nat, self.notes());
                let added = ret@.subrange(before.len() as int, ret@.len() as int);
                assert(ret@ =~= before + added);
                assert(before + (added + r.0) =~= ret@ + r.0);
            }
        }
        ret
    }

    /// The state right after one more event was read: the counters are
    /// below the position, so each may grow by one.
    closed spec fn after_event(&self) -> bool {
        &&& 0 < self.pos <= self.events.len()
        &&& self.table_cell_index < self.pos
        &&& self.numbers.len() < self.pos
        &&& self.notes().no_duplicates()
    }

    /// The output of a start tag that reads no further events.
    fn plain_start_tag(&mut self, tag: &MdTag) -> (res: String)
        requires
            old(self).after_event(),
        ensures
            final(self).wf(),
            (res@, final(self).state()) == plain_start(tag@, old(self).state()),
            final(self).events == old(self).events,
            final(self).pos == old(self).pos,
    {
        let mut s = String::new();
        match tag {
            MdTag::Paragraph => {
                s.append("IncrementalDOM.elementOpen('p',null,null);");
            },
            MdTag::BlockQuote => {
                s.append("IncrementalDOM.elementOpen('blockquote',null,null);");
            },
            MdTag::Emphasis => {
                s.append("IncrementalDOM.elementOpen('em',null,null);");
            },
            MdTag::FootnoteDefinition(name) => {
                let encoded_name = encode_attribute(name.as_str());
                let number = self.footnote_number(name);
                s.append("IncrementalDOM.elementOpen('div',null,null,'class','footnote-definition','id','");
                s.append(encoded_name.as_str());
                s.append(";");
                s.append("IncrementalDOM.elementOpen('sup',null,null,'class','footnote-definition-label');");
                s.append("IncrementalDOM.text('");
                push_decimal(&mut s, number as u64);
                s.append("');");
                s.append("IncrementalDOM.elementClose('sup');");
            },
            MdTag::Heading(level) => {
                s.append("IncrementalDOM.elementOpen('h");
                push_decimal(&mut s, *level as u64);
                s.append("',null,null);");
            },
            MdTag::Item => {
                s.append("IncrementalDOM.elementOpen('li',null,null);");
            },
            MdTag::List(Some(start)) => {
                if *start == 1 {
                    s.append("IncrementalDOM.elementOpen('ol',null,null);");
                } else {
                    s.append("IncrementalDOM.elementOpen('ol',null,null,'start','");
                    push_decimal(&mut s, *start);
                    s.append("');");
                }
            },
            MdTag::List(None) => {
                s.append("IncrementalDOM.elementOpen('ul',null,null);");
            },
            MdTag::Strikethrough => {
                s.append("IncrementalDOM.elementOpen('del',null,null);");
            },
            MdTag::Strong => {
                s.append("IncrementalDOM.elementOpen('strong',null,null);");
            },
            MdTag::Table(alignments) => {
                self.table_alignments = copy_alignments(alignments);
                s.append("IncrementalDOM.elementOpen('table',null,null);");
            },
            MdTag::TableHead => {
                self.table_state = TableState::Head;
                self.table_cell_index = 0;
                s.append("IncrementalDOM.elementOpen('thead',null,null);IncrementalDOM.elementOpen('tr',null,null);");
            },
            MdTag::TableRow => {
                self.table_cell_index = 0;
                s.append("IncrementalDOM.elementOpen('tr',null,null);");
            },
            MdTag::TableCell => {
                s.append("IncrementalDOM.elementOpen('");
                match self.table_state {
                    TableState::Head => s.append("th"),
                    TableState::Body => s.append("td"),
                }
                s.append("',null,null,'align','");
                if self.table_cell_index < self.table_alignments.len() {
                    match self.table_alignments[self.table_cell_index] {
                        ColumnAlignment::Left => s.append("left"),
                        ColumnAlignment::Center => s.append("center"),
                        ColumnAlignment::Right => s.append("right"),
                        ColumnAlignment::Unaligned => {},
                    }
                }
                s.append("');");
            },
            _ => {},
        }
        proof {
            let st = old(self).state();
            assert(self.state().alignments =~= plain_start(tag@, st).1.alignments);
            assert(self.state().notes =~= plain_start(tag@, st).1.notes);
        }
        s
    }

    /// Reads the run of text events at the current position and returns
    /// their text, joined (see `text_run`).
    fn text_run(&mut self) -> (res: String)
        requires
            old(self).after_event(),
        ensures
            final(self).after_event(),
            (res@, final(self).position()) == text_run(old(self).input(), old(self).position()),
            old(self).pos <= final(self).pos,
            final(self).events == old(self).events,
            final(self).table_state == old(self).table_state,
            final(self).table_alignments == old(self).table_alignments,
            final(self).table_cell_index == old(self).table_cell_index,
            final(self).numbers == old(self).numbers,
    {
        let events = self.events;
        let len = events.len();
        let ghost input = self.input();
        let ghost start = self.pos as int;
        let mut text = String::new();
        loop
            invariant_except_break
                ({
                    let r = text_run(input, self.pos as int);
                    text_run(input, start) == (text@ + r.0, r.1)
                }),
            invariant
                self.after_event(),
                self.events == events,
                len == events.len(),
                input == self.input(),
                input.len() == len,
                start <= self.pos,
                old(self).table_state == self.table_state,
                old(self).table_alignments == self.table_alignments,
                old(self).table_cell_index == self.table_cell_index,
                old(self).numbers == self.numbers,
            ensures
                text_run(input, start) == (text@, self.pos as int),
            decreases len - self.pos,
        {
            if self.pos >= len {
                assert(text@ + Seq::<char>::empty() =~= text@);
                break;
            }
            let p = self.pos;
            assert(input[p as int] == events[p as int]@);
            match &events[p] {
                MdEvent::Text(t) => {
                    let ghost before = text@;
                    text.append(t.as_str());
                    self.pos = p + 1;
                    proof {
                        let r = text_run(input, self.pos as int);
                        assert(before + (t@ + r.0) =~= text@ + r.0);
                    }
                },
                _ => {
                    assert(text@ + Seq::<char>::empty() =~= text@);
                    break;
                },
            }
        }
        text
    }

    /// The output of a start tag whose event was just read; `None`, the
    /// error result, where a `latex` code block is not followed by a text
    /// event.
    fn start_tag(&mut self, tag: &MdTag) -> (res: Option<String>)
        requires
            old(self).after_event(),
        ensures
            final(self).wf(),
            final(self).events == old(self).events,
            old(self).pos <= final(self).pos,
            match start_output(old(self).input(), old(self).position(), tag@, old(self).state()) {
                Some(r) => res matches Some(s) && s@ == r.0 && final(self).position() == r.1
                    && final(self).state() == r.2,
                None => res is None,
            },
    {
        let events = self.events;
        match tag {
            MdTag::CodeBlock(info) => {
                let lang = code_language_of(info.as_str());
                if lang == "latex".to_owned() {
                    let starts_with_text = self.pos < events.len() && match &events[self.pos] {
                        MdEvent::Text(_) => true,
                        _ => false,
                    };
                    if !starts_with_text {
                        return None;
                    }
                    let math = self.text_run();
                    if self.pos < events.len() {
                        self.pos = self.pos + 1;
                    }
                    let mut s = String::new();
                    s.append("display_math('");
                    push_js_escaped(&mut s, math.as_str());
                    s.append("');");
                    Some(s)
                } else {
                    let mut s = String::new();
                    s.append("IncrementalDOM.elementOpen('pre',null,null);IncrementalDOM.elementOpen('code',null,null,'class','language-");
                    s.append(lang.as_str());
                    s.append("');");
                    Some(s)
                }
            },
            MdTag::Image(_, url, title) => {
                let alt = self.raw_text();
                let mut s = String::new();
                s.append("IncrementalDOM.elementOpen('img',null,null,'src','");
                s.append(url.as_str());
                s.append("','alt','");
                s.append(alt.as_str());
                s.append("','title','");
                s.append(title.as_str());
                s.append("');");
                s.append("IncrementalDOM.elementClose('img');");
                Some(s)
            },
            _ => Some(self.plain_start_tag(tag)),
        }
    }

    /// The output of an end tag.
    fn end_tag(&mut self, tag: &MdTag) -> (res: String)
        requires
            old(self).after_event(),
        ensures
            final(self).wf(),
            final(self).events == old(self).events,
            final(self).pos == old(self).pos,
            (res@, final(self).state()) == end_output(tag@, old(self).state()),
    {
        let mut s = String::new();
        match tag {
            MdTag::Paragraph => s.append("IncrementalDOM.elementClose('p');"),
            MdTag::Heading(level) => {
                s.append("IncrementalDOM.elementClose('h");
                push_decimal(&mut s, *level as u64);
                s.append("');");
            },
            MdTag::Table(_) => s.append("IncrementalDOM.elementClose('tbody');IncrementalDOM.elementClose('table');"),
            MdTag::TableHead => {
                self.table_state = TableState::Body;
                s.append("IncrementalDOM.elementClose('tr');IncrementalDOM.elementClose('thead');IncrementalDOM.elementOpen('tbody',null,null);");
            },
            MdTag::TableRow => s.append("IncrementalDOM.elementClose('tr');"),
            MdTag::TableCell => {
                self.table_cell_index = self.table_cell_index + 1;
                match self.table_state {
                    TableState::Head => s.append("IncrementalDOM.elementClose('th');"),
                    TableState::Body => s.append("IncrementalDOM.elementClose('td');"),
                }
            },
            MdTag::BlockQuote => s.append("IncrementalDOM.elementClose('blockquote');"),
            MdTag::CodeBlock(_) => s.append("IncrementalDOM.elementClose('code');IncrementalDOM.elementClose('pre');"),
            MdTag::List(Some(_)) => s.append("IncrementalDOM.elementClose('ol');"),
            MdTag::List(None) => s.append("IncrementalDOM.elementClose('ul');"),
            MdTag::Item => s.append("IncrementalDOM.elementClose('li');"),
            MdTag::Emphasis => s.append("IncrementalDOM.elementClose('em');"),
            MdTag::Strong => s.append("IncrementalDOM.elementClose('strong');"),
            MdTag::Strikethrough => s.append("IncrementalDOM.elementClose('del');"),
            MdTag::FootnoteDefinition(_) => s.append("IncrementalDOM.elementClose('div');"),
            _ => {},
        }
        proof {
            let st = old(self).state();
            assert(self.state().alignments =~= end_output(tag@, st).1.alignments);
            assert(self.state().notes =~= end_output(tag@, st).1.notes);
        }
        s
    }

    /// Reads the event at the current position and returns its output
    /// (see `event_output`); `None`, the error result, where rendering
    /// cannot go on.
    fn render_event(&mut self) -> (res: Option<String>)
        requires
            old(self).wf(),
            old(self).pos < old(self).events.len(),
        ensures
            final(self).wf(),
            final(self).events == old(self).events,
            old(self).pos < final(self).pos,
            match event_output(old(self).input(), old(self).position(), old(self).state()) {
                Some(r) => res matches Some(s) && s@ == r.0 && final(self).position() == r.1
                    && final(self).state() == r.2,
                None => res is None,
            },
    {
        let events = self.events;
        let p = self.pos;
        let event = &events[p];
        assert(self.input()[p as int] == event@);
        let ghost st = self.state();
        self.pos = p + 1;
        let mut out = String::new();
        match event {
            MdEvent::Start(tag) => {
                return self.start_tag(tag);
            },
            MdEvent::End(tag) => {
                return Some(self.end_tag(tag));
            },
            MdEvent::Text(t) => {
                out.append("IncrementalDOM.text('");
                push_js_escaped(&mut out, t.as_str());
                out.append("');");
            },
            MdEvent::Code(t) => {
                out = code_text(t.as_str());
            },
            MdEvent::Html(t) => {
                out.append("html('");
                push_js_escaped(&mut out, t.as_str());
                out.append("');");
            },
            MdEvent::SoftBreak => {
                out.append("IncrementalDOM.elementVoid('br',null,null);");
            },
            MdEvent::HardBreak => {
                out.append("IncrementalDOM.elementVoid('br',null,null);");
            },
            MdEvent::Rule => {
                out.append("IncrementalDOM.elementVoid('hr',null,null);");
            },
            MdEvent::FootnoteReference(name) => {
                let encoded_name = encode_attribute(name.as_str());
                out.append("IncrementalDOM.elementOpen('sup',null,null,'class','footnote-reference');");
                out.append("IncrementalDOM.elementOpen('a', null,null,'href','#");
                out.append(encoded_name.as_str());
                let number = self.footnote_number(name);
                out.append("IncrementalDOM.text('");
                push_decimal(&mut out, number as u64);
                out.append("');");
                out.append("IncrementalDOM.elementClose('a');IncrementalDOM.elementClose('sup');");
            },
            MdEvent::TaskListMarker(checked) => {
                if *checked {
                    out.append("IncrementalDOM.elementVoid('input',null,null,'disabled','','type','checkbox','checked','');");
                } else {
                    out.append("IncrementalDOM.elementVoid('input',null,null,'disabled','','type','checkbox');");
                }
            },
        }
        proof {
            assert(self.state().alignments =~= st.alignments);
        }
        Some(out)
    }

    /// Renders the events from the current position to the end; `None`,
    /// the error result, where a `latex` code block is not followed by a
    /// text event.
    pub fn run(&mut self) -> (res: Option<String>)
        requires
            old(self).wf(),
        ensures
            match render_from(old(self).input(), old(self).position(), old(self).state()) {
                Some(r) => res matches Some(s) && s@ == r,
                None => res is None,
            },
    {
        let len = self.events.len();
        let ghost input = self.input();
        let ghost p0 = self.pos as int;
        let ghost s0 = self.state();
        let mut out = String::new();
        assert(out@ + Seq::<char>::empty() =~= Seq::<char>::empty());
        while self.pos < len
            invariant
                self.wf(),
                len == self.events.len(),
                input == self.input(),
                input.len() == len,
                input == old(self).input(),
                p0 == old(self).position(),
                s0 == old(self).state(),
                prefixed(out@, render_from(input, self.pos as int, self.state())) == render_from(
                    input,
                    p0,
                    s0,
                ),
            decreases len - self.pos,
        {
            let ghost p = self.pos as int;
            let ghost st = self.state();
            let ghost before = out@;
            match self.render_event() {
                Some(piece) => {
                    out.append(piece.as_str());
                    assert(render_from(input, p, st) == prefixed(
                        piece@,
                        render_from(input, self.pos as int, self.state()),
                    ));
                    proof {
                        let rest = render_from(input, self.pos as int, self.state());
                        if let Some(r) = rest {
                            assert(before + (piece@ + r) =~= out@ + r);
                        }
                    }
                },
                None => {
                    assert(render_from(input, p, st) is None);
                    return None;
                },
            }
        }
        assert(out@ + Seq::<char>::empty() =~= out@);
        Some(out)
    }
}

} // verus!

verus! {

/// The IncrementalDOM JavaScript for `events`; `None`, the error result,
/// exactly where a rendered `latex` code block is not followed by a text
/// event (see `rendering_fails_only_on_latex_blocks`).
pub fn render_incremental_dom(events: &Vec<MdEvent>) -> (res: Option<String>)
    ensures
        match incremental_dom(events_view(events@)) {
            Some(r) => res matches Some(s) && s@ == r,
            None => res is None,
        },
{
    let mut writer = IncrementalDomWriter::new(events);
    writer.run()
}

/// Replaces the contents of `s` with the IncrementalDOM JavaScript for
/// `events`.
pub fn push_incremental_dom(s: &mut String, events: &Vec<MdEvent>)
    requires
        incremental_dom(events_view(events@)) is Some,
    ensures
        final(s)@ == incremental_dom(events_view(events@))->Some_0,
{
    match render_incremental_dom(events) {
        Some(dom) => {
            *s = dom;
        },
        None => {},
    }
}

} // verus!

verus! {

/// Inline code that starts with the math marker (inline `$$...$$` math)
/// renders as `inline_math(..)` of the rest of the code, escaped.
pub proof fn inline_math_renders_as_math(t: Seq<char>)
    requires
        t.len() > 0,
        t[0] == MARKER_CHARACTER,
    ensures
        code_output(t) == "inline_math('"@ + js_escaped(t.drop_first()) + "');"@,
{
    crate::text::lemma_js_escaped_first(t);
    let e = js_escaped(t);
    assert(e =~= seq![MARKER_CHARACTER] + js_escaped(t.drop_first()));
    assert(e.drop_first() =~= js_escaped(t.drop_first()));
}

/// The texts joined in order.
pub open spec fn joined(texts: Seq<Seq<char>>) -> Seq<char>
    decreases texts.len(),
{
    if texts.len() == 0 {
        Seq::empty()
    } else {
        texts[0] + joined(texts.drop_first())
    }
}

/// A `latex` code block with info string `info` whose lines are `texts`.
pub open spec fn latex_block(info: Seq<char>, texts: Seq<Seq<char>>) -> Seq<EventView> {
    seq![EventView::Start(TagView::CodeBlock(info))] + texts.map_values(|t: Seq<char>| EventView::Text(t))
        + seq![EventView::End(TagView::CodeBlock(info))]
}

proof fn lemma_text_run_of_block(info: Seq<char>, texts: Seq<Seq<char>>, i: int)
    requires
        0 <= i <= texts.len(),
    ensures
        text_run(latex_block(info, texts), i + 1) == (joined(texts.skip(i)), texts.len() + 1int),
    decreases texts.len() - i,
{
    let events = latex_block(info, texts);
    if i == texts.len() {
        assert(events[i + 1] == EventView::End(TagView::CodeBlock(info)));
        assert(texts.skip(i) =~= Seq::<Seq<char>>::empty());
    } else {
        assert(events[i + 1] == EventView::Text(texts[i]));
        lemma_text_run_of_block(info, texts, i + 1);
        assert(texts.skip(i).drop_first() =~= texts.skip(i + 1));
        assert(texts.skip(i)[0] == texts[i]);
    }
}

/// A `latex` code block renders as `display_math(..)` of all its lines,
/// joined and escaped, and nothing else.
pub proof fn latex_block_renders_as_display_math(info: Seq<char>, texts: Seq<Seq<char>>)
    requires
        code_language(info) == "latex"@,
        texts.len() > 0,
    ensures
        incremental_dom(latex_block(info, texts)) == Some(
            "display_math('"@ + js_escaped(joined(texts)) + "');"@,
        ),
{
    let events = latex_block(info, texts);
    let n = texts.len() + 2;
    let out = "display_math('"@ + js_escaped(joined(texts)) + "');"@;
    lemma_text_run_of_block(info, texts, 0);
    assert(texts.skip(0) =~= texts);
    assert(events[0] == EventView::Start(TagView::CodeBlock(info)));
    assert(events[1] == EventView::Text(texts[0]));
    assert(event_output(events, 0, initial_state()) == Some((out, n as int, initial_state())));
    assert(render_from(events, n as int, initial_state()) == Some(Seq::<char>::empty()));
    assert(out + Seq::<char>::empty() =~= out);
}

/// Footnote numbers are stable: seeing any label keeps the number of every
/// label seen before, a new label gets the next number, and labels stay
/// distinct.
pub proof fn footnote_numbers_are_stable(notes: Seq<Seq<char>>, seen: Seq<char>, other: Seq<char>)
    requires
        notes.no_duplicates(),
    ensures
        note_register(notes, seen).no_duplicates(),
        note_register(notes, seen).contains(seen),
        notes.contains(other) ==> note_number(note_register(notes, seen), other) == note_number(
            notes,
            other,
        ),
        !notes.contains(seen) ==> note_number(notes, seen) == notes.len() + 1,
        note_number(note_register(notes, seen), seen) == note_number(notes, seen),
{
    let after = note_register(notes, seen);
    if notes.contains(seen) {
        let k = notes.index_of(seen);
        assert(notes[k] == seen);
    } else {
        assert(after[notes.len() as int] == seen);
        assert(after.contains(seen));
        let k = after.index_of(seen);
        assert(after[k] == seen);
        assert(k == notes.len());
        if notes.contains(other) {
            let j = notes.index_of(other);
            assert(notes[j] == other);
            assert(after[j] == other);
            let j2 = after.index_of(other);
            assert(after[j2] == other);
            assert(j2 == j);
        }
    }
}

} // verus!

verus! {

/// Collecting raw text never moves backwards nor past the end.
proof fn lemma_raw_text_advances(events: Seq<EventView>, pos: int, nest: nat, notes: Seq<Seq<char>>)
    requires
        0 <= pos <= events.len(),
    ensures
        pos <= raw_text(events, pos, nest, notes).1 <= events.len(),
    decreases events.len() - pos,
{
    if pos < events.len() {
        match events[pos] {
            EventView::Start(_) => lemma_raw_text_advances(events, pos + 1, nest + 1, notes),
            EventView::End(_) => if nest > 0 {
                lemma_raw_text_advances(events, pos + 1, (nest - 1) as nat, notes);
            },
            EventView::FootnoteReference(name) => lemma_raw_text_advances(
                events,
                pos + 1,
                nest,
                note_register(notes, name),
            ),
            _ => lemma_raw_text_advances(events, pos + 1, nest, notes),
        }
    }
}

/// Whether `e` starts a `latex` code block.
pub open spec fn starts_latex_block(e: EventView) -> bool {
    match e {
        EventView::Start(TagView::CodeBlock(info)) => code_language(info) == "latex"@,
        _ => false,
    }
}

/// Whether `events` starts a `latex` code block anywhere.
pub open spec fn has_latex_block(events: Seq<EventView>) -> bool {
    exists|i: int| 0 <= i < events.len() && #[trigger] starts_latex_block(events[i])
}

proof fn lemma_render_total(events: Seq<EventView>, pos: int, st: DomState)
    requires
        0 <= pos,
        !has_latex_block(events),
    ensures
        render_from(events, pos, st) is Some,
    decreases events.len() - pos,
{
    if pos < events.len() {
        let e = events[pos];
        match e {
            EventView::Start(TagView::Image(_, _, _)) => {
                lemma_raw_text_advances(events, pos + 1, 0, st.notes);
            },
            EventView::Start(TagView::CodeBlock(info)) => {
                assert(!starts_latex_block(events[pos]));
            },
            _ => {},
        }
        let r = event_output(events, pos, st)->Some_0;
        assert(pos < r.1 <= events.len());
        lemma_render_total(events, r.1, r.2);
    }
}

/// Rendering fails only on `latex` code blocks: a sequence of events with
/// no `latex` code block always renders.
pub proof fn rendering_fails_only_on_latex_blocks(events: Seq<EventView>)
    ensures
        incremental_dom(events) is None ==> has_latex_block(events),
{
    if !has_latex_block(events) {
        lemma_render_total(events, 0, initial_state());
    }
}

/// Whether `e` renders by itself: it reads no further event and neither
/// reads nor changes the renderer's state.
pub open spec fn renders_alone(e: EventView) -> bool {
    match e {
        EventView::Text(_) | EventView::Code(_) | EventView::Html(_) | EventView::SoftBreak
        | EventView::HardBreak | EventView::Rule | EventView::TaskListMarker(_) => true,
        _ => false,
    }
}

/// The output of an event that renders by itself.
pub open spec fn lone_output(e: EventView) -> Seq<char> {
    match e {
        EventView::Text(t) => "IncrementalDOM.text('"@ + js_escaped(t) + "');"@,
        EventView::Code(t) => code_output(t),
        EventView::Html(t) => "html('"@ + js_escaped(t) + "');"@,
        EventView::SoftBreak | EventView::HardBreak => "IncrementalDOM.elementVoid('br',null,null);"@,
        EventView::Rule => "IncrementalDOM.elementVoid('hr',null,null);"@,
        EventView::TaskListMarker(checked) => if checked {
            "IncrementalDOM.elementVoid('input',null,null,'disabled','','type','checkbox','checked','');"@
        } else {
            "IncrementalDOM.elementVoid('input',null,null,'disabled','','type','checkbox');"@
        },
        _ => Seq::empty(),
    }
}

/// The outputs of `events`, one after the other.
pub open spec fn lone_outputs(events: Seq<EventView>) -> Seq<char>
    decreases events.len(),
{
    if events.len() == 0 {
        Seq::empty()
    } else {
        lone_output(events[0]) + lone_outputs(events.drop_first())
    }
}

/// Whether every event of `events` renders by itself.
pub open spec fn all_render_alone(events: Seq<EventView>) -> bool {
    forall|i: int| 0 <= i < events.len() ==> #[trigger] renders_alone(events[i])
}

proof fn lemma_render_alone(events: Seq<EventView>, pos: int, st: DomState)
    requires
        all_render_alone(events),
        0 <= pos <= events.len(),
    ensures
        render_from(events, pos, st) == Some(lone_outputs(events.subrange(pos, events.len() as int))),
    decreases events.len() - pos,
{
    let rest = events.subrange(pos, events.len() as int);
    if pos < events.len() {
        assert(renders_alone(events[pos]));
        assert(event_output(events, pos, st) == Some((lone_output(events[pos]), pos + 1, st)));
        lemma_render_alone(events, pos + 1, st);
        assert(rest[0] == events[pos]);
        assert(rest.drop_first() =~= events.subrange(pos + 1, events.len() as int));
    } else {
        assert(rest =~= Seq::<EventView>::empty());
    }
}

proof fn lemma_lone_outputs_add(a: Seq<EventView>, b: Seq<EventView>)
    ensures
        lone_outputs(a + b) == lone_outputs(a) + lone_outputs(b),
    decreases a.len(),
{
    if a.len() == 0 {
        assert(a + b =~= b);
    } else {
        lemma_lone_outputs_add(a.drop_first(), b);
        assert((a + b)[0] == a[0]);
        assert((a + b).drop_first() =~= a.drop_first() + b);
        assert(lone_output(a[0]) + (lone_outputs(a.drop_first()) + lone_outputs(b)) =~= (
        lone_output(a[0]) + lone_outputs(a.drop_first())) + lone_outputs(b));
    }
}

/// Events that render by themselves (text, code, HTML, breaks, rules and
/// task markers) render one after the other: each sequence of them renders,
/// and the rendering of two such sequences joined is the two renderings
/// joined.
pub proof fn rendering_concatenates(a: Seq<EventView>, b: Seq<EventView>)
    requires
        all_render_alone(a),
        all_render_alone(b),
    ensures
        incremental_dom(a) == Some(lone_outputs(a)),
        incremental_dom(b) == Some(lone_outputs(b)),
        incremental_dom(a + b) == Some(incremental_dom(a)->Some_0 + incremental_dom(b)->Some_0),
{
    let ab = a + b;
    assert forall|i: int| 0 <= i < ab.len() implies #[trigger] renders_alone(ab[i]) by {
        if i < a.len() {
            assert(ab[i] == a[i]);
        } else {
            assert(ab[i] == b[i - a.len()]);
        }
    }
    lemma_render_alone(a, 0, initial_state());
    lemma_render_alone(b, 0, initial_state());
    lemma_render_alone(ab, 0, initial_state());
    assert(a.subrange(0, a.len() as int) =~= a);
    assert(b.subrange(0, b.len() as int) =~= b);
    assert(ab.subrange(0, ab.len() as int) =~= ab);
    lemma_lone_outputs_add(a, b);
}

} // verus!

verus! {

/// The call that closes element `name`.
pub open spec fn close_call(name: Seq<char>) -> Seq<char> {
    "IncrementalDOM.elementClose('"@ + name + "');"@
}

/// The calls that close the elements `names`, in order.
pub open spec fn close_calls(names: Seq<Seq<char>>) -> Seq<char>
    decreases names.len(),
{
    if names.len() == 0 {
        Seq::empty()
    } else {
        close_call(names[0]) + close_calls(names.drop_first())
    }
}

} // verus!

verus! {

/// The call that opens element `name` with no attributes.
pub open spec fn open_call(name: Seq<char>) -> Seq<char> {
    "IncrementalDOM.elementOpen('"@ + name + "',null,null);"@
}

/// Whether the end tag of `tag` closes exactly what its start tag left
/// open: every element but tables, table heads, links, images and `latex`
/// code blocks.
pub open spec fn closes_what_it_opens(tag: TagView) -> bool {
    match tag {
        TagView::Table(_) | TagView::TableHead | TagView::Link(_, _, _) | TagView::Image(_, _, _) => false,
        TagView::CodeBlock(info) => code_language(info) != "latex"@,
        _ => true,
    }
}

/// The elements that the start tag of `tag` leaves open, outermost first;
/// `head` tells whether table cells are header cells.
pub open spec fn opened_elements(tag: TagView, head: bool) -> Seq<Seq<char>> {
    match tag {
        TagView::Paragraph => seq!["p"@],
        TagView::Heading(level) => seq!["h"@ + decimal(level as nat)],
        TagView::BlockQuote => seq!["blockquote"@],
        TagView::CodeBlock(_) => seq!["pre"@, "code"@],
        TagView::List(Some(_)) => seq!["ol"@],
        TagView::List(None) => seq!["ul"@],
        TagView::Item => seq!["li"@],
        TagView::FootnoteDefinition(_) => seq!["div"@],
        TagView::TableRow => seq!["tr"@],
        TagView::TableCell => seq![cell_element(head)],
        TagView::Emphasis => seq!["em"@],
        TagView::Strong => seq!["strong"@],
        TagView::Strikethrough => seq!["del"@],
        _ => Seq::empty(),
    }
}

proof fn lemma_close_calls_one(a: Seq<char>)
    ensures
        close_calls(seq![a]) == close_call(a),
{
    assert(seq![a].drop_first() =~= Seq::<Seq<char>>::empty());
    assert(seq![a][0] == a);
    assert(close_calls(Seq::<Seq<char>>::empty()) == Seq::<char>::empty());
    assert(close_call(a) + Seq::<char>::empty() =~= close_call(a));
}

proof fn lemma_close_calls_two(a: Seq<char>, b: Seq<char>)
    ensures
        close_calls(seq![a, b]) == close_call(a) + close_call(b),
{
    assert(seq![a, b].drop_first() =~= seq![b]);
    assert(seq![a, b][0] == a);
    lemma_close_calls_one(b);
}

/// An end tag closes the elements its start tag left open, innermost
/// first, for every element whose end closes what its start opens.
pub proof fn end_tags_close_what_start_tags_opened(tag: TagView, st: DomState)
    requires
        closes_what_it_opens(tag),
    ensures
        end_output(tag, st).0 == close_calls(opened_elements(tag, st.table_head).reverse()),
{
    reveal_strlit("IncrementalDOM.elementClose('");
    reveal_strlit("');");
    let names = opened_elements(tag, st.table_head);
    match tag {
        TagView::CodeBlock(_) => {
            assert(names.reverse() =~= seq!["code"@, "pre"@]);
            lemma_close_calls_two("code"@, "pre"@);
            reveal_strlit("code");
            reveal_strlit("pre");
            reveal_strlit("IncrementalDOM.elementClose('code');IncrementalDOM.elementClose('pre');");
            assert(end_output(tag, st).0 =~= close_call("code"@) + close_call("pre"@));
        },
        _ => {
            assert(names.len() == 1);
            let x = names[0];
            assert(names.reverse() =~= seq![x]);
            lemma_close_calls_one(x);
            match tag {
                TagView::Paragraph => {
                    reveal_strlit("p");
                    reveal_strlit("IncrementalDOM.elementClose('p');");
                    assert(end_output(tag, st).0 =~= close_call(x));
                },
                TagView::BlockQuote => {
                    reveal_strlit("blockquote");
                    reveal_strlit("IncrementalDOM.elementClose('blockquote');");
                    assert(end_output(tag, st).0 =~= close_call(x));
                },
                TagView::Item => {
                    reveal_strlit("li");
                    reveal_strlit("IncrementalDOM.elementClose('li');");
                    assert(end_output(tag, st).0 =~= close_call(x));
                },
                TagView::Emphasis => {
                    reveal_strlit("em");
                    reveal_strlit("IncrementalDOM.elementClose('em');");
                    assert(end_output(tag, st).0 =~= close_call(x));
                },
                TagView::Strong => {
                    reveal_strlit("strong");
                    reveal_strlit("IncrementalDOM.elementClose('strong');");
                    assert(end_output(tag, st).0 =~= close_call(x));
                },
                TagView::Strikethrough => {
                    reveal_strlit("del");
                    reveal_strlit("IncrementalDOM.elementClose('del');");
                    assert(end_output(tag, st).0 =~= close_call(x));
                },
                TagView::TableRow => {
                    reveal_strlit("tr");
                    reveal_strlit("IncrementalDOM.elementClose('tr');");
                    assert(end_output(tag, st).0 =~= close_call(x));
                },
                TagView::Heading(_) => {
                    reveal_strlit("h");
                    reveal_strlit("IncrementalDOM.elementClose('h");
                    assert(end_output(tag, st).0 =~= close_call(x));
                },
                TagView::List(Some(_)) => {
                    reveal_strlit("ol");
                    reveal_strlit("IncrementalDOM.elementClose('ol');");
                    assert(end_output(tag, st).0 =~= close_call(x));
                },
                TagView::List(None) => {
                    reveal_strlit("ul");
                    reveal_strlit("IncrementalDOM.elementClose('ul');");
                    assert(end_output(tag, st).0 =~= close_call(x));
                },
                TagView::FootnoteDefinition(_) => {
                    reveal_strlit("div");
                    reveal_strlit("IncrementalDOM.elementClose('div');");
                    assert(end_output(tag, st).0 =~= close_call(x));
                },
                TagView::TableCell => {
                    reveal_strlit("th");
                    reveal_strlit("td");
                    reveal_strlit("IncrementalDOM.elementClose('th');");
                    reveal_strlit("IncrementalDOM.elementClose('td');");
                    assert(end_output(tag, st).0 =~= close_call(x));
                },
                _ => {},
            }
        },
    }
}

} // verus!

verus! {

/// Table cells follow the columns: a cell opens a header (`th`) or body
/// (`td`) cell aligned as the current column, reading no further event; its
/// end closes that cell element and moves to the next column.
pub proof fn table_cells_follow_columns(events: Seq<EventView>, next: int, st: DomState)
    ensures
        start_output(events, next, TagView::TableCell, st) == Some(
            (
                "IncrementalDOM.elementOpen('"@ + cell_element(st.table_head)
                    + "',null,null,'align','"@ + cell_alignment(st.alignments, st.cell) + "');"@,
                next,
                st,
            ),
        ),
        end_output(TagView::TableCell, st).0 == close_call(cell_element(st.table_head)),
        end_output(TagView::TableCell, st).1 == (DomState { cell: st.cell + 1, ..st }),
{
    end_tags_close_what_start_tags_opened(TagView::TableCell, st);
    lemma_close_calls_one(cell_element(st.table_head));
    assert(seq![cell_element(st.table_head)].reverse() =~= seq![cell_element(st.table_head)]);
}

/// A footnote definition shows the label's number (the one it already has,
/// or the next one) and numbers the label from then on.
pub proof fn footnote_definitions_are_numbered(events: Seq<EventView>, next: int, st: DomState, name: Seq<char>)
    ensures
        start_output(events, next, TagView::FootnoteDefinition(name), st) == Some(
            (
                "IncrementalDOM.elementOpen('div',null,null,'class','footnote-definition','id','"@
                    + attribute_encoded(name) + ";"@
                    + "IncrementalDOM.elementOpen('sup',null,null,'class','footnote-definition-label');"@
                    + "IncrementalDOM.text('"@ + decimal(note_number(st.notes, name)) + "');"@
                    + "IncrementalDOM.elementClose('sup');"@,
                next,
                DomState { notes: note_register(st.notes, name), ..st },
            ),
        ),
{
}

} // verus!

verus! {

/// A well-nested piece of a document: an event that renders by itself, or
/// an element, its start and end events around the pieces inside it.
pub enum EventTree {
    Leaf(EventView),
    Element(TagView, Seq<EventTree>),
}

/// The events of a sequence of pieces, in document order.
pub open spec fn flatten(f: Seq<EventTree>) -> Seq<EventView>
    decreases f,
{
    if f.len() == 0 {
        Seq::empty()
    } else {
        let rest = flatten(f.subrange(1, f.len() as int));
        match f[0] {
            EventTree::Leaf(e) => seq![e] + rest,
            EventTree::Element(tag, inner) => seq![EventView::Start(tag)] + flatten(inner) + seq![
                EventView::End(tag),
            ] + rest,
        }
    }
}

/// Whether an element's start neither reads further events nor reads or
/// changes the renderer's state.
pub open spec fn plain_container(tag: TagView) -> bool {
    match tag {
        TagView::Paragraph | TagView::BlockQuote | TagView::Emphasis | TagView::Strong
        | TagView::Strikethrough | TagView::Item | TagView::Heading(_) | TagView::List(_) => true,
        TagView::CodeBlock(info) => code_language(info) != "latex"@,
        _ => false,
    }
}

/// The output of a plain container's start.
pub open spec fn container_open(tag: TagView) -> Seq<char> {
    match tag {
        TagView::CodeBlock(info) => "IncrementalDOM.elementOpen('pre',null,null);IncrementalDOM.elementOpen('code',null,null,'class','language-"@
            + code_language(info) + "');"@,
        _ => plain_start(tag, initial_state()).0,
    }
}

/// Whether every leaf of `f` renders by itself and every element of it is a
/// plain container.
pub open spec fn plain_forest(f: Seq<EventTree>) -> bool
    decreases f,
{
    if f.len() == 0 {
        true
    } else {
        plain_forest(f.subrange(1, f.len() as int)) && match f[0] {
            EventTree::Leaf(e) => renders_alone(e),
            EventTree::Element(tag, inner) => plain_container(tag) && plain_forest(inner),
        }
    }
}

/// The rendering of a sequence of pieces: each leaf's output; each
/// element's start output, the rendering of what is inside it, and the
/// calls that close the elements its start opened, innermost first.
pub open spec fn forest_output(f: Seq<EventTree>) -> Seq<char>
    decreases f,
{
    if f.len() == 0 {
        Seq::empty()
    } else {
        let rest = forest_output(f.subrange(1, f.len() as int));
        match f[0] {
            EventTree::Leaf(e) => lone_output(e) + rest,
            EventTree::Element(tag, inner) => container_open(tag) + forest_output(inner)
                + close_calls(opened_elements(tag, true).reverse()) + rest,
        }
    }
}

proof fn lemma_prefixed_twice(a: Seq<char>, b: Seq<char>, o: Option<Seq<char>>)
    ensures
        prefixed(a, prefixed(b, o)) == prefixed(a + b, o),
{
    if let Some(r) = o {
        assert(a + (b + r) =~= (a + b) + r);
    }
}

proof fn lemma_flatten_leaf(events: Seq<EventView>, i: int, f: Seq<EventTree>, e: EventView)
    requires
        f.len() > 0,
        f[0] == EventTree::Leaf(e),
        0 <= i,
        i + flatten(f).len() <= events.len(),
        events.subrange(i, i + flatten(f).len()) == flatten(f),
    ensures
        events[i] == e,
        flatten(f).len() == 1 + flatten(f.subrange(1, f.len() as int)).len(),
        events.subrange(i + 1, i + flatten(f).len()) == flatten(f.subrange(1, f.len() as int)),
{
    let n = flatten(f).len() as int;
    assert(events[i] == flatten(f)[0]);
    assert(events.subrange(i + 1, i + n) =~= flatten(f).subrange(1, n));
    assert(flatten(f).subrange(1, n) =~= flatten(f.subrange(1, f.len() as int)));
}

proof fn lemma_flatten_element(
    events: Seq<EventView>,
    i: int,
    f: Seq<EventTree>,
    tag: TagView,
    inner: Seq<EventTree>,
)
    requires
        f.len() > 0,
        f[0] == EventTree::Element(tag, inner),
        0 <= i,
        i + flatten(f).len() <= events.len(),
        events.subrange(i, i + flatten(f).len()) == flatten(f),
    ensures
        events[i] == EventView::Start(tag),
        events.subrange(i + 1, i + 1 + flatten(inner).len()) == flatten(inner),
        events[i + 1 + flatten(inner).len()] == EventView::End(tag),
        flatten(f).len() == 2 + flatten(inner).len() + flatten(f.subrange(1, f.len() as int)).len(),
        events.subrange(i + 2 + flatten(inner).len(), i + flatten(f).len()) == flatten(
            f.subrange(1, f.len() as int),
        ),
{
    let n = flatten(f).len() as int;
    let k = flatten(inner).len() as int;
    assert(events[i] == flatten(f)[0]);
    assert(events.subrange(i + 1, i + 1 + k) =~= flatten(f).subrange(1, 1 + k));
    assert(flatten(f).subrange(1, 1 + k) =~= flatten(inner));
    assert(events[i + 1 + k] == flatten(f)[1 + k]);
    assert(events.subrange(i + 2 + k, i + n) =~= flatten(f).subrange(2 + k, n));
    assert(flatten(f).subrange(2 + k, n) =~= flatten(f.subrange(1, f.len() as int)));
}

proof fn lemma_container_steps(events: Seq<EventView>, i: int, j: int, st: DomState, tag: TagView)
    requires
        plain_container(tag),
        0 <= i < j < events.len(),
        events[i] == EventView::Start(tag),
        events[j] == EventView::End(tag),
    ensures
        event_output(events, i, st) == Some((container_open(tag), i + 1, st)),
        event_output(events, j, st) == Some(
            (close_calls(opened_elements(tag, true).reverse()), j + 1, st),
        ),
{
    end_tags_close_what_start_tags_opened(tag, st);
    assert(opened_elements(tag, st.table_head) == opened_elements(tag, true));
}

#[verifier::spinoff_prover]
#[verifier::rlimit(60)]
proof fn lemma_forest(events: Seq<EventView>, i: int, st: DomState, f: Seq<EventTree>)
    requires
        plain_forest(f),
        0 <= i,
        i + flatten(f).len() <= events.len(),
        events.subrange(i, i + flatten(f).len()) == flatten(f),
    ensures
        render_from(events, i, st) == prefixed(
            forest_output(f),
            render_from(events, i + flatten(f).len(), st),
        ),
    decreases f,
{
    let n = flatten(f).len() as int;
    if f.len() == 0 {
        match render_from(events, i, st) {
            Some(r) => assert(Seq::<char>::empty() + r =~= r),
            None => {},
        }
    } else {
        let rest = f.subrange(1, f.len() as int);
        let tail = render_from(events, i + n, st);
        match f[0] {
            EventTree::Leaf(e) => {
                lemma_flatten_leaf(events, i, f, e);
                assert(event_output(events, i, st) == Some((lone_output(e), i + 1, st)));
                lemma_forest(events, i + 1, st, rest);
                lemma_prefixed_twice(lone_output(e), forest_output(rest), tail);
            },
            EventTree::Element(tag, inner) => {
                let k = flatten(inner).len() as int;
                lemma_flatten_element(events, i, f, tag, inner);
                lemma_container_steps(events, i, i + 1 + k, st, tag);
                lemma_forest(events, i + 1, st, inner);
                lemma_forest(events, i + 2 + k, st, rest);
                let open = container_open(tag);
                let close = close_calls(opened_elements(tag, true).reverse());
                lemma_prefixed_twice(close, forest_output(rest), tail);
                lemma_prefixed_twice(forest_output(inner), close + forest_output(rest), tail);
                lemma_prefixed_twice(open, forest_output(inner) + (close + forest_output(rest)), tail);
                assert(open + (forest_output(inner) + (close + forest_output(rest))) =~= forest_output(
                    f,
                ));
            },
        }
    }
}

/// Well-nested documents render well-nested: where every element is a
/// plain container (paragraph, block quote, emphasis, strong, strikethrough,
/// list item, heading, list, or code block other than `latex`) and every
/// other event renders by itself,
/// the rendering is each element's start output, then what is inside it,
/// then the calls that close exactly the elements its start opened,
/// innermost first.
pub proof fn well_nested_documents_render_well_nested(f: Seq<EventTree>)
    requires
        plain_forest(f),
    ensures
        incremental_dom(flatten(f)) == Some(forest_output(f)),
{
    let events = flatten(f);
    assert(events.subrange(0, events.len() as int) =~= events);
    lemma_forest(events, 0, initial_state(), f);
    assert(forest_output(f) + Seq::<char>::empty() =~= forest_output(f));
}

} // verus!

verus! {

/// A table head starts afresh, whatever tables were rendered before: after
/// its start, cells are header cells counted from the first column, so the
/// first cell opens as `th` with the first column's alignment.
pub proof fn table_heads_open_header_cells(st: DomState)
    ensures
        plain_start(TagView::TableHead, st).1.table_head,
        plain_start(TagView::TableHead, st).1.cell == 0,
        plain_start(TagView::TableHead, st).1.alignments == st.alignments,
        plain_start(TagView::TableCell, plain_start(TagView::TableHead, st).1).0
            == "IncrementalDOM.elementOpen('"@ + "th"@ + "',null,null,'align','"@ + cell_alignment(
            st.alignments,
            0,
        ) + "');"@,
{
}

/// Inside an image, inline code and HTML add their text to the alt text
/// exactly as a text event does: putting `Code(t)` or `Html(t)` in place of
/// `Text(t)` at any position changes nothing of what `raw_text` reads.
pub proof fn code_and_html_read_as_text(
    events: Seq<EventView>,
    pos: int,
    t: Seq<char>,
    from: int,
    nest: nat,
    notes: Seq<Seq<char>>,
)
    requires
        0 <= pos < events.len(),
    ensures
        raw_text(events.update(pos, EventView::Code(t)), from, nest, notes) == raw_text(
            events.update(pos, EventView::Text(t)),
            from,
            nest,
            notes,
        ),
        raw_text(events.update(pos, EventView::Html(t)), from, nest, notes) == raw_text(
            events.update(pos, EventView::Text(t)),
            from,
            nest,
            notes,
        ),
    decreases events.len() - from,
{
    let c = events.update(pos, EventView::Code(t));
    let h = events.update(pos, EventView::Html(t));
    let x = events.update(pos, EventView::Text(t));
    if 0 <= from < events.len() {
        if from != pos {
            assert(c[from] == x[from]);
            assert(h[from] == x[from]);
        }
        match x[from] {
            EventView::FootnoteReference(name) => {
                code_and_html_read_as_text(events, pos, t, from + 1, nest, note_register(notes, name));
            },
            EventView::Start(_) => {
                code_and_html_read_as_text(events, pos, t, from + 1, nest + 1, notes);
            },
            EventView::End(_) => {
                if nest > 0 {
                    code_and_html_read_as_text(events, pos, t, from + 1, (nest - 1) as nat, notes);
                }
            },
            _ => {
                code_and_html_read_as_text(events, pos, t, from + 1, nest, notes);
            },
        }
    }
}

} // verus!

verus! {

/// The start of the call that opens element `name`, up to its attributes.
pub open spec fn open_prefix(name: Seq<char>) -> Seq<char> {
    "IncrementalDOM.elementOpen('"@ + name + "',null,null"@
}

/// Whether `s` begins with `p`.
pub open spec fn starts_with(s: Seq<char>, p: Seq<char>) -> bool {
    p.len() <= s.len() && s.subrange(0, p.len() as int) == p
}

proof fn lemma_starts_with(p: Seq<char>, q: Seq<char>)
    ensures
        starts_with(p + q, p),
{
    assert((p + q).subrange(0, p.len() as int) =~= p);
}

proof fn lemma_literal_opens(lit: Seq<char>, name: Seq<char>, rest: Seq<char>)
    requires
        lit == open_prefix(name) + rest,
    ensures
        starts_with(lit, open_prefix(name)),
{
    lemma_starts_with(open_prefix(name), rest);
}

/// A start tag opens, in order, the elements its end tag closes: for every
/// element whose end closes what its start opens, the start's output begins
/// with the call that opens the first of `opened_elements`, and for a code
/// block the call that opens the second follows it. Together with
/// `end_tags_close_what_start_tags_opened`, an element's start and end open
/// and close the same elements.
pub proof fn start_tags_open_what_end_tags_close(
    events: Seq<EventView>,
    next: int,
    tag: TagView,
    st: DomState,
)
    requires
        closes_what_it_opens(tag),
    ensures
        start_output(events, next, tag, st) is Some,
        opened_elements(tag, st.table_head).len() >= 1,
        starts_with(
            start_output(events, next, tag, st)->Some_0.0,
            open_prefix(opened_elements(tag, st.table_head)[0]),
        ),
        opened_elements(tag, st.table_head).len() == 2 ==> starts_with(
            start_output(events, next, tag, st)->Some_0.0,
            open_prefix(opened_elements(tag, st.table_head)[0]) + ");"@ + open_prefix(
                opened_elements(tag, st.table_head)[1],
            ),
        ),
{
    reveal_strlit("IncrementalDOM.elementOpen('");
    reveal_strlit("',null,null");
    reveal_strlit(");");
    let s = start_output(events, next, tag, st)->Some_0.0;
    match tag {
        TagView::Paragraph => {
            reveal_strlit("p");
            reveal_strlit("IncrementalDOM.elementOpen('p',null,null);");
            assert(s =~= open_prefix("p"@) + ");"@);
            lemma_literal_opens(s, "p"@, ");"@);
        },
        TagView::BlockQuote => {
            reveal_strlit("blockquote");
            reveal_strlit("IncrementalDOM.elementOpen('blockquote',null,null);");
            assert(s =~= open_prefix("blockquote"@) + ");"@);
            lemma_literal_opens(s, "blockquote"@, ");"@);
        },
        TagView::Emphasis => {
            reveal_strlit("em");
            reveal_strlit("IncrementalDOM.elementOpen('em',null,null);");
            assert(s =~= open_prefix("em"@) + ");"@);
            lemma_literal_opens(s, "em"@, ");"@);
        },
        TagView::Strong => {
            reveal_strlit("strong");
            reveal_strlit("IncrementalDOM.elementOpen('strong',null,null);");
            assert(s =~= open_prefix("strong"@) + ");"@);
            lemma_literal_opens(s, "strong"@, ");"@);
        },
        TagView::Strikethrough => {
            reveal_strlit("del");
            reveal_strlit("IncrementalDOM.elementOpen('del',null,null);");
            assert(s =~= open_prefix("del"@) + ");"@);
            lemma_literal_opens(s, "del"@, ");"@);
        },
        TagView::Item => {
            reveal_strlit("li");
            reveal_strlit("IncrementalDOM.elementOpen('li',null,null);");
            assert(s =~= open_prefix("li"@) + ");"@);
            lemma_literal_opens(s, "li"@, ");"@);
        },
        TagView::TableRow => {
            reveal_strlit("tr");
            reveal_strlit("IncrementalDOM.elementOpen('tr',null,null);");
            assert(s =~= open_prefix("tr"@) + ");"@);
            lemma_literal_opens(s, "tr"@, ");"@);
        },
        TagView::List(None) => {
            reveal_strlit("ul");
            reveal_strlit("IncrementalDOM.elementOpen('ul',null,null);");
            assert(s =~= open_prefix("ul"@) + ");"@);
            lemma_literal_opens(s, "ul"@, ");"@);
        },
        TagView::List(Some(start)) => {
            reveal_strlit("ol");
            reveal_strlit("IncrementalDOM.elementOpen('ol',null,null);");
            reveal_strlit("IncrementalDOM.elementOpen('ol',null,null,'start','");
            reveal_strlit(",'start','");
            if start == 1 {
                assert(s =~= open_prefix("ol"@) + ");"@);
                lemma_literal_opens(s, "ol"@, ");"@);
            } else {
                let rest = ",'start','"@ + decimal(start as nat) + "');"@;
                assert("IncrementalDOM.elementOpen('ol',null,null,'start','"@ =~= open_prefix("ol"@)
                    + ",'start','"@);
                assert(s =~= open_prefix("ol"@) + rest);
                lemma_literal_opens(s, "ol"@, rest);
            }
        },
        TagView::Heading(level) => {
            reveal_strlit("h");
            reveal_strlit("IncrementalDOM.elementOpen('h");
            reveal_strlit("',null,null);");
            let d = decimal(level as nat);
            assert("IncrementalDOM.elementOpen('h"@ =~= "IncrementalDOM.elementOpen('"@ + "h"@);
            assert("',null,null);"@ =~= "',null,null"@ + ");"@);
            assert(s =~= open_prefix("h"@ + d) + ");"@);
            lemma_literal_opens(s, "h"@ + d, ");"@);
        },
        TagView::TableCell => {
            reveal_strlit("',null,null,'align','");
            reveal_strlit(",'align','");
            let c = cell_element(st.table_head);
            let rest = ",'align','"@ + cell_alignment(st.alignments, st.cell) + "');"@;
            assert("',null,null,'align','"@ =~= "',null,null"@ + ",'align','"@);
            assert(s =~= open_prefix(c) + rest);
            lemma_literal_opens(s, c, rest);
        },
        TagView::FootnoteDefinition(name) => {
            reveal_strlit("div");
            reveal_strlit(
                "IncrementalDOM.elementOpen('div',null,null,'class','footnote-definition','id','",
            );
            reveal_strlit(",'class','footnote-definition','id','");
            let lit =
                "IncrementalDOM.elementOpen('div',null,null,'class','footnote-definition','id','"@;
            assert(lit =~= open_prefix("div"@) + ",'class','footnote-definition','id','"@);
            let rest = ",'class','footnote-definition','id','"@ + s.subrange(lit.len() as int, s.len() as int);
            assert(s =~= open_prefix("div"@) + rest);
            lemma_literal_opens(s, "div"@, rest);
        },
        TagView::CodeBlock(info) => {
            reveal_strlit("pre");
            reveal_strlit("code");
            reveal_strlit(
                "IncrementalDOM.elementOpen('pre',null,null);IncrementalDOM.elementOpen('code',null,null,'class','language-",
            );
            reveal_strlit(",'class','language-");
            let lit =
                "IncrementalDOM.elementOpen('pre',null,null);IncrementalDOM.elementOpen('code',null,null,'class','language-"@;
            let two = open_prefix("pre"@) + ");"@ + open_prefix("code"@);
            assert(lit =~= two + ",'class','language-"@);
            let rest = ",'class','language-"@ + code_language(info) + "');"@;
            assert(s =~= two + rest);
            lemma_starts_with(two, rest);
            assert(open_prefix("pre"@) + (");"@ + open_prefix("code"@) + rest) =~= s);
            lemma_starts_with(open_prefix("pre"@), ");"@ + open_prefix("code"@) + rest);
        },
        _ => {},
    }
}

} // verus!

verus! {

/// A table's alignments are those its start gives, and after its head ends
/// every row holds body cells counted from the first column: the first
/// cell of a row opens as `td` with the first column's alignment, and each
/// closed cell moves on to the next column.
pub proof fn table_bodies_open_body_cells(st: DomState, alignments: Seq<ColumnAlignment>)
    ensures
        plain_start(TagView::Table(alignments), st).1.alignments == alignments,
        !end_output(TagView::TableHead, st).1.table_head,
        end_output(TagView::TableHead, st).1.alignments == st.alignments,
        plain_start(TagView::TableRow, st).1 == (DomState { cell: 0, ..st }),
        plain_start(TagView::TableCell, plain_start(TagView::TableRow, end_output(TagView::TableHead, st).1).1).0
            == "IncrementalDOM.elementOpen('"@ + "td"@ + "',null,null,'align','"@ + cell_alignment(
            st.alignments,
            0,
        ) + "');"@,
        end_output(TagView::TableCell, st).1.cell == st.cell + 1,
        end_output(TagView::TableCell, st).1.table_head == st.table_head,
{
}

} // verus!

verus! {

/// A code block's language is the first word of its info string: a word
/// without spaces is its own language, and whatever follows the first space
/// is left out.
pub proof fn code_language_is_first_word(word: Seq<char>, rest: Seq<char>)
    requires
        forall|k: int| 0 <= k < word.len() ==> word[k] != ' ',
    ensures
        code_language(word) == word,
        code_language(word + seq![' '] + rest) == word,
    decreases word.len(),
{
    let info = word + seq![' '] + rest;
    if word.len() == 0 {
        assert(info[0] == ' ');
    } else {
        code_language_is_first_word(word.drop_first(), rest);
        assert(info[0] == word[0]);
        assert(info.drop_first() =~= word.drop_first() + seq![' '] + rest);
        assert(seq![word[0]] + word.drop_first() =~= word);
    }
}

} // verus!

verus! {

proof fn lemma_raw_text_shifted(
    e1: Seq<EventView>,
    e2: Seq<EventView>,
    k: int,
    j: int,
    nest: nat,
    notes: Seq<Seq<char>>,
)
    requires
        0 <= k,
        0 <= j,
        e2.len() == e1.len() + 1,
        k <= e1.len(),
        forall|i: int| k <= i < e1.len() ==> e1[i] == e2[i + 1],
    ensures
        raw_text(e1, k + j, nest, notes) == (
            raw_text(e2, k + 1 + j, nest, notes).0,
            raw_text(e2, k + 1 + j, nest, notes).1 - 1,
            raw_text(e2, k + 1 + j, nest, notes).2,
        ),
    decreases e1.len() - (k + j),
{
    if k + j < e1.len() {
        assert(e1[k + j] == e2[k + 1 + j]);
        match e1[k + j] {
            EventView::Start(_) => lemma_raw_text_shifted(e1, e2, k, j + 1, nest + 1, notes),
            EventView::End(_) => if nest > 0 {
                lemma_raw_text_shifted(e1, e2, k, j + 1, (nest - 1) as nat, notes);
            },
            EventView::FootnoteReference(name) => lemma_raw_text_shifted(
                e1,
                e2,
                k,
                j + 1,
                nest,
                note_register(notes, name),
            ),
            _ => lemma_raw_text_shifted(e1, e2, k, j + 1, nest, notes),
        }
    }
}

/// Alt text does not depend on how text is cut into events: a text event
/// split in two reads as the same text, and reading ends one event later.
pub proof fn split_text_reads_the_same(
    pre: Seq<EventView>,
    post: Seq<EventView>,
    a: Seq<char>,
    b: Seq<char>,
    nest: nat,
    notes: Seq<Seq<char>>,
)
    ensures
        ({
            let whole = pre + seq![EventView::Text(a + b)] + post;
            let split = pre + seq![EventView::Text(a), EventView::Text(b)] + post;
            let r1 = raw_text(whole, pre.len() as int, nest, notes);
            let r2 = raw_text(split, pre.len() as int, nest, notes);
            r1.0 == r2.0 && r2.1 == r1.1 + 1 && r1.2 == r2.2
        }),
{
    let whole = pre + seq![EventView::Text(a + b)] + post;
    let split = pre + seq![EventView::Text(a), EventView::Text(b)] + post;
    let p = pre.len() as int;
    assert(whole[p] == EventView::Text(a + b));
    assert(split[p] == EventView::Text(a));
    assert(split[p + 1] == EventView::Text(b));
    assert forall|i: int| p + 1 <= i < whole.len() implies whole[i] == split[i + 1] by {
        assert(whole[i] == post[i - p - 1]);
        assert(split[i + 1] == post[i - p - 1]);
    }
    lemma_raw_text_shifted(whole, split, p + 1, 0, nest, notes);
    attribute_encoding_concatenates(a, b);
    let r = raw_text(split, p + 2, nest, notes);
    let q = raw_text(split, p + 1, nest, notes);
    assert(q == (attribute_encoded(b) + r.0, r.1, r.2));
    assert(raw_text(split, p, nest, notes) == (attribute_encoded(a) + q.0, q.1, q.2));
    let w = raw_text(whole, p + 1, nest, notes);
    assert(w == (r.0, r.1 - 1, r.2));
    assert(raw_text(whole, p, nest, notes) == (attribute_encoded(a + b) + w.0, w.1, w.2));
    assert(attribute_encoded(a) + attribute_encoded(b) + r.0 =~= attribute_encoded(a) + (
    attribute_encoded(b) + r.0));
}

} // verus!
