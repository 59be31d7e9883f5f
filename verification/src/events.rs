//! The Markdown events the renderer consumes: a start or end of a tagged
//! element, a piece of text, code or HTML, a footnote reference, a break, a
//! rule, or a task-list marker.

use vstd::prelude::*;

verus! {

/// Text alignment of a table column.
#[derive(Clone, Copy, Debug, PartialEq, Eq, Structural)]
pub enum ColumnAlignment {
    /// no alignment given
    Unaligned,
    Left,
    Center,
    Right,
}

/// How a link or image was written in the Markdown source.
#[derive(Clone, Copy, Debug, PartialEq, Eq, Structural)]
pub enum LinkKind {
    /// `[text](destination)`
    Inline,
    /// `[text][label]`
    Reference,
    /// a reference whose label the document does not define
    ReferenceUnknown,
    /// `[label][]`
    Collapsed,
    /// a collapsed reference whose label the document does not define
    CollapsedUnknown,
    /// `[label]`
    Shortcut,
    /// a shortcut whose label the document does not define
    ShortcutUnknown,
    /// `<http://example.org>`
    Autolink,
    /// `<someone@example.org>`
    Email,
}

/// A tagged Markdown element.
#[derive(Debug)]
pub enum MdTag {
    Paragraph,
    /// A heading of the given level.
    Heading(u32),
    BlockQuote,
    /// A code block with its info string (the language first).
    CodeBlock(String),
    /// A list; ordered lists carry the number of their first item.
    List(Option<u64>),
    Item,
    /// A footnote definition with its label.
    FootnoteDefinition(String),
    /// A table with the alignment of each column.
    Table(Vec<ColumnAlignment>),
    TableHead,
    TableRow,
    TableCell,
    Emphasis,
    Strong,
    Strikethrough,
    /// A link: kind, destination, title.
    Link(LinkKind, String, String),
    /// An image: kind, destination, title.
    Image(LinkKind, String, String),
}

/// One Markdown event.
#[derive(Debug)]
pub enum MdEvent {
    Start(MdTag),
    End(MdTag),
    Text(String),
    Code(String),
    Html(String),
    FootnoteReference(String),
    SoftBreak,
    HardBreak,
    Rule,
    /// A task-list checkbox, `true` when it is checked.
    TaskListMarker(bool),
}

/// The mathematical value of an `MdTag`.
pub enum TagView {
    Paragraph,
    Heading(u32),
    BlockQuote,
    CodeBlock(Seq<char>),
    List(Option<u64>),
    Item,
    FootnoteDefinition(Seq<char>),
    Table(Seq<ColumnAlignment>),
    TableHead,
    TableRow,
    TableCell,
    Emphasis,
    Strong,
    Strikethrough,
    Link(LinkKind, Seq<char>, Seq<char>),
    Image(LinkKind, Seq<char>, Seq<char>),
}

/// The mathematical value of an `MdEvent`.
pub enum EventView {
    Start(TagView),
    End(TagView),
    Text(Seq<char>),
    Code(Seq<char>),
    Html(Seq<char>),
    FootnoteReference(Seq<char>),
    SoftBreak,
    HardBreak,
    Rule,
    TaskListMarker(bool),
}

impl View for MdTag {
    type V = TagView;

    open spec fn view(&self) -> TagView {
        match self {
            MdTag::Paragraph => TagView::Paragraph,
            MdTag::Heading(n) => TagView::Heading(*n),
            MdTag::BlockQuote => TagView::BlockQuote,
            MdTag::CodeBlock(info) => TagView::CodeBlock(info@),
            MdTag::List(start) => TagView::List(*start),
            MdTag::Item => TagView::Item,
            MdTag::FootnoteDefinition(name) => TagView::FootnoteDefinition(name@),
            MdTag::Table(a) => TagView::Table(a@),
            MdTag::TableHead => TagView::TableHead,
            MdTag::TableRow => TagView::TableRow,
            MdTag::TableCell => TagView::TableCell,
            MdTag::Emphasis => TagView::Emphasis,
            MdTag::Strong => TagView::Strong,
            MdTag::Strikethrough => TagView::Strikethrough,
            MdTag::Link(k, d, t) => TagView::Link(*k, d@, t@),
            MdTag::Image(k, d, t) => TagView::Image(*k, d@, t@),
        }
    }
}

impl View for MdEvent {
    type V = EventView;

    open spec fn view(&self) -> EventView {
        match self {
            MdEvent::Start(t) => EventView::Start(t@),
            MdEvent::End(t) => EventView::End(t@),
            MdEvent::Text(s) => EventView::Text(s@),
            MdEvent::Code(s) => EventView::Code(s@),
            MdEvent::Html(s) => EventView::Html(s@),
            MdEvent::FootnoteReference(s) => EventView::FootnoteReference(s@),
            MdEvent::SoftBreak => EventView::SoftBreak,
            MdEvent::HardBreak => EventView::HardBreak,
            MdEvent::Rule => EventView::Rule,
            MdEvent::TaskListMarker(b) => EventView::TaskListMarker(*b),
        }
    }
}

/// The values of a sequence of events.
pub open spec fn events_view(events: Seq<MdEvent>) -> Seq<EventView> {
    events.map_values(|e: MdEvent| e@)
}

} // verus!
