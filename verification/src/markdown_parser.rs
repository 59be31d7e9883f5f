//! Markdown parsing with pulldown-cmark, its events converted into the
//! library's events.

use vstd::prelude::*;

use pulldown_cmark::{Alignment, Event, LinkType, Options, Parser, Tag};
use pulldown_cmark::Event::{Code, End, FootnoteReference, HardBreak, Html, Rule, SoftBreak, Start, TaskListMarker, Text};
use pulldown_cmark::LinkType::{Autolink, Collapsed, CollapsedUnknown, Email, Inline, Reference, ReferenceUnknown, Shortcut, ShortcutUnknown};
use pulldown_cmark::Tag::{BlockQuote, CodeBlock, Emphasis, FootnoteDefinition, Heading, Image, Item, Link, List, Paragraph, Strikethrough, Strong, Table, TableCell, TableHead, TableRow};

use crate::events::{ColumnAlignment, EventView, LinkKind, MdEvent, MdTag, events_view};

verus! {

#[verifier::external_type_specification]
#[verifier::external_body]
pub struct ExEvent<'a>(Event<'a>);

#[verifier::external_type_specification]
#[verifier::external_body]
pub struct ExTag<'a>(Tag<'a>);

#[verifier::external_type_specification]
#[verifier::external_body]
pub struct ExLinkType(LinkType);

#[verifier::external_type_specification]
#[verifier::external_body]
pub struct ExAlignment(Alignment);

/// The events pulldown-cmark's parser, with strikethrough enabled, reads
/// from `text`.
pub uninterp spec fn markdown_events(text: Seq<char>) -> Seq<EventView>;

/// Parses `text` with `pulldown_cmark::Parser::new_ext` (strikethrough
/// enabled) and converts every event it yields with `convert_event`. The
/// result is named, not described: it is a function of the text.
#[verifier::external_body]
pub(crate) fn parse_markdown(text: &str) -> (events: Vec<MdEvent>)
    ensures
        events_view(events@) == markdown_events(text@),
{
    Parser::new_ext(text, Options::ENABLE_STRIKETHROUGH).map(convert_event).collect()
}

/// Converts a pulldown-cmark event, variant by variant, moving the fields.
#[verifier::external_body]
fn convert_event(event: Event) -> MdEvent {
    match event {
        Start(t) => MdEvent::Start(convert_tag(t)),
        End(t) => MdEvent::End(convert_tag(t)),
        Text(t) => MdEvent::Text(t.into_string()),
        Code(t) => MdEvent::Code(t.into_string()),
        Html(t) => MdEvent::Html(t.into_string()),
        FootnoteReference(t) => MdEvent::FootnoteReference(t.into_string()),
        SoftBreak => MdEvent::SoftBreak,
        HardBreak => MdEvent::HardBreak,
        Rule => MdEvent::Rule,
        TaskListMarker(b) => MdEvent::TaskListMarker(b),
    }
}

/// Converts a pulldown-cmark tag, variant by variant, moving the fields.
#[verifier::external_body]
fn convert_tag(tag: Tag) -> MdTag {
    match tag {
        Paragraph => MdTag::Paragraph, BlockQuote => MdTag::BlockQuote, Item => MdTag::Item,
        Heading(n) => MdTag::Heading(n), List(n) => MdTag::List(n),
        CodeBlock(t) => MdTag::CodeBlock(t.into_string()),
        FootnoteDefinition(t) => MdTag::FootnoteDefinition(t.into_string()),
        Table(a) => MdTag::Table(a.into_iter().map(convert_alignment).collect()),
        TableHead => MdTag::TableHead, TableRow => MdTag::TableRow, TableCell => MdTag::TableCell,
        Emphasis => MdTag::Emphasis, Strong => MdTag::Strong, Strikethrough => MdTag::Strikethrough,
        Link(k, d, t) => MdTag::Link(convert_link_type(k), d.into_string(), t.into_string()),
        Image(k, d, t) => MdTag::Image(convert_link_type(k), d.into_string(), t.into_string())
    }
}

/// Converts a pulldown-cmark link type, variant by variant.
#[verifier::external_body]
fn convert_link_type(kind: LinkType) -> LinkKind {
    match kind {
        Inline => LinkKind::Inline,
        Reference => LinkKind::Reference,
        ReferenceUnknown => LinkKind::ReferenceUnknown,
        Collapsed => LinkKind::Collapsed,
        CollapsedUnknown => LinkKind::CollapsedUnknown,
        Shortcut => LinkKind::Shortcut,
        ShortcutUnknown => LinkKind::ShortcutUnknown,
        Autolink => LinkKind::Autolink,
        Email => LinkKind::Email,
    }
}

/// Converts a pulldown-cmark column alignment, variant by variant.
#[verifier::external_body]
fn convert_alignment(alignment: Alignment) -> ColumnAlignment {
    match alignment {
        Alignment::None => ColumnAlignment::Unaligned,
        Alignment::Left => ColumnAlignment::Left,
        Alignment::Center => ColumnAlignment::Center,
        Alignment::Right => ColumnAlignment::Right,
    }
}

} // verus!
