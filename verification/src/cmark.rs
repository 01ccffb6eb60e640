//! The boundary to the `pulldown-cmark` parser: its events, converted into
//! the plain [`CmEvent`] model that parsing reads.
use vstd::prelude::*;
use pulldown_cmark::Event as PdEvent;
use pulldown_cmark::Tag as PdTag;
use pulldown_cmark::TagEnd as PdTagEnd;
use pulldown_cmark::Alignment as PdAlignment;
use pulldown_cmark::CodeBlockKind as PdCodeBlockKind;
use pulldown_cmark::Options as PdOptions;
use pulldown_cmark::Parser as PdParser;
use crate::parsing::{CmEvent, CmEventView, CmTag, CmTagEnd, CellAlignment, cm_views};

verus! {

#[verifier::external_type_specification]
#[verifier::external_body]
pub struct ExPdEvent<'a>(PdEvent<'a>);

#[verifier::external_type_specification]
#[verifier::external_body]
pub struct ExPdTag<'a>(PdTag<'a>);

#[verifier::external_type_specification]
#[verifier::external_body]
pub struct ExPdTagEnd(PdTagEnd);

#[verifier::external_type_specification]
#[verifier::external_body]
pub struct ExPdAlignment(PdAlignment);

/// The events, with the byte offset at which each starts in the source, that
/// `pulldown-cmark` produces for `markdown` with tables, footnotes,
/// strikethrough, task lists and definition lists enabled.
pub uninterp spec fn cmark_events(markdown: Seq<char>) -> Seq<(CmEventView, usize)>;

/// Parses `markdown` with `PdParser::new_ext` (tables,
/// footnotes, strikethrough, task lists and definition lists enabled) and
/// returns its offset events (`Parser::into_offset_iter`), each converted to a
/// [`CmEvent`] and paired with the start of its source range.
///
/// Trusted: the contract claims only that the result is a function of the
/// markdown text alone, named [`cmark_events`]; what that function is on given
/// text is the parser's behaviour and is not stated.
#[verifier::external_body]
pub(crate) fn cmark_parse(markdown: &str) -> (r: Vec<(CmEvent, usize)>)
    ensures
        cm_views(r@) == cmark_events(markdown@),
{
    let options = PdOptions::ENABLE_TABLES | PdOptions::ENABLE_FOOTNOTES | PdOptions::ENABLE_STRIKETHROUGH
        | PdOptions::ENABLE_TASKLISTS | PdOptions::ENABLE_DEFINITION_LIST;
    PdParser::new_ext(markdown, options)
        .into_offset_iter()
        .map(|(event, range)| (cm_event(event), range.start))
        .collect()
}

/// Converts a `pulldown_cmark::Event`, variant for variant, into a [`CmEvent`],
/// passing the variants that carry text to [`cm_text_event`] (part of the
/// conversion that [`cmark_parse`] performs).
#[verifier::external_body]
fn cm_event(e: PdEvent<'_>) -> CmEvent {
    match e {
        PdEvent::Start(t) => CmEvent::Start(cm_tag(t)),
        PdEvent::End(t) => CmEvent::End(cm_tag_end(t)),
        PdEvent::SoftBreak => CmEvent::SoftBreak,
        PdEvent::HardBreak => CmEvent::HardBreak,
        PdEvent::Rule => CmEvent::Rule,
        PdEvent::TaskListMarker(b) => CmEvent::TaskListMarker(b),
        other => cm_text_event(other),
    }
}

/// Converts the variants of a `pulldown_cmark::Event` that carry text into a
/// [`CmEvent`] (part of the conversion that [`cmark_parse`] performs).
#[verifier::external_body]
fn cm_text_event(e: PdEvent<'_>) -> CmEvent {
    match e {
        PdEvent::Code(s) => CmEvent::Code(s.to_string()),
        PdEvent::InlineMath(s) => CmEvent::InlineMath(s.to_string()),
        PdEvent::DisplayMath(s) => CmEvent::DisplayMath(s.to_string()),
        PdEvent::Html(s) => CmEvent::Html(s.to_string()),
        PdEvent::InlineHtml(s) => CmEvent::InlineHtml(s.to_string()),
        PdEvent::FootnoteReference(s) => CmEvent::FootnoteReference(s.to_string()),
        PdEvent::Text(s) => CmEvent::Text(s.to_string()),
        _ => CmEvent::SoftBreak,
    }
}

/// Converts the block-level variants of a `pulldown_cmark::Tag` into a
/// [`CmTag`], passing the others to [`cm_tag_more`] (part of the conversion
/// that [`cmark_parse`] performs).
#[verifier::external_body]
fn cm_tag(t: PdTag<'_>) -> CmTag {
    match t {
        PdTag::Paragraph => CmTag::Paragraph,
        PdTag::Heading { level, .. } => CmTag::Heading(level as u8),
        PdTag::BlockQuote(_) => CmTag::BlockQuote,
        PdTag::CodeBlock(PdCodeBlockKind::Fenced(info)) => CmTag::CodeBlock(Some(info.to_string())),
        PdTag::CodeBlock(PdCodeBlockKind::Indented) => CmTag::CodeBlock(None),
        PdTag::HtmlBlock => CmTag::HtmlBlock,
        PdTag::List(start) => CmTag::List(start),
        PdTag::Item => CmTag::Item,
        PdTag::FootnoteDefinition(label) => CmTag::FootnoteDefinition(label.to_string()),
        PdTag::DefinitionList => CmTag::DefinitionList,
        PdTag::DefinitionListTitle => CmTag::DefinitionListTitle,
        PdTag::DefinitionListDefinition => CmTag::DefinitionListDefinition,
        other => cm_tag_more(other),
    }
}

/// Converts the table, inline and metadata variants of a `pulldown_cmark::Tag`
/// into a [`CmTag`] (part of the conversion that [`cmark_parse`] performs).
#[verifier::external_body]
fn cm_tag_more(t: PdTag<'_>) -> CmTag {
    match t {
        PdTag::Table(a) => CmTag::Table(a.into_iter().map(cm_alignment).collect()),
        PdTag::TableHead => CmTag::TableHead,
        PdTag::TableRow => CmTag::TableRow,
        PdTag::TableCell => CmTag::TableCell,
        PdTag::Emphasis => CmTag::Emphasis,
        PdTag::Strong => CmTag::Strong,
        PdTag::Strikethrough => CmTag::Strikethrough,
        PdTag::Link { dest_url, .. } => CmTag::Link(dest_url.to_string()),
        PdTag::Image { dest_url, .. } => CmTag::Image(dest_url.to_string()),
        PdTag::MetadataBlock(_) => CmTag::MetadataBlock,
        _ => CmTag::Paragraph,
    }
}

/// Converts a `PdAlignment` into a [`CellAlignment`] (part of
/// the conversion that [`cmark_parse`] performs).
#[verifier::external_body]
fn cm_alignment(a: PdAlignment) -> CellAlignment {
    match a {
        PdAlignment::None => CellAlignment::Unaligned,
        PdAlignment::Left => CellAlignment::Left,
        PdAlignment::Center => CellAlignment::Center,
        PdAlignment::Right => CellAlignment::Right,
    }
}

/// Converts the block-level variants of a `PdTagEnd` into a
/// [`CmTagEnd`], passing the others to [`cm_tag_end_more`] (part of the
/// conversion that [`cmark_parse`] performs).
#[verifier::external_body]
fn cm_tag_end(t: PdTagEnd) -> CmTagEnd {
    match t {
        PdTagEnd::Paragraph => CmTagEnd::Paragraph,
        PdTagEnd::Heading(_) => CmTagEnd::Heading,
        PdTagEnd::BlockQuote(_) => CmTagEnd::BlockQuote,
        PdTagEnd::CodeBlock => CmTagEnd::CodeBlock,
        PdTagEnd::HtmlBlock => CmTagEnd::HtmlBlock,
        PdTagEnd::List(_) => CmTagEnd::List,
        PdTagEnd::Item => CmTagEnd::Item,
        PdTagEnd::FootnoteDefinition => CmTagEnd::FootnoteDefinition,
        PdTagEnd::DefinitionList => CmTagEnd::DefinitionList,
        PdTagEnd::DefinitionListTitle => CmTagEnd::DefinitionListTitle,
        PdTagEnd::DefinitionListDefinition => CmTagEnd::DefinitionListDefinition,
        other => cm_tag_end_more(other),
    }
}

/// Converts the table, inline and metadata variants of a
/// `PdTagEnd` into a [`CmTagEnd`] (part of the conversion that
/// [`cmark_parse`] performs).
#[verifier::external_body]
fn cm_tag_end_more(t: PdTagEnd) -> CmTagEnd {
    match t {
        PdTagEnd::Table => CmTagEnd::Table,
        PdTagEnd::TableHead => CmTagEnd::TableHead,
        PdTagEnd::TableRow => CmTagEnd::TableRow,
        PdTagEnd::TableCell => CmTagEnd::TableCell,
        PdTagEnd::Emphasis => CmTagEnd::Emphasis,
        PdTagEnd::Strong => CmTagEnd::Strong,
        PdTagEnd::Strikethrough => CmTagEnd::Strikethrough,
        PdTagEnd::Link => CmTagEnd::Link,
        PdTagEnd::Image => CmTagEnd::Image,
        PdTagEnd::MetadataBlock(_) => CmTagEnd::MetadataBlock,
        _ => CmTagEnd::Paragraph,
    }
}

} // verus!
