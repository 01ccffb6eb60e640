//! Markdown parsing: the event vocabulary the renderer consumes, and its
//! construction from the events of the `pulldown-cmark` parser.
use vstd::prelude::*;
use crate::text::push_str;
use crate::cmark::cmark_events;
use vstd::utf8::encode_utf8;

verus! {

/// Table column alignment.
#[derive(Debug, Clone, Copy, PartialEq, Eq, Structural)]
pub enum CellAlignment {
    /// No alignment given
    Unaligned,
    /// Left aligned
    Left,
    /// Centered
    Center,
    /// Right aligned
    Right,
}

/// Block elements in markdown.
#[derive(Debug, Clone, PartialEq)]
pub enum Block {
    /// Heading with level (1-6)
    Heading { level: u8, text: String },
    /// Paragraph
    Paragraph,
    /// Block quote
    BlockQuote,
    /// Code block, with the info string of a fenced block
    CodeBlock { info: Option<String> },
    /// List; `start` is the first number of an ordered list
    List { start: Option<u64> },
    /// List item
    ListItem,
    /// Table with its column alignments
    Table { alignments: Vec<CellAlignment> },
    /// Table header row group
    TableHead,
    /// Table row
    TableRow,
    /// Table cell
    TableCell,
    /// Footnote definition with its label
    FootnoteDefinition { label: String },
    /// Definition list
    DefinitionList,
    /// Term of a definition list
    DefinitionListTitle,
    /// Definition of a definition list entry
    DefinitionListDefinition,
}

/// Events produced by the markdown parser for rendering.
#[derive(Debug, Clone, PartialEq)]
pub enum Event {
    /// Start of a block element
    Start(Block),
    /// End of a block element
    End(Block),
    /// Text content
    Text(String),
    /// Soft break (space between words)
    SoftBreak,
    /// Hard break (line break)
    HardBreak,
    /// Horizontal rule, with the marker character used in the source
    Rule(char),
    /// Start of strong emphasis (bold)
    StrongStart,
    /// End of strong emphasis (bold)
    StrongEnd,
    /// Start of emphasis (italics)
    EmphasisStart,
    /// End of emphasis (italics)
    EmphasisEnd,
    /// Start of strikethrough
    StrikethroughStart,
    /// End of strikethrough
    StrikethroughEnd,
    /// Inline code (backtick-enclosed)
    InlineCode(String),
    /// Raw HTML, inline or block
    RawHtml(String),
    /// Link with text and URL
    Link { text: String, url: String },
    /// Image with alt text and URL
    Image { alt: String, url: String },
    /// Task list checkbox
    TaskListMarker(bool),
    /// Footnote reference with its label
    FootnoteReference(String),
    /// Marker character of the next unordered list item ('-', '*' or '+')
    ListItemMarker(char),
}

/// The mathematical value of a [`Block`].
pub enum BlockView {
    Heading { level: u8, text: Seq<char> },
    Paragraph,
    BlockQuote,
    CodeBlock { info: Option<Seq<char>> },
    List { start: Option<u64> },
    ListItem,
    Table { alignments: Seq<CellAlignment> },
    TableHead,
    TableRow,
    TableCell,
    FootnoteDefinition { label: Seq<char> },
    DefinitionList,
    DefinitionListTitle,
    DefinitionListDefinition,
}

/// The mathematical value of an [`Event`].
pub enum EventView {
    Start(BlockView),
    End(BlockView),
    Text(Seq<char>),
    SoftBreak,
    HardBreak,
    Rule(char),
    StrongStart,
    StrongEnd,
    EmphasisStart,
    EmphasisEnd,
    StrikethroughStart,
    StrikethroughEnd,
    InlineCode(Seq<char>),
    RawHtml(Seq<char>),
    Link { text: Seq<char>, url: Seq<char> },
    Image { alt: Seq<char>, url: Seq<char> },
    TaskListMarker(bool),
    FootnoteReference(Seq<char>),
    ListItemMarker(char),
}

/// The view of an optional string.
pub open spec fn opt_view(o: Option<String>) -> Option<Seq<char>> {
    match o {
        Some(s) => Some(s@),
        None => None,
    }
}

impl View for Block {
    type V = BlockView;

    open spec fn view(&self) -> BlockView {
        match self {
            Block::Heading { level, text } => BlockView::Heading { level: *level, text: text@ },
            Block::Paragraph => BlockView::Paragraph,
            Block::BlockQuote => BlockView::BlockQuote,
            Block::CodeBlock { info } => BlockView::CodeBlock { info: opt_view(*info) },
            Block::List { start } => BlockView::List { start: *start },
            Block::ListItem => BlockView::ListItem,
            Block::Table { alignments } => BlockView::Table { alignments: alignments@ },
            Block::TableHead => BlockView::TableHead,
            Block::TableRow => BlockView::TableRow,
            Block::TableCell => BlockView::TableCell,
            Block::FootnoteDefinition { label } => BlockView::FootnoteDefinition { label: label@ },
            Block::DefinitionList => BlockView::DefinitionList,
            Block::DefinitionListTitle => BlockView::DefinitionListTitle,
            Block::DefinitionListDefinition => BlockView::DefinitionListDefinition,
        }
    }
}

impl View for Event {
    type V = EventView;

    open spec fn view(&self) -> EventView {
        match self {
            Event::Start(b) => EventView::Start(b@),
            Event::End(b) => EventView::End(b@),
            Event::Text(s) => EventView::Text(s@),
            Event::SoftBreak => EventView::SoftBreak,
            Event::HardBreak => EventView::HardBreak,
            Event::Rule(c) => EventView::Rule(*c),
            Event::StrongStart => EventView::StrongStart,
            Event::StrongEnd => EventView::StrongEnd,
            Event::EmphasisStart => EventView::EmphasisStart,
            Event::EmphasisEnd => EventView::EmphasisEnd,
            Event::StrikethroughStart => EventView::StrikethroughStart,
            Event::StrikethroughEnd => EventView::StrikethroughEnd,
            Event::InlineCode(s) => EventView::InlineCode(s@),
            Event::RawHtml(s) => EventView::RawHtml(s@),
            Event::Link { text, url } => EventView::Link { text: text@, url: url@ },
            Event::Image { alt, url } => EventView::Image { alt: alt@, url: url@ },
            Event::TaskListMarker(b) => EventView::TaskListMarker(*b),
            Event::FootnoteReference(s) => EventView::FootnoteReference(s@),
            Event::ListItemMarker(c) => EventView::ListItemMarker(*c),
        }
    }
}

/// The views of a sequence of events.
pub open spec fn event_views(s: Seq<Event>) -> Seq<EventView> {
    s.map_values(|e: Event| e@)
}

/// A tag opening an element in the `pulldown-cmark` event stream, holding the
/// fields that parsing reads.
#[derive(Debug)]
pub enum CmTag {
    Paragraph,
    /// Heading with its level
    Heading(u8),
    BlockQuote,
    /// Code block; the info string for a fenced block, `None` for an indented one
    CodeBlock(Option<String>),
    HtmlBlock,
    /// List with the first number of an ordered list
    List(Option<u64>),
    Item,
    /// Footnote definition with its label
    FootnoteDefinition(String),
    DefinitionList,
    DefinitionListTitle,
    DefinitionListDefinition,
    /// Table with its column alignments
    Table(Vec<CellAlignment>),
    TableHead,
    TableRow,
    TableCell,
    Emphasis,
    Strong,
    Strikethrough,
    /// Link with its destination URL
    Link(String),
    /// Image with its destination URL
    Image(String),
    MetadataBlock,
}

/// A tag closing an element in the `pulldown-cmark` event stream.
#[derive(Debug, Clone, Copy, PartialEq, Eq, Structural)]
pub enum CmTagEnd {
    Paragraph,
    Heading,
    BlockQuote,
    CodeBlock,
    HtmlBlock,
    List,
    Item,
    FootnoteDefinition,
    DefinitionList,
    DefinitionListTitle,
    DefinitionListDefinition,
    Table,
    TableHead,
    TableRow,
    TableCell,
    Emphasis,
    Strong,
    Strikethrough,
    Link,
    Image,
    MetadataBlock,
}

/// An event of the `pulldown-cmark` event stream, holding the fields that
/// parsing reads.
#[derive(Debug)]
pub enum CmEvent {
    Start(CmTag),
    End(CmTagEnd),
    Text(String),
    Code(String),
    InlineMath(String),
    DisplayMath(String),
    Html(String),
    InlineHtml(String),
    FootnoteReference(String),
    SoftBreak,
    HardBreak,
    Rule,
    TaskListMarker(bool),
}

/// The mathematical value of a [`CmTag`].
pub enum CmTagView {
    Paragraph,
    Heading(u8),
    BlockQuote,
    CodeBlock(Option<Seq<char>>),
    HtmlBlock,
    List(Option<u64>),
    Item,
    FootnoteDefinition(Seq<char>),
    DefinitionList,
    DefinitionListTitle,
    DefinitionListDefinition,
    Table(Seq<CellAlignment>),
    TableHead,
    TableRow,
    TableCell,
    Emphasis,
    Strong,
    Strikethrough,
    Link(Seq<char>),
    Image(Seq<char>),
    MetadataBlock,
}

/// The mathematical value of a [`CmEvent`].
pub enum CmEventView {
    Start(CmTagView),
    End(CmTagEnd),
    Text(Seq<char>),
    Code(Seq<char>),
    InlineMath(Seq<char>),
    DisplayMath(Seq<char>),
    Html(Seq<char>),
    InlineHtml(Seq<char>),
    FootnoteReference(Seq<char>),
    SoftBreak,
    HardBreak,
    Rule,
    TaskListMarker(bool),
}

impl View for CmTag {
    type V = CmTagView;

    open spec fn view(&self) -> CmTagView {
        match self {
            CmTag::Paragraph => CmTagView::Paragraph,
            CmTag::Heading(l) => CmTagView::Heading(*l),
            CmTag::BlockQuote => CmTagView::BlockQuote,
            CmTag::CodeBlock(i) => CmTagView::CodeBlock(opt_view(*i)),
            CmTag::HtmlBlock => CmTagView::HtmlBlock,
            CmTag::List(s) => CmTagView::List(*s),
            CmTag::Item => CmTagView::Item,
            CmTag::FootnoteDefinition(l) => CmTagView::FootnoteDefinition(l@),
            CmTag::DefinitionList => CmTagView::DefinitionList,
            CmTag::DefinitionListTitle => CmTagView::DefinitionListTitle,
            CmTag::DefinitionListDefinition => CmTagView::DefinitionListDefinition,
            CmTag::Table(a) => CmTagView::Table(a@),
            CmTag::TableHead => CmTagView::TableHead,
            CmTag::TableRow => CmTagView::TableRow,
            CmTag::TableCell => CmTagView::TableCell,
            CmTag::Emphasis => CmTagView::Emphasis,
            CmTag::Strong => CmTagView::Strong,
            CmTag::Strikethrough => CmTagView::Strikethrough,
            CmTag::Link(u) => CmTagView::Link(u@),
            CmTag::Image(u) => CmTagView::Image(u@),
            CmTag::MetadataBlock => CmTagView::MetadataBlock,
        }
    }
}

impl View for CmEvent {
    type V = CmEventView;

    open spec fn view(&self) -> CmEventView {
        match self {
            CmEvent::Start(t) => CmEventView::Start(t@),
            CmEvent::End(t) => CmEventView::End(*t),
            CmEvent::Text(s) => CmEventView::Text(s@),
            CmEvent::Code(s) => CmEventView::Code(s@),
            CmEvent::InlineMath(s) => CmEventView::InlineMath(s@),
            CmEvent::DisplayMath(s) => CmEventView::DisplayMath(s@),
            CmEvent::Html(s) => CmEventView::Html(s@),
            CmEvent::InlineHtml(s) => CmEventView::InlineHtml(s@),
            CmEvent::FootnoteReference(s) => CmEventView::FootnoteReference(s@),
            CmEvent::SoftBreak => CmEventView::SoftBreak,
            CmEvent::HardBreak => CmEventView::HardBreak,
            CmEvent::Rule => CmEventView::Rule,
            CmEvent::TaskListMarker(b) => CmEventView::TaskListMarker(*b),
        }
    }
}

/// The views of a parser event stream with byte offsets.
pub open spec fn cm_views(s: Seq<(CmEvent, usize)>) -> Seq<(CmEventView, usize)> {
    s.map_values(|p: (CmEvent, usize)| (p.0@, p.1))
}

} // verus!

verus! {

/// The first byte at or after index `i` of `src` that is neither a space nor a tab.
pub open spec fn first_nonblank(src: Seq<u8>, i: int) -> Option<u8>
    decreases src.len() - i,
{
    if i < 0 || i >= src.len() {
        None
    } else if src[i] == 32u8 || src[i] == 9u8 {
        first_nonblank(src, i + 1)
    } else {
        Some(src[i])
    }
}

/// The marker character of a thematic break starting at byte offset `off`:
/// the `*` or `_` it is written with, `-` otherwise.
pub open spec fn rule_marker(src: Seq<u8>, off: int) -> char {
    match first_nonblank(src, off) {
        Some(b) => if b == 42u8 {
            '*'
        } else if b == 95u8 {
            '_'
        } else {
            '-'
        },
        None => '-',
    }
}

/// The bullet character of a list item starting at byte offset `off`, if it
/// is `-`, `*` or `+`.
pub open spec fn item_marker(src: Seq<u8>, off: int) -> Option<char> {
    match first_nonblank(src, off) {
        Some(b) => if b == 45u8 {
            Some('-')
        } else if b == 42u8 {
            Some('*')
        } else if b == 43u8 {
            Some('+')
        } else {
            None
        },
        None => None,
    }
}

/// The block that an opening parser tag becomes.
pub open spec fn block_of_tag(t: CmTagView) -> BlockView {
    match t {
        CmTagView::Heading(l) => BlockView::Heading { level: l, text: Seq::empty() },
        CmTagView::BlockQuote => BlockView::BlockQuote,
        CmTagView::CodeBlock(i) => BlockView::CodeBlock { info: i },
        CmTagView::List(s) => BlockView::List { start: s },
        CmTagView::Item => BlockView::ListItem,
        CmTagView::FootnoteDefinition(l) => BlockView::FootnoteDefinition { label: l },
        CmTagView::DefinitionList => BlockView::DefinitionList,
        CmTagView::DefinitionListTitle => BlockView::DefinitionListTitle,
        CmTagView::DefinitionListDefinition => BlockView::DefinitionListDefinition,
        CmTagView::Table(a) => BlockView::Table { alignments: a },
        CmTagView::TableHead => BlockView::TableHead,
        CmTagView::TableRow => BlockView::TableRow,
        CmTagView::TableCell => BlockView::TableCell,
        _ => BlockView::Paragraph,
    }
}

/// The block that a closing parser tag becomes.
pub open spec fn block_of_tag_end(t: CmTagEnd) -> BlockView {
    match t {
        CmTagEnd::Heading => BlockView::Heading { level: 1, text: Seq::empty() },
        CmTagEnd::BlockQuote => BlockView::BlockQuote,
        CmTagEnd::CodeBlock => BlockView::CodeBlock { info: None },
        CmTagEnd::List => BlockView::List { start: None },
        CmTagEnd::Item => BlockView::ListItem,
        CmTagEnd::FootnoteDefinition => BlockView::FootnoteDefinition { label: Seq::empty() },
        CmTagEnd::DefinitionList => BlockView::DefinitionList,
        CmTagEnd::DefinitionListTitle => BlockView::DefinitionListTitle,
        CmTagEnd::DefinitionListDefinition => BlockView::DefinitionListDefinition,
        CmTagEnd::Table => BlockView::Table { alignments: Seq::empty() },
        CmTagEnd::TableHead => BlockView::TableHead,
        CmTagEnd::TableRow => BlockView::TableRow,
        CmTagEnd::TableCell => BlockView::TableCell,
        _ => BlockView::Paragraph,
    }
}

/// Parsing state: the open link or image (whether it is a link, whether it
/// is an image, its URL) and the text collected inside it.
pub type LinkState = (Option<(bool, bool, Seq<char>)>, Seq<char>);

/// The events emitted for one parser event, and the state after it.
pub open spec fn parse_step(src: Seq<u8>, st: LinkState, ev: CmEventView, off: int) -> (Seq<EventView>, LinkState) {
    let (link, text) = st;
    match ev {
        CmEventView::Start(t) => match t {
            CmTagView::Link(url) => (Seq::empty(), (Some((true, false, url)), Seq::empty())),
            CmTagView::Image(url) => (Seq::empty(), (Some((false, true, url)), Seq::empty())),
            CmTagView::Strong => (seq![EventView::StrongStart], st),
            CmTagView::Emphasis => (seq![EventView::EmphasisStart], st),
            CmTagView::Strikethrough => (seq![EventView::StrikethroughStart], st),
            CmTagView::Item => match item_marker(src, off) {
                Some(c) => (seq![EventView::ListItemMarker(c), EventView::Start(BlockView::ListItem)], st),
                None => (seq![EventView::Start(BlockView::ListItem)], st),
            },
            _ => (seq![EventView::Start(block_of_tag(t))], st),
        },
        CmEventView::End(t) => match t {
            CmTagEnd::Link => {
                let out = match link {
                    Some((true, false, url)) => seq![EventView::Link { text: text, url: url }],
                    _ => if text.len() > 0 { seq![EventView::Text(text)] } else { Seq::empty() },
                };
                (out, (None, Seq::empty()))
            },
            CmTagEnd::Image => {
                let out = match link {
                    Some((false, true, url)) => seq![EventView::Image { alt: text, url: url }],
                    _ => if text.len() > 0 { seq![EventView::Text(text)] } else { Seq::empty() },
                };
                (out, (None, Seq::empty()))
            },
            CmTagEnd::Strong => (seq![EventView::StrongEnd], st),
            CmTagEnd::Emphasis => (seq![EventView::EmphasisEnd], st),
            CmTagEnd::Strikethrough => (seq![EventView::StrikethroughEnd], st),
            _ => (seq![EventView::End(block_of_tag_end(t))], st),
        },
        CmEventView::Text(s) => if link is Some {
            (Seq::empty(), (link, text + s))
        } else {
            (seq![EventView::Text(s)], st)
        },
        CmEventView::SoftBreak => (seq![EventView::SoftBreak], st),
        CmEventView::HardBreak => (seq![EventView::HardBreak], st),
        CmEventView::Rule => (seq![EventView::Rule(rule_marker(src, off))], st),
        CmEventView::Code(s) => (seq![EventView::InlineCode(s)], st),
        CmEventView::InlineMath(_) => (seq![EventView::Text(Seq::empty())], st),
        CmEventView::DisplayMath(_) => (seq![EventView::Text(Seq::empty())], st),
        CmEventView::Html(s) => (seq![EventView::RawHtml(s)], st),
        CmEventView::InlineHtml(s) => (seq![EventView::RawHtml(s)], st),
        CmEventView::FootnoteReference(s) => (seq![EventView::FootnoteReference(s)], st),
        CmEventView::TaskListMarker(b) => (seq![EventView::TaskListMarker(b)], st),
    }
}

/// The events emitted for the first `k` parser events, and the state after them.
pub open spec fn parse_prefix(src: Seq<u8>, raw: Seq<(CmEventView, usize)>, k: int) -> (Seq<EventView>, LinkState)
    decreases k,
{
    if k <= 0 {
        (Seq::empty(), (None, Seq::empty()))
    } else {
        let (out, st) = parse_prefix(src, raw, k - 1);
        let (more, st2) = parse_step(src, st, raw[k - 1].0, raw[k - 1].1 as int);
        (out + more, st2)
    }
}

/// The events for the parser event stream `raw` of the source bytes `src`.
pub open spec fn parse_events(src: Seq<u8>, raw: Seq<(CmEventView, usize)>) -> Seq<EventView> {
    parse_prefix(src, raw, raw.len() as int).0
}

} // verus!

verus! {

fn first_nonblank_exec(src: &[u8], i: usize) -> (r: Option<u8>)
    ensures
        r == first_nonblank(src@, i as int),
{
    let mut j = i;
    while j < src.len() && (src[j] == 32u8 || src[j] == 9u8)
        invariant
            i <= j,
            first_nonblank(src@, i as int) == first_nonblank(src@, j as int),
        decreases src.len() - j,
    {
        j = j + 1;
    }
    if j < src.len() {
        Some(src[j])
    } else {
        None
    }
}

fn clone_opt_string(o: &Option<String>) -> (r: Option<String>)
    ensures
        opt_view(r) == opt_view(*o),
{
    match o {
        Some(s) => Some(s.clone()),
        None => None,
    }
}

fn clone_alignments(a: &Vec<CellAlignment>) -> (r: Vec<CellAlignment>)
    ensures
        r@ == a@,
{
    let mut r: Vec<CellAlignment> = Vec::new();
    let mut i: usize = 0;
    while i < a.len()
        invariant
            i <= a.len(),
            r@ == a@.take(i as int),
        decreases a.len() - i,
    {
        r.push(a[i]);
        assert(a@.take(i + 1) == a@.take(i as int).push(a@[i as int]));
        i = i + 1;
    }
    assert(a@.take(a.len() as int) == a@);
    r
}

/// The block that an opening parser tag becomes.
fn convert_tag(t: &CmTag) -> (b: Block)
    ensures
        b@ == block_of_tag(t@),
{
    match t {
        CmTag::Heading(level) => Block::Heading { level: *level, text: String::new() },
        CmTag::BlockQuote => Block::BlockQuote,
        CmTag::CodeBlock(info) => Block::CodeBlock { info: clone_opt_string(info) },
        CmTag::List(start) => Block::List { start: *start },
        CmTag::Item => Block::ListItem,
        CmTag::FootnoteDefinition(label) => Block::FootnoteDefinition { label: label.clone() },
        CmTag::DefinitionList => Block::DefinitionList,
        CmTag::DefinitionListTitle => Block::DefinitionListTitle,
        CmTag::DefinitionListDefinition => Block::DefinitionListDefinition,
        CmTag::Table(a) => Block::Table { alignments: clone_alignments(a) },
        CmTag::TableHead => Block::TableHead,
        CmTag::TableRow => Block::TableRow,
        CmTag::TableCell => Block::TableCell,
        _ => Block::Paragraph,
    }
}

/// The block that a closing parser tag becomes.
fn convert_tag_end(t: CmTagEnd) -> (b: Block)
    ensures
        b@ == block_of_tag_end(t),
{
    match t {
        CmTagEnd::Heading => Block::Heading { level: 1, text: String::new() },
        CmTagEnd::BlockQuote => Block::BlockQuote,
        CmTagEnd::CodeBlock => Block::CodeBlock { info: None },
        CmTagEnd::List => Block::List { start: None },
        CmTagEnd::Item => Block::ListItem,
        CmTagEnd::FootnoteDefinition => Block::FootnoteDefinition { label: String::new() },
        CmTagEnd::DefinitionList => Block::DefinitionList,
        CmTagEnd::DefinitionListTitle => Block::DefinitionListTitle,
        CmTagEnd::DefinitionListDefinition => Block::DefinitionListDefinition,
        CmTagEnd::Table => Block::Table { alignments: Vec::new() },
        CmTagEnd::TableHead => Block::TableHead,
        CmTagEnd::TableRow => Block::TableRow,
        CmTagEnd::TableCell => Block::TableCell,
        _ => Block::Paragraph,
    }
}

/// Builds the event stream for `markdown` from the parser's event stream
/// `raw` for it: links and images gather the text inside them, emphasis,
/// strong and strikethrough become start/end markers, thematic breaks and
/// bullet list items carry their source marker, HTML passes through raw.
#[verifier::rlimit(100)]
#[verifier::spinoff_prover]
pub fn events_from_cmark(markdown: &str, raw: &Vec<(CmEvent, usize)>) -> (r: Vec<Event>)
    ensures
        event_views(r@) == parse_events(encode_utf8(markdown@), cm_views(raw@)),
{
    let src = markdown.as_bytes();
    let mut out: Vec<Event> = Vec::new();
    let mut link: Option<(bool, bool, String)> = None;
    let mut text: Vec<char> = Vec::new();
    let ghost raw_v = cm_views(raw@);
    let mut i: usize = 0;
    while i < raw.len()
        invariant
            i <= raw.len(),
            raw_v == cm_views(raw@),
            src@ == encode_utf8(markdown@),
            ({
                let (o, st) = parse_prefix(src@, raw_v, i as int);
                &&& event_views(out@) == o
                &&& st.1 == text@
                &&& st.0 == match link {
                    Some((a, b, u)) => Some((a, b, u@)),
                    None => None,
                }
            }),
        decreases raw.len() - i,
    {
        let ghost before = event_views(out@);
        let ghost st = parse_prefix(src@, raw_v, i as int).1;
        let off = raw[i].1;
        assert(raw_v[i as int] == (raw@[i as int].0@, off));
        match &raw[i].0 {
            CmEvent::Start(t) => match t {
                CmTag::Link(url) => {
                    link = Some((true, false, url.clone()));
                    text = Vec::new();
                },
                CmTag::Image(url) => {
                    link = Some((false, true, url.clone()));
                    text = Vec::new();
                },
                CmTag::Strong => out.push(Event::StrongStart),
                CmTag::Emphasis => out.push(Event::EmphasisStart),
                CmTag::Strikethrough => out.push(Event::StrikethroughStart),
                CmTag::Item => {
                    match first_nonblank_exec(src, off) {
                        Some(b) => {
                            if b == 45u8 {
                                out.push(Event::ListItemMarker('-'));
                            } else if b == 42u8 {
                                out.push(Event::ListItemMarker('*'));
                            } else if b == 43u8 {
                                out.push(Event::ListItemMarker('+'));
                            }
                        },
                        None => {},
                    }
                    out.push(Event::Start(Block::ListItem));
                },
                _ => out.push(Event::Start(convert_tag(t))),
            },
            CmEvent::End(t) => match t {
                CmTagEnd::Link => {
                    match &link {
                        Some((true, false, url)) => {
                            out.push(Event::Link { text: string_of_chars(&text), url: url.clone() });
                        },
                        _ => {
                            if text.len() > 0 {
                                out.push(Event::Text(string_of_chars(&text)));
                            }
                        },
                    }
                    link = None;
                    text = Vec::new();
                },
                CmTagEnd::Image => {
                    match &link {
                        Some((false, true, url)) => {
                            out.push(Event::Image { alt: string_of_chars(&text), url: url.clone() });
                        },
                        _ => {
                            if text.len() > 0 {
                                out.push(Event::Text(string_of_chars(&text)));
                            }
                        },
                    }
                    link = None;
                    text = Vec::new();
                },
                CmTagEnd::Strong => out.push(Event::StrongEnd),
                CmTagEnd::Emphasis => out.push(Event::EmphasisEnd),
                CmTagEnd::Strikethrough => out.push(Event::StrikethroughEnd),
                _ => out.push(Event::End(convert_tag_end(*t))),
            },
            CmEvent::Text(s) => {
                if link.is_some() {
                    push_str(&mut text, s.as_str());
                } else {
                    out.push(Event::Text(s.clone()));
                }
            },
            CmEvent::SoftBreak => out.push(Event::SoftBreak),
            CmEvent::HardBreak => out.push(Event::HardBreak),
            CmEvent::Rule => {
                let marker = match first_nonblank_exec(src, off) {
                    Some(b) => if b == 42u8 {
                        '*'
                    } else if b == 95u8 {
                        '_'
                    } else {
                        '-'
                    },
                    None => '-',
                };
                out.push(Event::Rule(marker));
            },
            CmEvent::Code(s) => out.push(Event::InlineCode(s.clone())),
            CmEvent::InlineMath(_) => out.push(Event::Text(String::new())),
            CmEvent::DisplayMath(_) => out.push(Event::Text(String::new())),
            CmEvent::Html(s) => out.push(Event::RawHtml(s.clone())),
            CmEvent::InlineHtml(s) => out.push(Event::RawHtml(s.clone())),
            CmEvent::FootnoteReference(s) => out.push(Event::FootnoteReference(s.clone())),
            CmEvent::TaskListMarker(b) => out.push(Event::TaskListMarker(*b)),
        }
        proof {
            let (more, st2) = parse_step(src@, st, raw_v[i as int].0, off as int);
            assert(event_views(out@) =~= before + more);
        }
        i = i + 1;
    }
    proof {
        assert(raw_v.len() == raw@.len());
    }
    out
}

fn string_of_chars(v: &Vec<char>) -> (s: String)
    ensures
        s@ == v@,
{
    crate::text::string_of(v)
}

/// Parse markdown text into the event stream that the renderer consumes.
pub fn parse_markdown(markdown: &str) -> (r: Vec<Event>)
    ensures
        event_views(r@) == parse_events(encode_utf8(markdown@), cmark_events(markdown@)),
{
    let raw = crate::cmark::cmark_parse(markdown);
    events_from_cmark(markdown, &raw)
}

} // verus!
