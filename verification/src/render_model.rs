//! The renderer's state and its transitions, as mathematical functions of
//! the state and the event being rendered.
use vstd::prelude::*;
use crate::parsing::{BlockView, CellAlignment, EventView};
use crate::text::decimal;
use crate::textops::{sat, width_of, is_ws, trim, trim_end, split_whitespace, ends_with,
    starts_with, needs_space_before, ends_with_visible_space, ends_with_open_html_tag,
    is_quote_line, is_quote_prefix_only, strike_through, longest_backtick_run, repeat,
    visible_width, strip_ansi, display_width, char_width};

verus! {

/// The state of a renderer.
#[verifier::ext_equal]
pub struct RenderState {
    /// Render width
    pub width: nat,
    /// Display column reached on the current line
    pub cursor_col: nat,
    /// Completed output lines
    pub lines: Seq<Seq<char>>,
    /// The line being built
    pub current_line: Seq<char>,
    /// Level of the open heading (0 outside headings)
    pub heading_level: u8,
    /// Text of the open heading
    pub heading_text: Seq<char>,
    /// Inside a code block
    pub in_code_block: bool,
    /// Strikethrough is drawn with a combining overlay rather than an ANSI code
    pub strikethrough_fallback: bool,
    /// Inside a strikethrough span drawn with the overlay
    pub in_strikethrough: bool,
    /// Info string of the open code block
    pub code_block_info: Option<Seq<char>>,
    /// Inside a block quote
    pub in_block_quote: bool,
    /// Block quote nesting depth
    pub block_quote_depth: nat,
    /// Character drawn for each level of block quote
    pub block_quote_prefix: char,
    /// Inside a list
    pub in_list: bool,
    /// The innermost list is ordered
    pub list_is_ordered: bool,
    /// Next item number of the innermost ordered list
    pub list_item_number: u64,
    /// Open lists, innermost last: (ordered, next item number)
    pub list_stack: Seq<(bool, u64)>,
    /// Nesting depth of the innermost list (0 for a top-level list)
    pub list_depth: nat,
    /// Source marker of the next unordered list item
    pub pending_marker: Option<char>,
    /// Display width that wrapped lines of the current list item are indented by
    pub continuation_indent: nat,
    /// Inside a table
    pub in_table: bool,
    /// Column alignments of the open table
    pub table_alignments: Seq<CellAlignment>,
    /// Completed rows of the open table
    pub table_rows: Seq<Seq<Seq<char>>>,
    /// Cells of the row being built
    pub current_table_row: Seq<Seq<char>>,
    /// Text of the cell being built
    pub current_table_cell: Seq<char>,
    /// Inside a table cell
    pub in_table_cell: bool,
    /// Inside a definition list
    pub in_definition_list: bool,
    /// Inside a definition of a definition list
    pub in_definition_entry: bool,
    /// Tables wider than the width are laid out as plain entries instead of
    /// a box with wrapped cells
    pub flatten_wide_tables: bool,
    /// Where the renderer stands between blocks
    pub marks: BlockMarks,
}

/// Where a renderer stands between blocks.
#[derive(Clone, Copy)]
pub struct BlockMarks {
    /// The last block ended was a heading
    pub after_heading: bool,
    /// The footnote section has begun
    pub footnotes_started: bool,
    /// Inside a footnote definition
    pub in_footnote: bool,
}

/// No heading just ended, no footnote seen.
pub open spec fn no_marks() -> BlockMarks {
    BlockMarks { after_heading: false, footnotes_started: false, in_footnote: false }
}

/// ANSI code that starts bold text.
pub open spec fn esc_bold() -> Seq<char> { seq!['\x1b', '[', '1', 'm'] }

/// ANSI code that starts italic text.
pub open spec fn esc_italic() -> Seq<char> { seq!['\x1b', '[', '3', 'm'] }

/// ANSI code that starts faint text.
pub open spec fn esc_faint() -> Seq<char> { seq!['\x1b', '[', '2', 'm'] }

/// ANSI code that starts struck-through text.
pub open spec fn esc_strike() -> Seq<char> { seq!['\x1b', '[', '9', 'm'] }

/// ANSI code that ends bold text.
pub open spec fn esc_bold_off() -> Seq<char> { seq!['\x1b', '[', '2', '2', 'm'] }

/// ANSI code that ends italic text.
pub open spec fn esc_italic_off() -> Seq<char> { seq!['\x1b', '[', '2', '3', 'm'] }

/// ANSI code that ends struck-through text.
pub open spec fn esc_strike_off() -> Seq<char> { seq!['\x1b', '[', '2', '9', 'm'] }

/// ANSI code that resets all styling.
pub open spec fn esc_reset() -> Seq<char> { seq!['\x1b', '[', '0', 'm'] }

/// A code fence.
pub open spec fn fence() -> Seq<char> { seq!['`', '`', '`'] }

/// The initial state of a renderer of the given width.
pub open spec fn initial_state(width: nat) -> RenderState {
    RenderState {
        width: width,
        cursor_col: 0,
        lines: Seq::empty(),
        current_line: Seq::empty(),
        heading_level: 0,
        heading_text: Seq::empty(),
        in_code_block: false,
        strikethrough_fallback: true,
        in_strikethrough: false,
        code_block_info: None,
        in_block_quote: false,
        block_quote_depth: 0,
        block_quote_prefix: '│',
        in_list: false,
        list_is_ordered: false,
        list_item_number: 0,
        list_stack: Seq::empty(),
        list_depth: 0,
        pending_marker: None,
        continuation_indent: 0,
        in_table: false,
        table_alignments: Seq::empty(),
        table_rows: Seq::empty(),
        current_table_row: Seq::empty(),
        current_table_cell: Seq::empty(),
        in_table_cell: false,
        in_definition_list: false,
        in_definition_entry: false,
        flatten_wide_tables: false,
        marks: no_marks(),
    }
}

/// The state at the start of `render`: everything reset but the width, the
/// strikethrough mode, the wide-table mode and the quote prefix character.
pub open spec fn reset_state(s: RenderState) -> RenderState {
    RenderState {
        width: s.width,
        strikethrough_fallback: s.strikethrough_fallback,
        flatten_wide_tables: s.flatten_wide_tables,
        block_quote_prefix: s.block_quote_prefix,
        ..initial_state(s.width)
    }
}

/// The block quote prefix: the quote character and a space per level.
pub open spec fn quote_prefix(s: RenderState) -> Seq<char> {
    Seq::new(2 * s.block_quote_depth, |i: int| if i % 2 == 0 { s.block_quote_prefix } else { ' ' })
}

/// Appends `t` to the current line, advancing the cursor by `w`.
pub open spec fn put(s: RenderState, t: Seq<char>, w: nat) -> RenderState {
    RenderState { current_line: s.current_line + t, cursor_col: sat(s.cursor_col + w as int), ..s }
}

/// Appends `t` to the current line, advancing the cursor by its display width.
pub open spec fn put_text(s: RenderState, t: Seq<char>) -> RenderState {
    put(s, t, width_of(t))
}

/// Appends `t` to the current line, leaving the cursor.
pub open spec fn put_code(s: RenderState, t: Seq<char>) -> RenderState {
    RenderState { current_line: s.current_line + t, ..s }
}

/// Appends a style code: to the table cell being built inside one, to the
/// current line otherwise.
pub open spec fn put_style(s: RenderState, t: Seq<char>) -> RenderState {
    if s.in_table_cell {
        RenderState { current_table_cell: s.current_table_cell + t, ..s }
    } else {
        put_code(s, t)
    }
}

/// Appends the block quote prefix to the current line.
pub open spec fn push_quote_prefix(s: RenderState) -> RenderState {
    put_text(s, quote_prefix(s))
}

/// Moves the current line to the output, leaving an empty current line.
pub open spec fn flush_line(s: RenderState) -> RenderState {
    RenderState { lines: s.lines.push(s.current_line), current_line: Seq::empty(), ..s }
}

/// Flushes the current line when it holds anything, resetting the cursor.
pub open spec fn flush_if_any(s: RenderState) -> RenderState {
    if s.current_line.len() > 0 {
        RenderState { cursor_col: 0, ..flush_line(s) }
    } else {
        s
    }
}

/// Sets the current line to `n` spaces of list continuation indent.
pub open spec fn indent_to(s: RenderState, n: nat) -> RenderState {
    RenderState { current_line: s.current_line + repeat(' ', n), cursor_col: n, ..s }
}

/// A hard line break: the current line goes to the output and the next one
/// starts with the quote prefix or the list continuation indent.
#[verifier::opaque]
pub open spec fn newline(s: RenderState) -> RenderState {
    let s1 = RenderState { cursor_col: 0, ..flush_line(s) };
    if s1.in_block_quote {
        push_quote_prefix(s1)
    } else if s1.in_list && s1.continuation_indent > 0 {
        indent_to(s1, s1.continuation_indent)
    } else {
        s1
    }
}

/// Starts a new line for an element `w` columns wide that would pass the
/// width, dropping the space that ended the line.
pub open spec fn wrap_for(s: RenderState, w: nat) -> RenderState {
    if s.cursor_col > 0 && s.cursor_col + w > s.width {
        if ends_with(s.current_line, ' ') {
            newline(RenderState {
                current_line: s.current_line.drop_last(),
                cursor_col: (s.cursor_col - 1) as nat,
                ..s
            })
        } else {
            newline(s)
        }
    } else {
        s
    }
}

/// Inserts a space before an inline element unless the line is empty or
/// already ends with a space, opening punctuation or an exclamation mark.
#[verifier::opaque]
pub open spec fn space_before_inline(s: RenderState) -> RenderState {
    if s.cursor_col == 0 || ends_with(s.current_line, ' ') {
        s
    } else if ends_with(s.current_line, '(') || ends_with(s.current_line, '[') || ends_with(s.current_line, '!') || ends_with(
        s.current_line,
        '{',
    ) || ends_with(s.current_line, '/') {
        s
    } else {
        put(s, seq![' '], 1)
    }
}

/// Code text: characters go to the current line as they are, each line
/// break is a hard line break.
#[verifier::opaque]
pub open spec fn code_text(s: RenderState, t: Seq<char>) -> RenderState
    decreases t.len(),
{
    if t.len() == 0 {
        s
    } else {
        let s1 = code_text(s, t.drop_last());
        if t.last() == '\n' {
            newline(s1)
        } else {
            put(s1, seq![t.last()], crate::textops::char_width(t.last()))
        }
    }
}

/// Adds a word to a table cell, after a space when `space` asks for one and
/// the cell does not already end with one.
pub open spec fn cell_add_word(cell: Seq<char>, word: Seq<char>, space: bool) -> Seq<char> {
    (if space && cell.len() > 0 && !ends_with(cell, ' ') { cell.push(' ') } else { cell }) + word
}

/// Adds the words of a text fragment to a table cell; the first is preceded
/// by a space only when the fragment starts with whitespace.
pub open spec fn cell_add_words(cell: Seq<char>, words: Seq<Seq<char>>, leading: bool) -> Seq<char>
    decreases words.len(),
{
    if words.len() == 0 {
        cell
    } else {
        cell_add_word(cell_add_words(cell, words.drop_last(), leading), words.last(),
            if words.len() == 1 { leading } else { true })
    }
}

/// A text fragment added to a table cell, keeping a space after it when it
/// ends with whitespace.
pub open spec fn cell_add_text(cell: Seq<char>, p: Seq<char>) -> Seq<char> {
    let leading = p.len() > 0 && is_ws(p[0]);
    let trailing = p.len() > 0 && is_ws(p.last());
    let c = cell_add_words(cell, split_whitespace(p), leading);
    if trailing && c.len() > 0 && !ends_with(c, ' ') { c.push(' ') } else { c }
}

/// Whether a word is a web address: it starts with `http://` or `https://`.
pub open spec fn is_web_address(word: Seq<char>) -> bool {
    (word.len() >= 7 && word.take(7) == seq!['h', 't', 't', 'p', ':', '/', '/'])
        || (word.len() >= 8 && word.take(8) == seq!['h', 't', 't', 'p', 's', ':', '/', '/'])
}

/// ANSI code that starts underlined text.
pub open spec fn esc_underline() -> Seq<char> { seq!['\x1b', '[', '4', 'm'] }

/// ANSI code that ends underlined text.
pub open spec fn esc_underline_off() -> Seq<char> { seq!['\x1b', '[', '2', '4', 'm'] }

/// How a word of flowing text is shown: a web address underlined, any other
/// word as it is.
pub open spec fn shown_word(word: Seq<char>) -> Seq<char> {
    if is_web_address(word) { esc_underline() + word + esc_underline_off() } else { word }
}

/// Places one word of flowing text: wraps when the word with its separating
/// space would pass the width, then adds the space and the word. Words of a
/// fragment after its first are always set off by a space; the first one
/// (when the fragment starts with whitespace) unless it starts with closing
/// punctuation.
#[verifier::opaque]
pub open spec fn place_word(s: RenderState, word: Seq<char>, space_before: bool, first: bool) -> RenderState {
    let w = width_of(word);
    let ns = !first || needs_space_before(word);
    let needs_leading = s.cursor_col > 0 && space_before && !ends_with_visible_space(s.current_line) && ns;
    let s1 = if s.cursor_col > 0 && s.cursor_col + w + (if needs_leading { 1int } else { 0int })
        > s.width && needs_leading {
        newline(s)
    } else {
        s
    };
    let s2 = if s1.cursor_col > 0 && space_before && !ends_with_visible_space(s1.current_line)
        && ns && !ends_with_open_html_tag(s1.current_line) {
        put(s1, seq![' '], 1)
    } else {
        s1
    };
    put(s2, shown_word(word), w)
}

/// Places the words of a text fragment; the first is preceded by a space
/// only when the fragment starts with whitespace.
#[verifier::opaque]
pub open spec fn place_words(s: RenderState, words: Seq<Seq<char>>, leading: bool) -> RenderState
    decreases words.len(),
{
    if words.len() == 0 {
        s
    } else {
        let s1 = place_words(s, words.drop_last(), leading);
        place_word(s1, words.last(), if words.len() == 1 { leading } else { true }, words.len() == 1)
    }
}

/// Text after strikethrough processing.
pub open spec fn processed_text(s: RenderState, t: Seq<char>) -> Seq<char> {
    if s.strikethrough_fallback && s.in_strikethrough { strike_through(t) } else { t }
}

/// The space kept after a text fragment that ends with whitespace.
#[verifier::opaque]
pub open spec fn trailing_space(s: RenderState) -> RenderState {
    if !ends_with_visible_space(s.current_line) {
        let s2 = if s.cursor_col >= s.width && s.width > 0 { newline(s) } else { s };
        if s2.cursor_col == 0 || !ends_with_visible_space(s2.current_line) {
            put(s2, seq![' '], 1)
        } else {
            s2
        }
    } else {
        s
    }
}

/// Renders text: verbatim in code blocks, as words into table cells, and
/// as word-wrapped flowing text otherwise.
#[verifier::opaque]
pub open spec fn render_text(s: RenderState, t: Seq<char>) -> RenderState {
    if s.in_code_block {
        code_text(s, t)
    } else {
        let p = processed_text(s, t);
        if s.in_table_cell {
            RenderState { current_table_cell: cell_add_text(s.current_table_cell, p), ..s }
        } else {
            let leading = p.len() > 0 && is_ws(p[0]);
            let trailing = p.len() > 0 && is_ws(p.last());
            let s1 = place_words(s, split_whitespace(p), leading);
            if trailing { trailing_space(s1) } else { s1 }
        }
    }
}

/// A soft break: a hard break in code, a space in table cells, and otherwise
/// a space when the line has room (block quotes included).
#[verifier::opaque]
pub open spec fn render_space(s: RenderState) -> RenderState {
    if s.in_code_block {
        newline(s)
    } else if s.in_table_cell {
        if s.current_table_cell.len() > 0 && !ends_with(s.current_table_cell, ' ') {
            RenderState { current_table_cell: s.current_table_cell.push(' '), ..s }
        } else {
            s
        }
    } else if s.cursor_col > 0 && s.cursor_col < s.width {
        put(s, seq![' '], 1)
    } else {
        s
    }
}

/// Start of strikethrough.
pub open spec fn strike_start(s: RenderState) -> RenderState {
    if s.strikethrough_fallback {
        RenderState { in_strikethrough: true, ..s }
    } else {
        put_style(s, esc_strike())
    }
}

/// End of strikethrough.
pub open spec fn strike_end(s: RenderState) -> RenderState {
    if s.strikethrough_fallback {
        RenderState { in_strikethrough: false, ..s }
    } else {
        put_style(s, esc_strike_off())
    }
}

/// Inline code: in a table cell, between delimiters; otherwise between
/// delimiters and in faint style.
#[verifier::opaque]
pub open spec fn render_inline_code(s: RenderState, code: Seq<char>) -> RenderState {
    let text = processed_text(s, code);
    let shown = if starts_with(code, '`') || ends_with(code, '`') { seq![' '] + text + seq![' '] } else { text };
    let delim = repeat('`', sat(longest_backtick_run(code) + 1int));
    if s.in_table_cell {
        RenderState { current_table_cell: s.current_table_cell + delim + shown + delim, ..s }
    } else {
        let w = sat(sat(2 * delim.len() as int) + width_of(shown) as int);
        put(wrap_for(space_before_inline(s), w), delim + esc_faint() + shown + esc_reset() + delim, w)
    }
}

/// Raw HTML: passed through, its line breaks being hard breaks.
#[verifier::opaque]
pub open spec fn render_raw_html(s: RenderState, html: Seq<char>) -> RenderState {
    if s.in_table_cell {
        RenderState { current_table_cell: s.current_table_cell + html, ..s }
    } else {
        let s1 = if !starts_with(html, '\n') && !(html.len() >= 2 && html[0] == '<' && html[1] == '/') {
            space_before_inline(s)
        } else {
            s
        };
        code_text(s1, html)
    }
}

/// The `mailto:` scheme.
pub open spec fn mailto() -> Seq<char> {
    seq!['m', 'a', 'i', 'l', 't', 'o', ':']
}

/// How a link is shown: its text alone when it has no URL; `<url>` for an
/// autolink (the URL is the text, or `mailto:` and the text); otherwise in
/// markdown form, `[text](url)`.
pub open spec fn link_form(text: Seq<char>, url: Seq<char>) -> Seq<char> {
    if url.len() == 0 {
        text
    } else if url == text || url == mailto() + text {
        seq!['<'] + text + seq!['>']
    } else {
        seq!['['] + text + seq![']', '('] + url + seq![')']
    }
}

/// How an image is shown: in markdown form, `![alt](url)`.
pub open spec fn image_form(alt: Seq<char>, url: Seq<char>) -> Seq<char> {
    seq!['!', '['] + alt + seq![']', '('] + url + seq![')']
}

/// A link in its shown form; one without a URL is rendered as plain text.
#[verifier::opaque]
pub open spec fn render_link(s: RenderState, text: Seq<char>, url: Seq<char>) -> RenderState {
    if s.in_table_cell {
        RenderState { current_table_cell: s.current_table_cell + link_form(text, url), ..s }
    } else if url.len() == 0 {
        render_text(space_before_inline(s), text)
    } else {
        put(space_before_inline(s), link_form(text, url), width_of(link_form(text, url)))
    }
}

/// An image in its shown form.
#[verifier::opaque]
pub open spec fn render_image(s: RenderState, alt: Seq<char>, url: Seq<char>) -> RenderState {
    if s.in_table_cell {
        RenderState { current_table_cell: s.current_table_cell + image_form(alt, url), ..s }
    } else {
        put(space_before_inline(s), image_form(alt, url), width_of(image_form(alt, url)))
    }
}

/// A task list checkbox.
pub open spec fn task_marker(checked: bool) -> Seq<char> {
    if checked { seq!['[', '✔', ']', ' '] } else { seq!['[', ' ', ']', ' '] }
}

/// A task list checkbox.
pub open spec fn render_task_marker(s: RenderState, checked: bool) -> RenderState {
    if s.in_table_cell {
        RenderState { current_table_cell: s.current_table_cell + task_marker(checked), ..s }
    } else {
        put(s, task_marker(checked), 4)
    }
}

/// A footnote reference as `[^label]`.
pub open spec fn footnote_text(label: Seq<char>) -> Seq<char> {
    seq!['[', '^'] + label + seq![']']
}

/// A footnote reference.
#[verifier::opaque]
pub open spec fn render_footnote_reference(s: RenderState, label: Seq<char>) -> RenderState {
    if s.in_table_cell {
        RenderState { current_table_cell: s.current_table_cell + footnote_text(label), ..s }
    } else {
        put_text(space_before_inline(s), footnote_text(label))
    }
}

/// The length of a thematic break: half the width, and at least 3.
pub open spec fn rule_len(width: nat) -> nat {
    if width / 2 > 3 { width / 2 } else { 3 }
}

/// The line drawn for a thematic break written with `marker`: a dim rule of
/// half the width, centred.
pub open spec fn rule_line(marker: char, width: nat) -> Seq<char> {
    let len = rule_len(width);
    let pad: nat = if width > len { ((width - len) as nat) / 2 } else { 0 };
    repeat(' ', pad) + esc_faint() + repeat(
        if marker == '*' { '═' } else if marker == '_' { '┄' } else { '─' },
        len,
    ) + esc_reset()
}

/// A thematic break on a line of its own.
#[verifier::opaque]
pub open spec fn render_rule(s: RenderState, marker: char) -> RenderState {
    let s1 = flush_if_any(s);
    RenderState { lines: s1.lines.push(rule_line(marker, s1.width)), ..s1 }
}

/// The marker of an unordered list item written with `c`.
pub open spec fn bullet(c: char) -> Seq<char> {
    if c == '-' { seq!['-', ' '] } else { seq!['•', ' '] }
}

/// Whether a block is a heading.
pub open spec fn is_heading(b: BlockView) -> bool {
    b matches BlockView::Heading { .. }
}


/// The list item marker and the state after taking it.
#[verifier::opaque]
pub open spec fn item_marker(s: RenderState) -> (Seq<char>, RenderState) {
    if s.list_stack.len() > 0 {
        let (ordered, next) = s.list_stack.last();
        let s1 = RenderState { list_is_ordered: ordered, ..s };
        if ordered {
            let bumped = if next < u64::MAX { (next + 1) as u64 } else { next };
            (
                decimal(next as nat) + seq!['.', ' '],
                RenderState {
                    list_stack: s1.list_stack.update(s1.list_stack.len() - 1, (ordered, bumped)),
                    list_item_number: bumped,
                    ..s1
                },
            )
        } else {
            (
                bullet(match s1.pending_marker { Some(c) => c, None => '*' }),
                RenderState { pending_marker: None, ..s1 },
            )
        }
    } else if s.list_is_ordered {
        let n = s.list_item_number;
        (
            decimal(n as nat) + seq!['.', ' '],
            RenderState { list_item_number: if n < u64::MAX { (n + 1) as u64 } else { n }, ..s },
        )
    } else {
        (bullet(match s.pending_marker { Some(c) => c, None => '*' }), RenderState { pending_marker: None, ..s })
    }
}

/// Whether a block starting here wants a blank line before it.
pub open spec fn wants_blank(b: BlockView) -> bool {
    match b {
        BlockView::Heading { .. } | BlockView::Paragraph | BlockView::BlockQuote
        | BlockView::CodeBlock { .. } | BlockView::List { .. } | BlockView::Table { .. }
        | BlockView::FootnoteDefinition { .. } | BlockView::DefinitionList => true,
        _ => false,
    }
}

/// Whether a block is a part of a table inside the table itself.
pub open spec fn is_table_internal(b: BlockView) -> bool {
    match b {
        BlockView::TableHead | BlockView::TableRow | BlockView::TableCell => true,
        _ => false,
    }
}

/// Whether a block is rendered only through its bookkeeping at its start.
pub open spec fn is_bookkeeping_block(b: BlockView) -> bool {
    match b {
        BlockView::TableHead | BlockView::TableRow | BlockView::TableCell | BlockView::Table { .. }
        | BlockView::FootnoteDefinition { .. } | BlockView::DefinitionList
        | BlockView::DefinitionListTitle | BlockView::DefinitionListDefinition => true,
        _ => false,
    }
}

/// The continuation indent, when inside a list with one.
#[verifier::opaque]
pub open spec fn list_indent_if_empty(s: RenderState) -> RenderState {
    if s.in_list && s.current_line.len() == 0 && s.continuation_indent > 0 {
        indent_to(s, s.continuation_indent)
    } else {
        s
    }
}

/// The separation before a block: the pending line is flushed, and a blank
/// (or bare quote) line is added at major block boundaries.
#[verifier::opaque]
pub open spec fn separate_block(s: RenderState, b: BlockView) -> RenderState {
    let s1 = flush_if_any(s);
    let tight = b is Heading && (s1.in_block_quote || s1.marks.after_heading);
    let s2 = RenderState { marks: BlockMarks { after_heading: false, ..s1.marks }, ..s1 };
    if wants_blank(b) && !tight && s2.lines.len() > 0 && s2.lines.last().len() > 0 {
        RenderState {
            lines: s2.lines.push(if s2.in_block_quote { trim_end(quote_prefix(s2)) } else { Seq::empty() }),
            ..s2
        }
    } else {
        s2
    }
}

/// The dim line that opens the footnote section.
pub open spec fn footnotes_line() -> Seq<char> {
    esc_faint() + seq!['F', 'o', 'o', 't', 'n', 'o', 't', 'e', 's'] + esc_reset()
}

/// The start of a footnote definition: the footnote section line before the
/// first one, then the label, which the definition's text follows.
pub open spec fn footnote_start(s: RenderState, label: Seq<char>) -> RenderState {
    let s1 = if s.marks.footnotes_started {
        s
    } else {
        RenderState {
            lines: s.lines.push(footnotes_line()),
            marks: BlockMarks { footnotes_started: true, ..s.marks },
            ..s
        }
    };
    put_text(
        RenderState { marks: BlockMarks { in_footnote: true, ..s1.marks }, ..s1 },
        seq!['[', '^'] + label + seq![']', ' '],
    )
}

/// The bookkeeping done at the start of tables, footnotes and definition lists.
#[verifier::opaque]
pub open spec fn block_bookkeeping(s: RenderState, b: BlockView) -> RenderState {
    match b {
        BlockView::Table { alignments } => RenderState {
            in_table: true,
            table_alignments: alignments,
            table_rows: Seq::empty(),
            current_table_row: Seq::empty(),
            current_table_cell: Seq::empty(),
            in_table_cell: false,
            ..s
        },
        BlockView::TableHead => RenderState { current_table_row: Seq::empty(), ..s },
        BlockView::TableRow => RenderState { current_table_row: Seq::empty(), ..s },
        BlockView::TableCell => RenderState { current_table_cell: Seq::empty(), in_table_cell: true, ..s },
        BlockView::FootnoteDefinition { label } => footnote_start(s, label),
        BlockView::DefinitionList => RenderState { in_definition_list: true, ..s },
        BlockView::DefinitionListDefinition => put(
            RenderState { in_definition_entry: true, ..s },
            seq![' ', ' '],
            2,
        ),
        _ => s,
    }
}

/// The opening fence of a code block, with its info string, ending the current line.
#[verifier::opaque]
pub open spec fn fence_line(s: RenderState, info: Option<Seq<char>>) -> RenderState {
    let line = s.current_line + fence() + match info { Some(i) => i, None => Seq::empty() };
    RenderState { current_line: line, cursor_col: visible_width(line), ..s }
}

/// The opening of a code block: the fence with its info string on a line
/// of its own, then faint style for the code.
#[verifier::opaque]
pub open spec fn open_code_block(s: RenderState, info: Option<Seq<char>>) -> RenderState {
    let s1 = list_indent_if_empty(s);
    let s2 = if s1.in_block_quote && s1.current_line.len() == 0 { push_quote_prefix(s1) } else { s1 };
    let s3 = RenderState { in_code_block: true, code_block_info: info, ..s2 };
    let s4 = if info is Some { newline(fence_line(s3, info)) } else { s3 };
    put_code(s4, esc_faint())
}

/// The opening of a list item: indentation by nesting depth and the marker.
#[verifier::opaque]
pub open spec fn open_list_item(s: RenderState) -> RenderState {
    let s1 = if s.in_block_quote && s.current_line.len() == 0 { push_quote_prefix(s) } else { s };
    let indentation = repeat(' ', sat(2 * s1.list_depth as int));
    let (marker, s2) = item_marker(s1);
    let indent = sat(width_of(indentation) + width_of(marker) as int);
    RenderState {
        current_line: s2.current_line + indentation + marker,
        continuation_indent: indent,
        cursor_col: indent,
        ..s2
    }
}

/// A bare quote line separating a new quoted paragraph from a previous quoted line.
#[verifier::opaque]
pub open spec fn quote_separator(s: RenderState) -> RenderState {
    if s.lines.len() > 0 && is_quote_line(s.lines.last()) && !is_quote_prefix_only(s.lines.last()) {
        RenderState { lines: s.lines.push(trim_end(quote_prefix(s))), ..s }
    } else {
        s
    }
}

/// A paragraph starting inside a block quote: on an empty line, a bare
/// quote line separates it from a previous quoted line, then the prefix.
#[verifier::opaque]
pub open spec fn quoted_paragraph_start(s: RenderState) -> RenderState {
    if s.current_line.len() == 0 {
        let s1 = quote_separator(s);
        let s2 = if s1.in_list && s1.continuation_indent > 0 {
            indent_to(s1, s1.continuation_indent)
        } else {
            s1
        };
        push_quote_prefix(s2)
    } else {
        s
    }
}

/// A paragraph starting inside a list: the continuation indent on an empty line.
pub open spec fn list_paragraph_start(s: RenderState) -> RenderState {
    if s.current_line.len() == 0 && s.continuation_indent > 0 {
        indent_to(s, s.continuation_indent)
    } else {
        s
    }
}

/// The start of a list.
pub open spec fn list_start(s: RenderState, start: Option<u64>) -> RenderState {
    let ordered = start is Some;
    let next = match start { Some(n) => n, None => 1u64 };
    let stack = s.list_stack.push((ordered, next));
    RenderState {
        list_stack: stack,
        in_list: true,
        list_depth: (stack.len() - 1) as nat,
        list_is_ordered: ordered,
        list_item_number: next,
        ..s
    }
}

/// The marker of a heading of the given level: that many `#` and a space.
pub open spec fn heading_marker(level: u8) -> Seq<char> {
    repeat('#', level as nat).push(' ')
}

/// The start of a heading: the quote prefix on an empty quoted line, then
/// bold and the `#` marker.
pub open spec fn heading_start(s: RenderState, level: u8) -> RenderState {
    let s3 = if s.in_block_quote && s.current_line.len() == 0 { push_quote_prefix(s) } else { s };
    put_text(
        put_code(RenderState { heading_level: level, heading_text: Seq::empty(), ..s3 }, esc_bold()),
        heading_marker(level),
    )
}

/// What a rendered block does at its start, after separation.
#[verifier::opaque]
pub open spec fn block_open(s: RenderState, b: BlockView) -> RenderState {
    match b {
        BlockView::Heading { level, .. } => heading_start(s, level),
        BlockView::BlockQuote => RenderState {
            block_quote_depth: sat(s.block_quote_depth + 1int),
            in_block_quote: true,
            ..s
        },
        BlockView::CodeBlock { info } => open_code_block(s, info),
        BlockView::List { start } => list_start(s, start),
        BlockView::ListItem => open_list_item(s),
        _ => s,
    }
}

/// The start of a block other than a paragraph in a quote or a list.
#[verifier::opaque]
pub open spec fn general_block_start(s: RenderState, b: BlockView) -> RenderState {
    let s1 = if !is_table_internal(b) && !(b is List && s.in_list) { separate_block(s, b) } else { s };
    let s2 = block_bookkeeping(s1, b);
    if is_bookkeeping_block(b) { s2 } else { block_open(s2, b) }
}

/// The start of a block.
#[verifier::opaque]
pub open spec fn block_start(s: RenderState, b: BlockView) -> RenderState {
    if b is Paragraph && s.marks.in_footnote && s.current_line.len() > 0 {
        s
    } else if b is Paragraph && s.in_block_quote {
        quoted_paragraph_start(s)
    } else if b is Paragraph && s.in_list {
        list_paragraph_start(s)
    } else {
        general_block_start(s, b)
    }
}

/// The end of a heading: bold off, and the heading line ends.
#[verifier::opaque]
pub open spec fn close_heading(s: RenderState) -> RenderState {
    let s1 = flush_if_any(put_code(s, esc_bold_off()));
    RenderState { cursor_col: 0, heading_level: 0, marks: BlockMarks { after_heading: true, ..s1.marks }, ..s1 }
}

/// The pending code line goes to the output when it shows anything but
/// quote bars; the current line is emptied either way.
#[verifier::opaque]
pub open spec fn end_code_line(s: RenderState) -> RenderState {
    if s.current_line.len() > 0 {
        let meaningful = trim_end(strip_ansi(s.current_line));
        let kept = if meaningful.len() > 0 && !is_quote_prefix_only(meaningful) {
            RenderState { lines: s.lines.push(s.current_line), ..s }
        } else {
            s
        };
        RenderState { current_line: Seq::empty(), ..kept }
    } else {
        s
    }
}

/// The closing fence line of a code block, after a style reset, at the list
/// continuation indent and behind the quote prefix.
#[verifier::opaque]
pub open spec fn closing_fence(s: RenderState) -> RenderState {
    let s2 = put_code(RenderState { cursor_col: 0, ..s }, esc_reset());
    let s3 = if s2.in_list && s2.continuation_indent > 0 {
        RenderState {
            current_line: s2.current_line + repeat(' ', s2.continuation_indent),
            cursor_col: s2.continuation_indent,
            ..s2
        }
    } else {
        s2
    };
    let s4 = if s3.in_block_quote { push_quote_prefix(s3) } else { s3 };
    let line = s4.current_line + fence();
    RenderState {
        lines: s4.lines.push(line),
        current_line: Seq::empty(),
        cursor_col: 0,
        in_code_block: false,
        code_block_info: None,
        ..s4
    }
}

/// The end of an indented code block: a style reset at the end of the last
/// line.
pub open spec fn close_indented_code(s: RenderState) -> RenderState {
    RenderState {
        lines: if s.lines.len() > 0 { s.lines.drop_last().push(s.lines.last() + esc_reset()) } else { s.lines },
        current_line: Seq::empty(),
        cursor_col: 0,
        in_code_block: false,
        code_block_info: None,
        ..s
    }
}

/// The end of a code block: the pending code line when it holds anything
/// visible, then the closing fence (for a fenced block) or the style reset
/// (for an indented one).
pub open spec fn close_code_block(s: RenderState) -> RenderState {
    if s.code_block_info is Some { closing_fence(end_code_line(s)) } else { close_indented_code(end_code_line(s)) }
}

/// The end of a list: back to the enclosing list, if any.
#[verifier::opaque]
pub open spec fn close_list(s: RenderState) -> RenderState {
    let stack = if s.list_stack.len() > 0 { s.list_stack.drop_last() } else { s.list_stack };
    let depth: nat = if stack.len() > 0 { (stack.len() - 1) as nat } else { 0 };
    if stack.len() > 0 {
        RenderState {
            list_stack: stack,
            list_depth: depth,
            in_list: true,
            list_is_ordered: stack.last().0,
            list_item_number: stack.last().1,
            ..s
        }
    } else {
        RenderState {
            list_stack: stack,
            list_depth: depth,
            in_list: false,
            list_is_ordered: false,
            list_item_number: 0,
            continuation_indent: 0,
            ..s
        }
    }
}

/// The end of a block.
#[verifier::opaque]
pub open spec fn block_end(s: RenderState, b: BlockView) -> RenderState {
    match b {
        BlockView::Heading { .. } => close_heading(s),
        BlockView::CodeBlock { .. } => close_code_block(s),
        BlockView::BlockQuote => {
            let d: nat = if s.block_quote_depth > 0 { (s.block_quote_depth - 1) as nat } else { 0 };
            flush_if_any(RenderState { block_quote_depth: d, in_block_quote: d > 0, ..s })
        },
        BlockView::List { .. } => close_list(s),
        BlockView::ListItem => flush_if_any(RenderState { continuation_indent: 0, ..s }),
        BlockView::TableCell => RenderState {
            in_table_cell: false,
            current_table_row: s.current_table_row.push(trim(s.current_table_cell)),
            current_table_cell: Seq::empty(),
            ..s
        },
        BlockView::TableRow | BlockView::TableHead => if s.current_table_row.len() > 0 {
            RenderState {
                table_rows: s.table_rows.push(s.current_table_row),
                current_table_row: Seq::empty(),
                ..s
            }
        } else {
            s
        },
        BlockView::Table { .. } => {
            let s1 = flush_table(s);
            RenderState {
                in_table: false,
                table_alignments: Seq::empty(),
                table_rows: Seq::empty(),
                current_table_row: Seq::empty(),
                current_table_cell: Seq::empty(),
                in_table_cell: false,
                ..s1
            }
        },
        BlockView::DefinitionList => RenderState {
            in_definition_list: false,
            in_definition_entry: false,
            ..s
        },
        BlockView::DefinitionListDefinition => RenderState { in_definition_entry: false, ..s },
        BlockView::DefinitionListTitle => s,
        BlockView::FootnoteDefinition { .. } => flush_if_any(
            RenderState { marks: BlockMarks { in_footnote: false, ..s.marks }, ..s },
        ),
        _ => flush_if_any(s),
    }
}

/// The largest number of cells in a row.
pub open spec fn column_count(rows: Seq<Seq<Seq<char>>>) -> nat
    decreases rows.len(),
{
    if rows.len() == 0 {
        0
    } else {
        let rest = column_count(rows.drop_last());
        if rows.last().len() > rest { rows.last().len() } else { rest }
    }
}

/// The display width of the visible text of a cell (style codes take none).
pub open spec fn cell_width(cell: Seq<char>) -> nat {
    width_of(strip_ansi(cell))
}

/// The widest cell of column `i` (at least 3).
pub open spec fn column_width(rows: Seq<Seq<Seq<char>>>, i: int) -> nat
    decreases rows.len(),
{
    if rows.len() == 0 {
        3
    } else {
        let rest = column_width(rows.drop_last(), i);
        let w = if 0 <= i < rows.last().len() { cell_width(rows.last()[i]) } else { 0 };
        if w > rest { w } else { rest }
    }
}

/// The width of every column.
pub open spec fn column_widths(rows: Seq<Seq<Seq<char>>>) -> Seq<nat> {
    Seq::new(column_count(rows), |i: int| column_width(rows, i))
}

/// Cell `i` of a table row padded to its column width and aligned, between
/// single spaces and followed by a column bar.
pub open spec fn cell_piece(aligns: Seq<CellAlignment>, row: Seq<Seq<char>>, widths: Seq<nat>, i: int) -> Seq<char> {
    let cell = if 0 <= i < row.len() { row[i] } else { Seq::empty() };
    let cw = cell_width(cell);
    let pad: nat = if widths[i] > cw { (widths[i] - cw) as nat } else { 0 };
    let align = if 0 <= i < aligns.len() { aligns[i] } else { CellAlignment::Left };
    let (left, right): (nat, nat) = match align {
        CellAlignment::Right => (pad, 0),
        CellAlignment::Center => (pad / 2, (pad - pad / 2) as nat),
        _ => (0, pad),
    };
    seq![' '] + repeat(' ', left) + cell + repeat(' ', right) + seq![' ', '│']
}

/// The cells of a table row from column `i` on.
pub open spec fn row_cells(aligns: Seq<CellAlignment>, row: Seq<Seq<char>>, widths: Seq<nat>, i: int) -> Seq<char>
    decreases widths.len() - i,
{
    if i < 0 || i >= widths.len() {
        Seq::empty()
    } else {
        cell_piece(aligns, row, widths, i) + row_cells(aligns, row, widths, i + 1)
    }
}

/// A table row line.
pub open spec fn row_line(aligns: Seq<CellAlignment>, row: Seq<Seq<char>>, widths: Seq<nat>) -> Seq<char> {
    seq!['│'] + row_cells(aligns, row, widths, 0)
}

/// The horizontal segment of a table border over column `i`, followed by
/// `junction` unless it is the last column.
pub open spec fn border_piece(junction: char, widths: Seq<nat>, i: int) -> Seq<char> {
    repeat('─', sat(widths[i] + 2int)) + (if i + 1 < widths.len() { seq![junction] } else { Seq::empty() })
}

/// The horizontal segments of a table border from column `i` on.
pub open spec fn border_segments(junction: char, widths: Seq<nat>, i: int) -> Seq<char>
    decreases widths.len() - i,
{
    if i < 0 || i >= widths.len() {
        Seq::empty()
    } else {
        border_piece(junction, widths, i) + border_segments(junction, widths, i + 1)
    }
}

/// A table border line.
pub open spec fn border_line(left: char, junction: char, right: char, widths: Seq<nat>) -> Seq<char> {
    seq![left] + border_segments(junction, widths, 0) + seq![right]
}

/// The pieces of `t` from index `i` on, each filled greedily up to display
/// width `w` (a piece holds at least one character), given the piece `cur`
/// in progress and the pieces `acc` already complete.
pub open spec fn chunks_from(t: Seq<char>, w: nat, i: int, cur: Seq<char>, acc: Seq<Seq<char>>) -> Seq<Seq<char>>
    decreases t.len() - i,
{
    if i < 0 || i >= t.len() {
        if cur.len() > 0 { acc.push(cur) } else { acc }
    } else if cur.len() > 0 && display_width(cur) + char_width(t[i]) > w {
        chunks_from(t, w, i + 1, seq![t[i]], acc.push(cur))
    } else {
        chunks_from(t, w, i + 1, cur.push(t[i]), acc)
    }
}

/// The lines of a cell in a column `w` wide: the cell itself when it fits,
/// otherwise its visible text broken into pieces of at most that width.
pub open spec fn cell_lines(cell: Seq<char>, w: nat) -> Seq<Seq<char>> {
    if cell_width(cell) <= w {
        seq![cell]
    } else {
        chunks_from(strip_ansi(cell), w, 0, Seq::empty(), Seq::empty())
    }
}

/// Line `r` of the cells of a row: for each cell, its line `r`, or nothing
/// when it has fewer lines.
pub open spec fn virtual_row(row: Seq<Seq<char>>, widths: Seq<nat>, r: int) -> Seq<Seq<char>> {
    Seq::new(row.len(), |i: int| {
        let ls = cell_lines(row[i], if i < widths.len() { widths[i] } else { 3 });
        if 0 <= r < ls.len() { ls[r] } else { Seq::empty() }
    })
}

/// The number of lines a row takes: the most lines of any of its cells, and
/// at least one.
pub open spec fn row_height(row: Seq<Seq<char>>, widths: Seq<nat>) -> nat
    decreases row.len(),
{
    if row.len() == 0 {
        1
    } else {
        let rest = row_height(row.drop_last(), widths);
        let i = row.len() - 1;
        let h = cell_lines(row.last(), if i < widths.len() { widths[i] } else { 3 }).len();
        if h > rest { h } else { rest }
    }
}

/// The lines of one table row, its cells wrapped within their columns.
pub open spec fn row_block(aligns: Seq<CellAlignment>, row: Seq<Seq<char>>, widths: Seq<nat>) -> Seq<Seq<char>> {
    Seq::new(row_height(row, widths), |r: int| row_line(aligns, virtual_row(row, widths, r), widths))
}

/// The cells of a row joined by two spaces.
pub open spec fn join_cells(row: Seq<Seq<char>>) -> Seq<char>
    decreases row.len(),
{
    if row.len() == 0 {
        Seq::empty()
    } else if row.len() == 1 {
        row[0]
    } else {
        join_cells(row.drop_last()) + seq![' ', ' '] + row.last()
    }
}

/// The lines of a table laid out in a box, the header row followed by a separator.
pub open spec fn boxed_rows(aligns: Seq<CellAlignment>, rows: Seq<Seq<Seq<char>>>, widths: Seq<nat>) -> Seq<Seq<char>>
    decreases rows.len(),
{
    if rows.len() == 0 {
        Seq::empty()
    } else {
        let rest = boxed_rows(aligns, rows.drop_last(), widths) + row_block(aligns, rows.last(), widths);
        if rows.len() == 1 { rest.push(border_line('├', '┼', '┤', widths)) } else { rest }
    }
}

/// The display width of a boxed table with the given column widths.
pub open spec fn span(widths: Seq<nat>) -> nat
    decreases widths.len(),
{
    if widths.len() == 0 {
        1
    } else {
        sat((span(widths.drop_last()) + widths.last() + 3) as int)
    }
}

/// Column widths for a table that does not fit: each column is capped at an
/// equal share of the room the borders leave (at least one column each).
pub open spec fn shared_widths(widths: Seq<nat>, width: nat) -> Seq<nat> {
    let n = widths.len();
    let fixed = sat((3 * n + 1) as int);
    let room: nat = if width > fixed { (width - fixed) as nat } else { 0 };
    let share: nat = if n > 0 && room / n > 1 { room / n } else { 1 };
    Seq::new(n, |i: int| if widths[i] < share { widths[i] } else { share })
}

/// Entry line `i` of a plain table entry: the header of column `i` and the
/// cell, as `header: cell` (just the cell under an empty header), indented
/// after the first.
pub open spec fn entry_line(header: Seq<Seq<char>>, row: Seq<Seq<char>>, i: int) -> Seq<char> {
    let label = if 0 <= i < header.len() { header[i] } else { Seq::empty() };
    (if i > 0 { seq![' ', ' '] } else { Seq::empty() }) + (if label.len() > 0 {
        label + seq![':', ' '] + row[i]
    } else {
        row[i]
    })
}

/// The plain entry of a body row: one line per cell.
pub open spec fn entry_lines(header: Seq<Seq<char>>, row: Seq<Seq<char>>) -> Seq<Seq<char>> {
    Seq::new(row.len(), |i: int| entry_line(header, row, i))
}

/// The plain entries of body rows.
pub open spec fn flat_rows(header: Seq<Seq<char>>, rows: Seq<Seq<Seq<char>>>) -> Seq<Seq<char>>
    decreases rows.len(),
{
    if rows.len() == 0 {
        Seq::empty()
    } else {
        flat_rows(header, rows.drop_last()) + entry_lines(header, rows.last())
    }
}

/// A table laid out as plain entries: each body row with every cell keyed by
/// its column header; a table with only a header row is that row's cells.
pub open spec fn flat_lines(rows: Seq<Seq<Seq<char>>>) -> Seq<Seq<char>> {
    if rows.len() <= 1 {
        rows.map_values(|r: Seq<Seq<char>>| join_cells(r))
    } else {
        flat_rows(rows[0], rows.subrange(1, rows.len() as int))
    }
}

/// A boxed table with the given column widths.
pub open spec fn boxed_table(aligns: Seq<CellAlignment>, rows: Seq<Seq<Seq<char>>>, widths: Seq<nat>) -> Seq<Seq<char>> {
    seq![border_line('┌', '┬', '┐', widths)] + boxed_rows(aligns, rows, widths)
        + seq![border_line('└', '┴', '┘', widths)]
}

/// The table lines: a box when it fits the render width; otherwise plain
/// entries in wide-table flattening mode, and by default a box whose columns
/// share the width, their cells wrapped.
#[verifier::opaque]
pub open spec fn table_lines(s: RenderState) -> Seq<Seq<char>> {
    let rows = s.table_rows;
    let widths = column_widths(rows);
    if span(widths) <= s.width {
        boxed_table(s.table_alignments, rows, widths)
    } else if s.flatten_wide_tables {
        flat_lines(rows)
    } else {
        boxed_table(s.table_alignments, rows, shared_widths(widths, s.width))
    }
}

/// Emits the collected table.
#[verifier::opaque]
pub open spec fn flush_table(s: RenderState) -> RenderState {
    if s.table_rows.len() == 0 || column_count(s.table_rows) == 0 {
        s
    } else {
        RenderState { lines: s.lines + table_lines(s), ..s }
    }
}

/// The state after rendering one event.
#[verifier::opaque]
pub open spec fn process_event(s: RenderState, e: EventView) -> RenderState {
    match e {
        EventView::Text(t) => render_text(s, t),
        EventView::SoftBreak => render_space(s),
        EventView::HardBreak => newline(s),
        EventView::Rule(m) => render_rule(s, m),
        EventView::Start(b) => block_start(s, b),
        EventView::End(b) => block_end(s, b),
        EventView::StrongStart => put_style(s, esc_bold()),
        EventView::StrongEnd => put_style(s, esc_bold_off()),
        EventView::EmphasisStart => put_style(s, esc_italic()),
        EventView::EmphasisEnd => put_style(s, esc_italic_off()),
        EventView::StrikethroughStart => strike_start(s),
        EventView::StrikethroughEnd => strike_end(s),
        EventView::InlineCode(c) => render_inline_code(s, c),
        EventView::RawHtml(h) => render_raw_html(s, h),
        EventView::Link { text, url } => render_link(s, text, url),
        EventView::Image { alt, url } => render_image(s, alt, url),
        EventView::TaskListMarker(b) => render_task_marker(s, b),
        EventView::FootnoteReference(l) => render_footnote_reference(s, l),
        EventView::ListItemMarker(c) => RenderState { pending_marker: Some(c), ..s },
    }
}

/// The events with runs of consecutive text events merged into one, given
/// the text `pending` gathered so far.
pub open spec fn combine_from(events: Seq<EventView>, i: int, pending: Option<Seq<char>>, acc: Seq<EventView>) -> Seq<EventView>
    decreases events.len() - i,
{
    if i < 0 || i >= events.len() {
        match pending {
            Some(t) => acc.push(EventView::Text(t)),
            None => acc,
        }
    } else {
        match events[i] {
            EventView::Text(t) => combine_from(
                events,
                i + 1,
                Some(match pending { Some(p) => p + t, None => t }),
                acc,
            ),
            _ => {
                let acc1 = match pending { Some(p) => acc.push(EventView::Text(p)), None => acc };
                combine_from(events, i + 1, None, acc1.push(events[i]))
            },
        }
    }
}

/// No two consecutive events are text events.
pub open spec fn no_adjacent_text(events: Seq<EventView>) -> bool {
    forall|i: int| 0 <= i < events.len() - 1 ==> !(#[trigger] events[i] is Text && events[i + 1] is Text)
}

#[verifier::spinoff_prover]
proof fn lemma_combine_from_no_adjacent_text(events: Seq<EventView>, i: int, pending: Option<Seq<char>>, acc: Seq<EventView>)
    requires
        0 <= i <= events.len(),
        no_adjacent_text(acc),
        acc.len() == 0 || !(acc.last() is Text),
    ensures
        no_adjacent_text(combine_from(events, i, pending, acc)),
    decreases events.len() - i,
{
    if i < events.len() {
        match events[i] {
            EventView::Text(t) => {
                lemma_combine_from_no_adjacent_text(
                    events,
                    i + 1,
                    Some(match pending { Some(p) => p + t, None => t }),
                    acc,
                );
            },
            _ => {
                let acc1 = match pending { Some(p) => acc.push(EventView::Text(p)), None => acc };
                let acc2 = acc1.push(events[i]);
                assert(no_adjacent_text(acc1)) by {
                    assert forall|k: int| 0 <= k < acc1.len() - 1 implies !(#[trigger] acc1[k] is Text && acc1[k + 1] is Text) by {
                        if k + 1 < acc.len() {
                            assert(acc1[k] == acc[k] && acc1[k + 1] == acc[k + 1]);
                        } else {
                            assert(acc1[k] == acc.last());
                        }
                    }
                }
                assert(no_adjacent_text(acc2)) by {
                    assert forall|k: int| 0 <= k < acc2.len() - 1 implies !(#[trigger] acc2[k] is Text && acc2[k + 1] is Text) by {
                        if k + 1 < acc1.len() {
                            assert(acc2[k] == acc1[k] && acc2[k + 1] == acc1[k + 1]);
                        } else {
                            assert(acc2[k + 1] == events[i]);
                        }
                    }
                }
                lemma_combine_from_no_adjacent_text(events, i + 1, None, acc2);
            },
        }
    } else {
        match pending {
            Some(t) => {
                let acc1 = acc.push(EventView::Text(t));
                assert forall|k: int| 0 <= k < acc1.len() - 1 implies !(#[trigger] acc1[k] is Text && acc1[k + 1] is Text) by {
                    if k + 1 < acc.len() {
                        assert(acc1[k] == acc[k] && acc1[k + 1] == acc[k + 1]);
                    } else {
                        assert(acc1[k] == acc.last());
                    }
                }
            },
            None => {},
        }
    }
}

/// After combining, no two consecutive events are text events.
pub proof fn lemma_combined_text_is_merged(events: Seq<EventView>)
    ensures
        no_adjacent_text(combine_text_events(events)),
{
    lemma_combine_from_no_adjacent_text(events, 0, None, Seq::empty());
}

/// The events with runs of consecutive text events merged into one.
pub open spec fn combine_text_events(events: Seq<EventView>) -> Seq<EventView> {
    combine_from(events, 0, None, Seq::empty())
}

/// The state after rendering a sequence of events.
pub open spec fn process_events(s: RenderState, events: Seq<EventView>) -> RenderState
    decreases events.len(),
{
    if events.len() == 0 {
        s
    } else {
        process_event(process_events(s, events.drop_last()), events.last())
    }
}

/// The lines joined with line breaks.
pub open spec fn join_lines(lines: Seq<Seq<char>>) -> Seq<char>
    decreases lines.len(),
{
    if lines.len() == 0 {
        Seq::empty()
    } else if lines.len() == 1 {
        lines[0]
    } else {
        join_lines(lines.drop_last()) + seq!['\n'] + lines.last()
    }
}

/// The final state of a render of `events` from state `s`.
pub open spec fn render_final(s: RenderState, events: Seq<EventView>) -> RenderState {
    let s1 = process_events(reset_state(s), combine_text_events(events));
    if s1.current_line.len() > 0 { RenderState { lines: s1.lines.push(s1.current_line), ..s1 } } else { s1 }
}

/// The rendered output lines of `events`.
pub open spec fn rendered_lines(s: RenderState, events: Seq<EventView>) -> Seq<Seq<char>> {
    render_final(s, events).lines
}

/// The rendered output of `events`: the output lines joined by line breaks.
pub open spec fn rendered(s: RenderState, events: Seq<EventView>) -> Seq<char> {
    join_lines(rendered_lines(s, events))
}
/// The settings of a renderer that rendering leaves as they are: the width,
/// the strikethrough mode, the wide-table mode and the quote prefix character.
pub open spec fn settings(s: RenderState) -> (nat, bool, bool, char) {
    (s.width, s.strikethrough_fallback, s.flatten_wide_tables, s.block_quote_prefix)
}

proof fn lemma_newline_keeps_settings(s: RenderState)
    ensures
        settings(newline(s)) == settings(s),
{
    reveal(newline);
}

proof fn lemma_space_keeps_settings(s: RenderState)
    ensures
        settings(space_before_inline(s)) == settings(s),
{
    reveal(space_before_inline);
}

proof fn lemma_code_text_keeps_settings(s: RenderState, t: Seq<char>)
    ensures
        settings(code_text(s, t)) == settings(s),
    decreases t.len(),
{
    reveal(code_text);
    if t.len() > 0 {
        lemma_code_text_keeps_settings(s, t.drop_last());
        lemma_newline_keeps_settings(code_text(s, t.drop_last()));
    }
}

proof fn lemma_place_words_keeps_settings(s: RenderState, words: Seq<Seq<char>>, leading: bool)
    ensures
        settings(place_words(s, words, leading)) == settings(s),
    decreases words.len(),
{
    reveal(place_words);
    if words.len() > 0 {
        let s1 = place_words(s, words.drop_last(), leading);
        lemma_place_words_keeps_settings(s, words.drop_last(), leading);
        reveal(place_word);
        lemma_newline_keeps_settings(s1);
    }
}

proof fn lemma_text_keeps_settings(s: RenderState, t: Seq<char>)
    ensures
        settings(render_text(s, t)) == settings(s),
{
    reveal(render_text);
    reveal(trailing_space);
    lemma_code_text_keeps_settings(s, t);
    let p = processed_text(s, t);
    let s1 = place_words(s, split_whitespace(p), p.len() > 0 && is_ws(p[0]));
    lemma_place_words_keeps_settings(s, split_whitespace(p), p.len() > 0 && is_ws(p[0]));
    lemma_newline_keeps_settings(s1);
}

#[verifier::spinoff_prover]
proof fn lemma_inline_keeps_settings(s: RenderState, e: EventView)
    requires
        !(e is Start || e is End),
    ensures
        settings(process_event(s, e)) == settings(s),
{
    reveal(process_event);
    lemma_newline_keeps_settings(s);
    lemma_space_keeps_settings(s);
    match e {
        EventView::Text(t) => lemma_text_keeps_settings(s, t),
        EventView::SoftBreak => reveal(render_space),
        EventView::InlineCode(c) => {
            reveal(render_inline_code);
            reveal(space_before_inline);
            let s1 = space_before_inline(s);
            lemma_newline_keeps_settings(s1);
            lemma_newline_keeps_settings(RenderState {
                current_line: s1.current_line.drop_last(),
                cursor_col: (s1.cursor_col - 1) as nat,
                ..s1
            });
        },
        EventView::RawHtml(h) => {
            reveal(render_raw_html);
            lemma_code_text_keeps_settings(s, h);
            lemma_code_text_keeps_settings(space_before_inline(s), h);
        },
        EventView::Link { text, url } => {
            reveal(render_link);
            lemma_text_keeps_settings(space_before_inline(s), text);
        },
        EventView::Image { .. } => reveal(render_image),
        EventView::FootnoteReference(l) => reveal(render_footnote_reference),
        EventView::Rule(m) => reveal(render_rule),
        _ => {},
    }
}

#[verifier::spinoff_prover]
#[verifier::rlimit(100)]
proof fn lemma_block_start_keeps_settings(s: RenderState, b: BlockView)
    ensures
        settings(block_start(s, b)) == settings(s),
{
    reveal(block_start);
    reveal(quoted_paragraph_start);
    reveal(quote_separator);
    reveal(general_block_start);
    reveal(separate_block);
    reveal(block_bookkeeping);
    let s1 = if !is_table_internal(b) && !(b is List && s.in_list) { separate_block(s, b) } else { s };
    let s2 = block_bookkeeping(s1, b);
    reveal(block_open);
    match b {
        BlockView::CodeBlock { info } => {
            reveal(open_code_block);
            reveal(list_indent_if_empty);
            reveal(fence_line);
            let t1 = list_indent_if_empty(s2);
            let t2 = if t1.in_block_quote && t1.current_line.len() == 0 { push_quote_prefix(t1) } else { t1 };
            let t3 = RenderState { in_code_block: true, code_block_info: info, ..t2 };
            lemma_newline_keeps_settings(fence_line(t3, info));
        },
        BlockView::ListItem => {
            reveal(open_list_item);
            reveal(item_marker);
        },
        _ => {},
    }
}

#[verifier::spinoff_prover]
proof fn lemma_block_end_keeps_settings(s: RenderState, b: BlockView)
    ensures
        settings(block_end(s, b)) == settings(s),
{
    reveal(block_end);
    match b {
        BlockView::Heading { .. } => {
            reveal(close_heading);
        },
        BlockView::CodeBlock { .. } => {
            reveal(end_code_line);
            reveal(closing_fence);
        },
        BlockView::List { .. } => {
            reveal(close_list);
        },
        BlockView::Table { .. } => {
            reveal(flush_table);
        },
        _ => {},
    }
}

/// Rendering an event leaves the renderer's settings as they are.
pub proof fn lemma_event_keeps_settings(s: RenderState, e: EventView)
    ensures
        settings(process_event(s, e)) == settings(s),
{
    match e {
        EventView::Start(b) => {
            reveal(process_event);
            lemma_block_start_keeps_settings(s, b);
        },
        EventView::End(b) => {
            reveal(process_event);
            lemma_block_end_keeps_settings(s, b);
        },
        _ => lemma_inline_keeps_settings(s, e),
    }
}

/// Rendering events leaves the renderer's settings as they are.
pub proof fn lemma_events_keep_settings(s: RenderState, events: Seq<EventView>)
    ensures
        settings(process_events(s, events)) == settings(s),
    decreases events.len(),
{
    if events.len() > 0 {
        lemma_events_keep_settings(s, events.drop_last());
        lemma_event_keeps_settings(process_events(s, events.drop_last()), events.last());
    }
}

/// A render depends on the renderer only through its settings: whatever a
/// renderer rendered before, rendering `events` with it gives the same
/// output and final state as with a fresh renderer of the same settings.
pub proof fn lemma_render_ignores_earlier_renders(s: RenderState, earlier: Seq<EventView>, events: Seq<EventView>)
    ensures
        render_final(render_final(s, earlier), events) == render_final(s, events),
        rendered(render_final(s, earlier), events) == rendered(s, events),
{
    lemma_events_keep_settings(reset_state(s), combine_text_events(earlier));
    assert(reset_state(render_final(s, earlier)) == reset_state(s));
}

} // verus!
