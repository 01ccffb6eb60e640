//! Rendering of markdown events into terminal lines.
use vstd::prelude::*;
use crate::parsing::{Block, CellAlignment, Event, EventView, BlockView, event_views};
use crate::render_model::{RenderState, BlockMarks, footnote_start, footnotes_line, initial_state, reset_state, quote_prefix, put, put_text,
    put_code, put_style, push_quote_prefix, flush_line, flush_if_any, indent_to, newline, space_before_inline,
    code_text, wrap_for, trailing_space, cell_add_word, cell_add_words, cell_add_text, place_word, place_words, processed_text, render_text,
    render_space, strike_start, strike_end, render_inline_code, render_raw_html, render_link,
    render_image, is_web_address, shown_word, esc_underline, esc_underline_off, link_form, image_form, mailto, task_marker, render_task_marker, footnote_text, render_footnote_reference,
    rule_line, render_rule, bullet, item_marker, wants_blank, is_table_internal,
    is_bookkeeping_block, list_indent_if_empty, separate_block, block_bookkeeping, open_code_block, fence_line, quote_separator,
    open_list_item, block_start, quoted_paragraph_start, list_paragraph_start, list_start,
    heading_start, block_open, general_block_start, heading_marker, rule_len, close_heading, close_code_block, close_indented_code, end_code_line, closing_fence, close_list,
    block_end, column_count, column_width, column_widths, row_cells, row_line, border_segments,
    border_line, join_cells, boxed_rows, table_lines, flush_table, process_event,
    combine_from, combine_text_events, process_events, join_lines, render_final, rendered_lines,
    rendered, esc_bold, esc_italic, esc_faint, esc_strike, esc_reset, esc_bold_off, esc_italic_off,
    esc_strike_off, fence};
use crate::table::{nat_views, column_count_of, column_widths_of, row_line_of, border_line_of,
    join_cells_of, span_of, shared_widths_of, boxed_table_of, flat_lines_of};
use crate::text::{chars_of, string_of, push_str, push_chars, push_decimal, decimal};
use crate::textops::{sat, is_ws, is_whitespace, char_width, char_display_width, display_width,
    width_of, display_width_of, trim_end, trim_start, trim, trim_end_len, trim_start_len,
    slice_chars, trim_chars, split_whitespace, split_whitespace_of, strip_ansi, strip_ansi_of,
    ends_with, ends_with_char, starts_with, needs_space_before, needs_space_before_token,
    ends_with_visible_space, ends_with_visible_space_of, ends_with_open_html_tag,
    ends_with_open_html_tag_of, is_quote_prefix_only, is_quote_prefix_only_of, is_quote_line,
    is_quote_line_of, strike_through, apply_strikethrough_fallback, longest_backtick_run, repeat,
    push_repeat, inline_code_delimiter, visible_width, visible_display_width_without_ansi};

verus! {

/// Renderer for converting markdown events to terminal output.
pub struct Renderer {
    /// Terminal width for line wrapping
    width: usize,
    /// Current cursor position (column)
    cursor_col: usize,
    /// Accumulated output lines
    lines: Vec<Vec<char>>,
    /// Current line being built
    current_line: Vec<char>,
    /// Current heading level (0 if not in a heading)
    heading_level: u8,
    /// Heading text collected so far
    heading_text: Vec<char>,
    /// Whether we're currently in a code block
    in_code_block: bool,
    /// Whether to use Unicode fallback for strikethrough rendering
    strikethrough_fallback: bool,
    /// Whether we're currently inside strikethrough span
    in_strikethrough: bool,
    /// Code block info string (e.g., language)
    code_block_info: Option<Vec<char>>,
    /// Whether we're currently in a block quote
    in_block_quote: bool,
    /// Current block quote nesting depth
    block_quote_depth: usize,
    /// Prefix character for block quote
    block_quote_prefix: char,
    /// Whether we're currently in a list
    in_list: bool,
    /// Whether the current list is ordered (numbered) vs unordered (bullet)
    list_is_ordered: bool,
    /// Current item number for ordered lists
    list_item_number: u64,
    /// Stack of list state for nested lists: (ordered, next item number)
    list_stack: Vec<(bool, u64)>,
    /// Current list nesting depth
    list_depth: usize,
    /// Marker for the next unordered list item ('-', '*', '+')
    pending_unordered_list_marker: Option<char>,
    /// Display width used to indent wrapped lines within the current list item
    list_item_continuation_indent: usize,
    /// Whether we're currently inside a table
    in_table: bool,
    /// Current table alignments
    table_alignments: Vec<CellAlignment>,
    /// Accumulated table rows
    table_rows: Vec<Vec<Vec<char>>>,
    /// Row currently being built
    current_table_row: Vec<Vec<char>>,
    /// Cell currently being built
    current_table_cell: Vec<char>,
    /// Whether we're currently in a table cell
    in_table_cell: bool,
    /// Whether we're inside a definition list
    in_definition_list: bool,
    /// Whether we're rendering a definition entry
    in_definition_entry: bool,
    /// Whether wide tables are laid out as plain entries
    flatten_wide_tables: bool,
    /// Where the renderer stands between blocks
    marks: BlockMarks,
}

/// The views of a sequence of character vectors.
pub open spec fn char_views(v: Seq<Vec<char>>) -> Seq<Seq<char>> {
    v.map_values(|l: Vec<char>| l@)
}

/// The views of table rows.
pub open spec fn row_views(v: Seq<Vec<Vec<char>>>) -> Seq<Seq<Seq<char>>> {
    v.map_values(|r: Vec<Vec<char>>| char_views(r@))
}

impl View for Renderer {
    type V = RenderState;

    closed spec fn view(&self) -> RenderState {
        RenderState {
            width: self.width as nat,
            cursor_col: self.cursor_col as nat,
            lines: char_views(self.lines@),
            current_line: self.current_line@,
            heading_level: self.heading_level,
            heading_text: self.heading_text@,
            in_code_block: self.in_code_block,
            strikethrough_fallback: self.strikethrough_fallback,
            in_strikethrough: self.in_strikethrough,
            code_block_info: match self.code_block_info {
                Some(v) => Some(v@),
                None => None,
            },
            in_block_quote: self.in_block_quote,
            block_quote_depth: self.block_quote_depth as nat,
            block_quote_prefix: self.block_quote_prefix,
            in_list: self.in_list,
            list_is_ordered: self.list_is_ordered,
            list_item_number: self.list_item_number,
            list_stack: self.list_stack@,
            list_depth: self.list_depth as nat,
            pending_marker: self.pending_unordered_list_marker,
            continuation_indent: self.list_item_continuation_indent as nat,
            in_table: self.in_table,
            table_alignments: self.table_alignments@,
            table_rows: row_views(self.table_rows@),
            current_table_row: char_views(self.current_table_row@),
            current_table_cell: self.current_table_cell@,
            in_table_cell: self.in_table_cell,
            in_definition_list: self.in_definition_list,
            in_definition_entry: self.in_definition_entry,
            flatten_wide_tables: self.flatten_wide_tables,
            marks: self.marks,
        }
    }
}

/// Pushing onto a vector of character vectors pushes the view.
pub proof fn lemma_char_views_push(v: Seq<Vec<char>>, x: Vec<char>)
    ensures
        char_views(v.push(x)) == char_views(v).push(x@),
{
    assert(char_views(v.push(x)) =~= char_views(v).push(x@));
}

impl Renderer {
    /// Create a new renderer with the specified terminal width.
    pub fn new(width: usize) -> (r: Self)
        ensures
            r@ == initial_state(width as nat),
    {
        let r = Renderer {
            width,
            cursor_col: 0,
            lines: Vec::new(),
            current_line: Vec::new(),
            heading_level: 0,
            heading_text: Vec::new(),
            in_code_block: false,
            strikethrough_fallback: true,
            in_strikethrough: false,
            code_block_info: None,
            in_block_quote: false,
            block_quote_depth: 0,
            block_quote_prefix: '│',
            in_list: false,
            list_is_ordered: false,
            list_item_number: 0,
            list_stack: Vec::new(),
            list_depth: 0,
            pending_unordered_list_marker: None,
            list_item_continuation_indent: 0,
            in_table: false,
            table_alignments: Vec::new(),
            table_rows: Vec::new(),
            current_table_row: Vec::new(),
            current_table_cell: Vec::new(),
            in_table_cell: false,
            in_definition_list: false,
            in_definition_entry: false,
            flatten_wide_tables: false,
            marks: BlockMarks { after_heading: false, footnotes_started: false, in_footnote: false },
        };
        assert(r@ =~= initial_state(width as nat));
        r
    }

    /// The render width.
    pub fn width(&self) -> (r: usize)
        ensures
            r == self@.width,
    {
        self.width
    }

    /// Enable or disable Unicode fallback for strikethrough.
    pub fn set_strikethrough_fallback(&mut self, enabled: bool)
        ensures
            final(self)@ == (RenderState { strikethrough_fallback: enabled, ..old(self)@ }),
    {
        self.strikethrough_fallback = enabled;
    }

    /// Enable or disable laying out tables wider than the width as plain
    /// entries (by default they are boxed with their cells wrapped).
    pub fn set_flatten_wide_tables(&mut self, enabled: bool)
        ensures
            final(self)@ == (RenderState { flatten_wide_tables: enabled, ..old(self)@ }),
    {
        self.flatten_wide_tables = enabled;
    }

    /// Appends `t` to the current line, advancing the cursor by `w`.
    fn put_chars(&mut self, t: &Vec<char>, w: usize)
        ensures
            final(self)@ == put(old(self)@, t@, w as nat),
    {
        push_chars(&mut self.current_line, t);
        self.cursor_col = self.cursor_col.saturating_add(w);
    }

    /// Appends `t` to the current line, advancing the cursor by `w`.
    fn put_str(&mut self, t: &str, w: usize)
        ensures
            final(self)@ == put(old(self)@, t@, w as nat),
    {
        push_str(&mut self.current_line, t);
        self.cursor_col = self.cursor_col.saturating_add(w);
    }

    /// Appends `t` to the current line, advancing the cursor by its display width.
    fn put_text(&mut self, t: &Vec<char>)
        ensures
            final(self)@ == put_text(old(self)@, t@),
    {
        let w = display_width_of(t);
        self.put_chars(t, w);
    }

    /// Appends a style code to the current line.
    fn put_code(&mut self, t: &str)
        ensures
            final(self)@ == put_code(old(self)@, t@),
    {
        push_str(&mut self.current_line, t);
    }

    /// Appends a style code to the table cell being collected, or else to the
    /// current line.
    fn put_style(&mut self, t: &str)
        ensures
            final(self)@ == put_style(old(self)@, t@),
    {
        if self.in_table_cell {
            push_str(&mut self.current_table_cell, t);
        } else {
            self.put_code(t);
        }
    }

    /// The block quote prefix: the quote character and a space per level.
    fn block_quote_prefix_string(&self) -> (r: Vec<char>)
        ensures
            r@ == quote_prefix(self@),
    {
        let mut s: Vec<char> = Vec::new();
        let mut i: usize = 0;
        while i < self.block_quote_depth
            invariant
                i <= self.block_quote_depth,
                s@ == Seq::new(2 * i as nat, |k: int| if k % 2 == 0 { self.block_quote_prefix } else { ' ' }),
            decreases self.block_quote_depth - i,
        {
            s.push(self.block_quote_prefix);
            s.push(' ');
            assert(s@ =~= Seq::new(2 * (i + 1) as nat, |k: int| if k % 2 == 0 { self.block_quote_prefix } else { ' ' }));
            i = i + 1;
        }
        s
    }

    /// Appends the block quote prefix to the current line.
    fn push_block_quote_prefix(&mut self)
        ensures
            final(self)@ == push_quote_prefix(old(self)@),
    {
        let prefix = self.block_quote_prefix_string();
        self.put_text(&prefix);
    }

    /// Moves the current line to the output.
    fn flush_line(&mut self)
        ensures
            final(self)@ == flush_line(old(self)@),
    {
        let mut line: Vec<char> = Vec::new();
        std::mem::swap(&mut line, &mut self.current_line);
        proof { lemma_char_views_push(self.lines@, line); }
        self.lines.push(line);
    }

    /// Flushes the current line when it holds anything, resetting the cursor.
    fn flush_if_any(&mut self)
        ensures
            final(self)@ == flush_if_any(old(self)@),
    {
        if self.current_line.len() > 0 {
            self.flush_line();
            self.cursor_col = 0;
        }
    }

    /// Appends `n` spaces of list continuation indent and sets the cursor to `n`.
    fn indent_to(&mut self, n: usize)
        ensures
            final(self)@ == indent_to(old(self)@, n as nat),
    {
        push_repeat(&mut self.current_line, ' ', n);
        self.cursor_col = n;
    }

    /// Render a hard line break.
    fn render_newline(&mut self)
        ensures
            final(self)@ == newline(old(self)@),
    {
        proof { reveal(newline); }
        self.flush_line();
        self.cursor_col = 0;
        if self.in_block_quote {
            self.push_block_quote_prefix();
        } else if self.in_list && self.list_item_continuation_indent > 0 {
            let n = self.list_item_continuation_indent;
            self.indent_to(n);
        }
    }

    /// Inserts a space before an inline element when one is needed.
    fn maybe_insert_space_before_inline(&mut self)
        ensures
            final(self)@ == space_before_inline(old(self)@),
    {
        proof { reveal(space_before_inline); }
        if self.cursor_col == 0 || ends_with_char(&self.current_line, ' ') {
            return;
        }
        if ends_with_char(&self.current_line, '(') || ends_with_char(&self.current_line, '[')
            || ends_with_char(&self.current_line, '!') || ends_with_char(&self.current_line, '{') || ends_with_char(&self.current_line, '/') {
            return;
        }
        self.put_str(" ", 1);
        proof { reveal_strlit(" "); }
    }
}


impl Renderer {
    /// Code text: characters are copied, line breaks become hard breaks.
    fn render_code_text(&mut self, t: &Vec<char>)
        ensures
            final(self)@ == code_text(old(self)@, t@),
    {
        proof { reveal(code_text); }
        let ghost s0 = self@;
        let mut i: usize = 0;
        while i < t.len()
            invariant
                i <= t.len(),
                self@ == code_text(s0, t@.take(i as int)),
            decreases t.len() - i,
        {
            proof { reveal(code_text); }
            assert(t@.take(i + 1).drop_last() =~= t@.take(i as int));
            assert(t@.take(i + 1).last() == t@[i as int]);
            let c = t[i];
            if c == '\n' {
                self.render_newline();
            } else {
                let mut one: Vec<char> = Vec::new();
                one.push(c);
                let w = char_display_width(c);
                self.put_chars(&one, w);
                assert(one@ =~= seq![c]);
            }
            i = i + 1;
        }
        assert(t@.take(t.len() as int) =~= t@);
    }

    /// Places one word of flowing text, wrapping when it would pass the width.
    #[verifier::rlimit(100)]
    #[verifier::spinoff_prover]
    fn place_word(&mut self, word: &Vec<char>, space_before: bool, first: bool)
        ensures
            final(self)@ == place_word(old(self)@, word@, space_before, first),
    {
        proof { reveal(place_word); }
        let ghost s0 = self@;
        let w = display_width_of(word);
        let vis0 = ends_with_visible_space_of(&self.current_line);
        let ns = !first || needs_space_before_token(word);
        let needs_leading = self.cursor_col > 0 && space_before && !vis0 && ns;
        let b: usize = if needs_leading { 1 } else { 0 };
        let too_wide = if self.cursor_col > self.width {
            true
        } else {
            let room = self.width - self.cursor_col;
            w > room || (b == 1 && w == room)
        };
        assert(too_wide == (s0.cursor_col + w + (if needs_leading { 1int } else { 0int }) > s0.width));
        let ghost s1 = if s0.cursor_col > 0 && too_wide && needs_leading { newline(s0) } else { s0 };
        if self.cursor_col > 0 && too_wide && needs_leading {
            self.render_newline();
        }
        assert(self@ == s1);
        let vis1 = ends_with_visible_space_of(&self.current_line);
        let add_space = self.cursor_col > 0 && space_before && !vis1 && ns
            && !ends_with_open_html_tag_of(&self.current_line);
        let ghost s2 = if add_space { put(s1, seq![' '], 1) } else { s1 };
        if add_space {
            self.put_str(" ", 1);
            proof { reveal_strlit(" "); }
        }
        assert(self@ == s2);
        let shown = shown_word_of(word);
        self.put_chars(&shown, w);
    }

    /// Adds the words of a text fragment to the table cell being built.
    #[verifier::rlimit(100)]
    #[verifier::spinoff_prover]
    fn add_cell_words(&mut self, words: &Vec<Vec<char>>, leading: bool)
        ensures
            final(self)@ == (RenderState {
                current_table_cell: cell_add_words(
                    old(self)@.current_table_cell,
                    words@.map_values(|w: Vec<char>| w@),
                    leading,
                ),
                ..old(self)@
            }),
    {
        let ghost wv = words@.map_values(|w: Vec<char>| w@);
        let ghost c0 = self.current_table_cell@;
        let ghost st = self@;
        let mut k: usize = 0;
        while k < words.len()
            invariant
                k <= words.len(),
                self@ == (RenderState { current_table_cell: self.current_table_cell@, ..st }),
                wv == words@.map_values(|w: Vec<char>| w@),
                self.current_table_cell@ == cell_add_words(c0, wv.take(k as int), leading),
            decreases words.len() - k,
        {
            assert(wv.take(k + 1).drop_last() =~= wv.take(k as int));
            assert(wv.take(k + 1).last() == words@[k as int]@);
            let space = if k == 0 { leading } else { true };
            if space && self.current_table_cell.len() > 0 && !ends_with_char(&self.current_table_cell, ' ') {
                self.current_table_cell.push(' ');
            }
            push_chars(&mut self.current_table_cell, &words[k]);
            k = k + 1;
        }
        assert(wv.take(words.len() as int) =~= wv);
    }

    /// Places the words of a text fragment one after the other.
    fn place_words(&mut self, words: &Vec<Vec<char>>, leading: bool)
        ensures
            final(self)@ == place_words(old(self)@, words@.map_values(|w: Vec<char>| w@), leading),
    {
        proof { reveal(place_words); }
        let ghost wv = words@.map_values(|w: Vec<char>| w@);
        let ghost s0 = self@;
        let mut k: usize = 0;
        while k < words.len()
            invariant
                k <= words.len(),
                wv == words@.map_values(|w: Vec<char>| w@),
                self@ == place_words(s0, wv.take(k as int), leading),
            decreases words.len() - k,
        {
            proof { reveal(place_words); }
            assert(wv.take(k + 1).drop_last() =~= wv.take(k as int));
            assert(wv.take(k + 1).last() == words@[k as int]@);
            self.place_word(&words[k], if k == 0 { leading } else { true }, k == 0);
            k = k + 1;
        }
        assert(wv.take(words.len() as int) =~= wv);
    }

    /// Keeps a space after a fragment that ends with whitespace.
    fn trailing_space(&mut self)
        ensures
            final(self)@ == trailing_space(old(self)@),
    {
        proof { reveal(trailing_space); }
        if !ends_with_visible_space_of(&self.current_line) {
            if self.cursor_col >= self.width && self.width > 0 {
                self.render_newline();
            }
            if self.cursor_col == 0 || !ends_with_visible_space_of(&self.current_line) {
                self.put_str(" ", 1);
                proof { reveal_strlit(" "); }
            }
        }
    }

    /// Adds the words of a text fragment to the table cell being built, and
    /// a space after them when the fragment ends with whitespace.
    fn add_cell_text(&mut self, words: &Vec<Vec<char>>, leading: bool, trailing: bool)
        ensures
            final(self)@ == (RenderState {
                current_table_cell: {
                    let c = cell_add_words(old(self)@.current_table_cell, words@.map_values(|w: Vec<char>| w@), leading);
                    if trailing && c.len() > 0 && !ends_with(c, ' ') { c.push(' ') } else { c }
                },
                ..old(self)@
            }),
    {
        self.add_cell_words(words, leading);
        if trailing && self.current_table_cell.len() > 0 && !ends_with_char(&self.current_table_cell, ' ') {
            self.current_table_cell.push(' ');
        }
    }

    /// Render text content with word wrapping.
    #[verifier::rlimit(100)]
    #[verifier::spinoff_prover]
    fn render_text(&mut self, text: &Vec<char>)
        ensures
            final(self)@ == render_text(old(self)@, text@),
    {
        proof { reveal(render_text); }
        if self.in_code_block {
            self.render_code_text(text);
            return;
        }
        let processed = if self.strikethrough_fallback && self.in_strikethrough {
            apply_strikethrough_fallback(text)
        } else {
            clone_chars(text)
        };
        assert(processed@ == processed_text(self@, text@));
        let words = split_whitespace_of(&processed);
        let leading = processed.len() > 0 && is_whitespace(processed[0]);
        let trailing = processed.len() > 0 && is_whitespace(processed[processed.len() - 1]);
        if self.in_table_cell {
            self.add_cell_text(&words, leading, trailing);
            return;
        }
        self.place_words(&words, leading);
        if trailing {
            self.trailing_space();
        }
    }

    /// Render a soft break.
    fn render_space(&mut self)
        ensures
            final(self)@ == render_space(old(self)@),
    {
        proof { reveal(render_space); }
        if self.in_code_block {
            self.render_newline();
            return;
        }
        if self.in_table_cell {
            if self.current_table_cell.len() > 0 && !ends_with_char(&self.current_table_cell, ' ') {
                self.current_table_cell.push(' ');
            }
            return;
        }
        if self.cursor_col > 0 && self.cursor_col < self.width {
            self.put_str(" ", 1);
            proof { reveal_strlit(" "); }
        }
    }

    /// Render strikethrough text start.
    fn render_strikethrough_start(&mut self)
        ensures
            final(self)@ == strike_start(old(self)@),
    {
        if self.strikethrough_fallback {
            self.in_strikethrough = true;
        } else {
            self.put_style("\x1b[9m");
            proof { reveal_strlit("\x1b[9m"); assert("\x1b[9m"@ =~= esc_strike()); }
        }
    }

    /// Render strikethrough text end.
    fn render_strikethrough_end(&mut self)
        ensures
            final(self)@ == strike_end(old(self)@),
    {
        if self.strikethrough_fallback {
            self.in_strikethrough = false;
        } else {
            self.put_style("\x1b[29m");
            proof { reveal_strlit("\x1b[29m"); assert("\x1b[29m"@ =~= esc_strike_off()); }
        }
    }

    /// Render inline code between backtick delimiters, in faint style.
    fn render_inline_code(&mut self, code: &Vec<char>)
        ensures
            final(self)@ == render_inline_code(old(self)@, code@),
    {
        proof { reveal(render_inline_code); }
        let display_code = if self.strikethrough_fallback && self.in_strikethrough {
            apply_strikethrough_fallback(code)
        } else {
            clone_chars(code)
        };
        let ghost text = display_code@;
        let pad = code.len() > 0 && (code[0] == '`' || code[code.len() - 1] == '`');
        assert(pad == (starts_with(code@, '`') || ends_with(code@, '`')));
        let display_code = if pad {
            let mut padded: Vec<char> = Vec::new();
            padded.push(' ');
            push_chars(&mut padded, &display_code);
            padded.push(' ');
            assert(padded@ =~= seq![' '] + text + seq![' ']);
            padded
        } else {
            display_code
        };
        assert(display_code@ == (if pad { seq![' '] + text + seq![' '] } else { text }));
        let delim = inline_code_delimiter(code);
        if self.in_table_cell {
            push_chars(&mut self.current_table_cell, &delim);
            push_chars(&mut self.current_table_cell, &display_code);
            push_chars(&mut self.current_table_cell, &delim);
            return;
        }
        self.maybe_insert_space_before_inline();
        let mut t: Vec<char> = Vec::new();
        push_chars(&mut t, &delim);
        push_str(&mut t, "\x1b[2m");
        push_chars(&mut t, &display_code);
        push_str(&mut t, "\x1b[0m");
        push_chars(&mut t, &delim);
        proof {
            reveal_strlit("\x1b[2m");
            reveal_strlit("\x1b[0m");
            assert("\x1b[2m"@ =~= esc_faint());
            assert("\x1b[0m"@ =~= esc_reset());
        }
        let dl = delim.len();
        let twice = if dl <= usize::MAX / 2 { 2 * dl } else { usize::MAX };
        let w = twice.saturating_add(display_width_of(&display_code));
        self.wrap_for(w);
        self.put_chars(&t, w);
    }

    /// Starts a new line for an element `w` columns wide that would pass the
    /// width.
    fn wrap_for(&mut self, w: usize)
        ensures
            final(self)@ == wrap_for(old(self)@, w as nat),
    {
        if self.cursor_col > 0 && (self.cursor_col > self.width || w > self.width - self.cursor_col) {
            if self.current_line.len() > 0 && self.current_line[self.current_line.len() - 1] == ' ' {
                let _ = self.current_line.pop();
                self.cursor_col = self.cursor_col - 1;
            }
            self.render_newline();
        }
    }

    /// Render raw HTML as it is.
    fn render_raw_html(&mut self, html: &Vec<char>)
        ensures
            final(self)@ == render_raw_html(old(self)@, html@),
    {
        proof { reveal(render_raw_html); }
        if self.in_table_cell {
            push_chars(&mut self.current_table_cell, html);
            return;
        }
        let starts_nl = html.len() > 0 && html[0] == '\n';
        let starts_close = html.len() >= 2 && html[0] == '<' && html[1] == '/';
        if !starts_nl && !starts_close {
            self.maybe_insert_space_before_inline();
        }
        self.render_code_text(html);
    }

    /// Render a link in its shown form.
    fn render_link(&mut self, text: &Vec<char>, url: &Vec<char>)
        ensures
            final(self)@ == render_link(old(self)@, text@, url@),
    {
        proof { reveal(render_link); }
        if !self.in_table_cell && url.len() == 0 {
            self.maybe_insert_space_before_inline();
            self.render_text(text);
            return;
        }
        let t = link_form_of(text, url);
        if self.in_table_cell {
            push_chars(&mut self.current_table_cell, &t);
            return;
        }
        self.maybe_insert_space_before_inline();
        let w = display_width_of(&t);
        self.put_chars(&t, w);
    }

    /// Render an image in its shown form.
    fn render_image(&mut self, alt: &Vec<char>, url: &Vec<char>)
        ensures
            final(self)@ == render_image(old(self)@, alt@, url@),
    {
        proof { reveal(render_image); }
        let mut t: Vec<char> = Vec::new();
        t.push('!');
        t.push('[');
        push_chars(&mut t, alt);
        t.push(']');
        t.push('(');
        push_chars(&mut t, url);
        t.push(')');
        assert(t@ =~= image_form(alt@, url@));
        if self.in_table_cell {
            push_chars(&mut self.current_table_cell, &t);
            return;
        }
        self.maybe_insert_space_before_inline();
        let w = display_width_of(&t);
        self.put_chars(&t, w);
    }

    /// Render a task list checkbox marker.
    fn render_task_marker(&mut self, checked: bool)
        ensures
            final(self)@ == render_task_marker(old(self)@, checked),
    {
        let marker = if checked { "[✔] " } else { "[ ] " };
        proof {
            reveal_strlit("[✔] ");
            reveal_strlit("[ ] ");
            assert(marker@ =~= task_marker(checked));
        }
        if self.in_table_cell {
            push_str(&mut self.current_table_cell, marker);
            return;
        }
        self.put_str(marker, 4);
    }

    /// Render a footnote reference inline.
    fn render_footnote_reference(&mut self, label: &Vec<char>)
        ensures
            final(self)@ == render_footnote_reference(old(self)@, label@),
    {
        proof { reveal(render_footnote_reference); }
        let mut t: Vec<char> = Vec::new();
        t.push('[');
        t.push('^');
        push_chars(&mut t, label);
        t.push(']');
        assert(t@ =~= footnote_text(label@));
        if self.in_table_cell {
            push_chars(&mut self.current_table_cell, &t);
            return;
        }
        self.maybe_insert_space_before_inline();
        self.put_text(&t);
    }

    /// Render a horizontal rule.
    fn render_rule(&mut self, marker: char)
        ensures
            final(self)@ == render_rule(old(self)@, marker),
    {
        proof { reveal(render_rule); }
        self.flush_if_any();
        let line = rule_line_of(marker, self.width);
        proof { lemma_char_views_push(self.lines@, line); }
        self.lines.push(line);
    }
}

impl Renderer {
    /// Takes the marker of the next list item, advancing the item number.
    #[verifier::rlimit(100)]
    #[verifier::spinoff_prover]
    fn take_item_marker(&mut self) -> (m: Vec<char>)
        ensures
            (m@, final(self)@) == item_marker(old(self)@),
    {
        proof { reveal(item_marker); }
        let ghost s0 = self@;
        if self.list_stack.len() > 0 {
            let last = self.list_stack.len() - 1;
            let (ordered, next) = self.list_stack[last];
            self.list_is_ordered = ordered;
            if ordered {
                let mut m: Vec<char> = Vec::new();
                push_decimal(&mut m, next);
                m.push('.');
                m.push(' ');
                let bumped = if next < u64::MAX { next + 1 } else { next };
                self.list_stack.set(last, (ordered, bumped));
                self.list_item_number = bumped;
                assert(m@ =~= decimal(next as nat) + seq!['.', ' ']);
                assert(self@ =~= item_marker(s0).1);
                m
            } else {
                let c = match self.pending_unordered_list_marker {
                    Some(c) => c,
                    None => '*',
                };
                self.pending_unordered_list_marker = None;
                let mut m: Vec<char> = Vec::new();
                if c == '-' {
                    m.push('-');
                } else {
                    m.push('•');
                }
                m.push(' ');
                assert(m@ =~= bullet(c));
                assert(self@ =~= item_marker(s0).1);
                m
            }
        } else if self.list_is_ordered {
            let n = self.list_item_number;
            let mut m: Vec<char> = Vec::new();
            push_decimal(&mut m, n);
            m.push('.');
            m.push(' ');
            self.list_item_number = if n < u64::MAX { n + 1 } else { n };
            assert(m@ =~= decimal(n as nat) + seq!['.', ' ']);
            m
        } else {
            let c = match self.pending_unordered_list_marker {
                Some(c) => c,
                None => '*',
            };
            self.pending_unordered_list_marker = None;
            let mut m: Vec<char> = Vec::new();
            if c == '-' {
                m.push('-');
            } else {
                m.push('•');
            }
            m.push(' ');
            assert(m@ =~= bullet(c));
            m
        }
    }

    /// Opens a list item: indentation by depth and the item marker.
    #[verifier::rlimit(100)]
    #[verifier::spinoff_prover]
    fn open_list_item(&mut self)
        ensures
            final(self)@ == open_list_item(old(self)@),
    {
        proof { reveal(open_list_item); }
        if self.in_block_quote && self.current_line.len() == 0 {
            self.push_block_quote_prefix();
        }
        let ghost s1 = self@;
        let depth = self.list_depth;
        let n = if depth <= usize::MAX / 2 { 2 * depth } else { usize::MAX };
        let mut indentation: Vec<char> = Vec::new();
        push_repeat(&mut indentation, ' ', n);
        assert(indentation@ =~= repeat(' ', sat(2 * s1.list_depth as int)));
        let marker = self.take_item_marker();
        push_chars(&mut self.current_line, &indentation);
        push_chars(&mut self.current_line, &marker);
        let indent = display_width_of(&indentation).saturating_add(display_width_of(&marker));
        self.list_item_continuation_indent = indent;
        self.cursor_col = indent;
    }

    /// Ends the current line with the opening fence and info string.
    fn put_fence_line(&mut self, info: &Option<String>)
        ensures
            final(self)@ == fence_line(old(self)@, match info { Some(i) => Some(i@), None => None }),
    {
        proof { reveal(fence_line); }
        let ghost iv = match info { Some(i) => Some(i@), None => None::<Seq<char>> };
        let ghost s0 = self@;
        let mut line: Vec<char> = Vec::new();
        std::mem::swap(&mut line, &mut self.current_line);
        push_str(&mut line, "```");
        proof { reveal_strlit("```"); assert("```"@ =~= crate::render_model::fence()); }
        match info {
            Some(lang) => push_str(&mut line, lang.as_str()),
            None => {},
        }
        assert(line@ =~= s0.current_line + crate::render_model::fence() + match iv { Some(i) => i, None => Seq::empty() });
        let w = visible_display_width_without_ansi(&line);
        self.current_line = line;
        self.cursor_col = w;
    }

    /// Opens a code block: the fence line, then faint style.
    #[verifier::rlimit(100)]
    #[verifier::spinoff_prover]
    fn open_code_block(&mut self, info: &Option<String>)
        ensures
            final(self)@ == open_code_block(old(self)@, match info { Some(i) => Some(i@), None => None }),
    {
        proof { reveal(open_code_block); reveal(list_indent_if_empty); }
        let ghost iv = match info { Some(i) => Some(i@), None => None::<Seq<char>> };
        let ghost s0 = self@;
        let ghost s1 = list_indent_if_empty(s0);
        if self.in_list && self.current_line.len() == 0 && self.list_item_continuation_indent > 0 {
            let n = self.list_item_continuation_indent;
            self.indent_to(n);
        }
        assert(self@ == s1);
        let ghost s2 = if s1.in_block_quote && s1.current_line.len() == 0 { push_quote_prefix(s1) } else { s1 };
        if self.in_block_quote && self.current_line.len() == 0 {
            self.push_block_quote_prefix();
        }
        assert(self@ == s2);
        self.in_code_block = true;
        self.code_block_info = match info {
            Some(i) => Some(chars_of(i.as_str())),
            None => None,
        };
        assert(self@ == (RenderState { in_code_block: true, code_block_info: iv, ..s2 }));
        if info.is_some() {
            self.put_fence_line(info);
            self.render_newline();
        }
        self.put_code("\x1b[2m");
        proof { reveal_strlit("\x1b[2m"); assert("\x1b[2m"@ =~= esc_faint()); }
    }

    /// Flushes the pending line and adds a blank line before a major block.
    #[verifier::rlimit(100)]
    #[verifier::spinoff_prover]
    fn separate_block(&mut self, block: &Block)
        ensures
            final(self)@ == separate_block(old(self)@, block@),
    {
        proof { reveal(separate_block); }
        self.flush_if_any();
        let wants = match block {
            Block::Heading { .. } | Block::Paragraph | Block::BlockQuote | Block::CodeBlock { .. }
            | Block::List { .. } | Block::Table { .. } | Block::FootnoteDefinition { .. }
            | Block::DefinitionList => true,
            _ => false,
        };
        let is_heading = match block {
            Block::Heading { .. } => true,
            _ => false,
        };
        let tight = is_heading && (self.in_block_quote || self.marks.after_heading);
        self.marks = BlockMarks { after_heading: false, ..self.marks };
        if wants && !tight && self.lines.len() > 0 && self.lines[self.lines.len() - 1].len() > 0 {
            let line = if self.in_block_quote {
                let p = self.block_quote_prefix_string();
                let e = trim_end_len(&p);
                slice_chars(&p, 0, e)
            } else {
                Vec::new()
            };
            proof { lemma_char_views_push(self.lines@, line); }
            self.lines.push(line);
        }
    }

    /// Bookkeeping at the start of tables, footnotes and definition lists.
    #[verifier::rlimit(100)]
    #[verifier::spinoff_prover]
    fn block_bookkeeping(&mut self, block: &Block)
        ensures
            final(self)@ == block_bookkeeping(old(self)@, block@),
    {
        proof { reveal(block_bookkeeping); }
        match block {
            Block::Table { alignments } => {
                self.in_table = true;
                self.table_alignments = copy_alignments(alignments);
                self.table_rows = Vec::new();
                self.current_table_row = Vec::new();
                self.current_table_cell = Vec::new();
                self.in_table_cell = false;
                assert(row_views(self.table_rows@) =~= Seq::empty());
                assert(char_views(self.current_table_row@) =~= Seq::empty());
            },
            Block::TableHead | Block::TableRow => {
                self.current_table_row = Vec::new();
                assert(char_views(self.current_table_row@) =~= Seq::empty());
            },
            Block::TableCell => {
                self.current_table_cell = Vec::new();
                self.in_table_cell = true;
            },
            Block::FootnoteDefinition { label } => self.footnote_start(label),
            Block::DefinitionList => {
                self.in_definition_list = true;
            },
            Block::DefinitionListDefinition => {
                self.in_definition_entry = true;
                self.put_str("  ", 2);
                proof { reveal_strlit("  "); assert("  "@ =~= seq![' ', ' ']); }
            },
            _ => {},
        }
    }

    /// Starts a footnote definition: the footnote section line before the
    /// first one, then the label.
    fn footnote_start(&mut self, label: &String)
        ensures
            final(self)@ == footnote_start(old(self)@, label@),
    {
        if !self.marks.footnotes_started {
            let mut line: Vec<char> = Vec::new();
            push_str(&mut line, "\x1b[2mFootnotes\x1b[0m");
            proof {
                reveal_strlit("\x1b[2mFootnotes\x1b[0m");
                assert("\x1b[2mFootnotes\x1b[0m"@ =~= footnotes_line());
            }
            proof { lemma_char_views_push(self.lines@, line); }
            self.lines.push(line);
            self.marks = BlockMarks { footnotes_started: true, ..self.marks };
        }
        self.marks = BlockMarks { in_footnote: true, ..self.marks };
        let mut t: Vec<char> = Vec::new();
        t.push('[');
        t.push('^');
        push_str(&mut t, label.as_str());
        t.push(']');
        t.push(' ');
        assert(t@ =~= seq!['[', '^'] + label@ + seq![']', ' ']);
        self.put_text(&t);
    }

    /// Ends a footnote definition.
    fn close_footnote(&mut self)
        ensures
            final(self)@ == flush_if_any(
                RenderState { marks: BlockMarks { in_footnote: false, ..old(self)@.marks }, ..old(self)@ },
            ),
    {
        self.marks = BlockMarks { in_footnote: false, ..self.marks };
        self.flush_if_any();
    }

    /// Adds a bare quote line after a previous quoted line.
    fn quote_separator(&mut self)
        ensures
            final(self)@ == quote_separator(old(self)@),
    {
        proof { reveal(quote_separator); }
        if self.lines.len() > 0 {
            let last = self.lines.len() - 1;
            if is_quote_line_of(&self.lines[last]) && !is_quote_prefix_only_of(&self.lines[last]) {
                let p = self.block_quote_prefix_string();
                let e = trim_end_len(&p);
                let line = slice_chars(&p, 0, e);
                proof { lemma_char_views_push(self.lines@, line); }
                self.lines.push(line);
            }
        }
    }

    /// A paragraph starting inside a block quote.
    fn quoted_paragraph_start(&mut self)
        ensures
            final(self)@ == quoted_paragraph_start(old(self)@),
    {
        proof { reveal(quoted_paragraph_start); }
        if self.current_line.len() == 0 {
            self.quote_separator();
            if self.in_list && self.list_item_continuation_indent > 0 {
                let n = self.list_item_continuation_indent;
                self.indent_to(n);
            }
            self.push_block_quote_prefix();
        }
    }

    /// What a rendered block does at its start, after separation.
    #[verifier::rlimit(100)]
    #[verifier::spinoff_prover]
    fn block_open(&mut self, block: &Block)
        ensures
            final(self)@ == block_open(old(self)@, block@),
    {
        proof { reveal(block_open); }
        match block {
            Block::Heading { level, .. } => {
                if self.in_block_quote && self.current_line.len() == 0 {
                    self.push_block_quote_prefix();
                }
                self.heading_level = *level;
                self.heading_text = Vec::new();
                self.put_code("\x1b[1m");
                proof { reveal_strlit("\x1b[1m"); assert("\x1b[1m"@ =~= esc_bold()); }
                let mut marker: Vec<char> = Vec::new();
                push_repeat(&mut marker, '#', *level as usize);
                marker.push(' ');
                assert(marker@ =~= heading_marker(*level));
                self.put_text(&marker);
            },
            Block::BlockQuote => {
                self.block_quote_depth = self.block_quote_depth.saturating_add(1);
                self.in_block_quote = true;
            },
            Block::CodeBlock { info } => {
                self.open_code_block(info);
            },
            Block::List { start } => {
                let ordered = start.is_some();
                let next = match start {
                    Some(n) => *n,
                    None => 1u64,
                };
                self.list_stack.push((ordered, next));
                self.in_list = true;
                self.list_depth = self.list_stack.len() - 1;
                self.list_is_ordered = ordered;
                self.list_item_number = next;
            },
            Block::ListItem => {
                self.open_list_item();
            },
            _ => {},
        }
    }

    /// Handle the start of a block element.
    fn render_block_start(&mut self, block: &Block)
        ensures
            final(self)@ == block_start(old(self)@, block@),
    {
        proof { reveal(block_start); reveal(general_block_start); }
        let is_paragraph = match block {
            Block::Paragraph => true,
            _ => false,
        };
        if is_paragraph && self.marks.in_footnote && self.current_line.len() > 0 {
            return;
        }
        if is_paragraph && self.in_block_quote {
            self.quoted_paragraph_start();
            return;
        }
        if is_paragraph && self.in_list {
            if self.current_line.len() == 0 && self.list_item_continuation_indent > 0 {
                let n = self.list_item_continuation_indent;
                self.indent_to(n);
            }
            return;
        }
        let internal = match block {
            Block::TableHead | Block::TableRow | Block::TableCell => true,
            _ => false,
        };
        let nested_list = match block {
            Block::List { .. } => self.in_list,
            _ => false,
        };
        if !internal && !nested_list {
            self.separate_block(block);
        }
        self.block_bookkeeping(block);
        let bookkeeping = match block {
            Block::TableHead | Block::TableRow | Block::TableCell | Block::Table { .. }
            | Block::FootnoteDefinition { .. } | Block::DefinitionList | Block::DefinitionListTitle
            | Block::DefinitionListDefinition => true,
            _ => false,
        };
        if !bookkeeping {
            self.block_open(block);
        }
    }
}

/// Pushing onto a vector of rows pushes the row's view.
pub proof fn lemma_row_views_push(v: Seq<Vec<Vec<char>>>, x: Vec<Vec<char>>)
    ensures
        row_views(v.push(x)) == row_views(v).push(char_views(x@)),
{
    assert(row_views(v.push(x)) =~= row_views(v).push(char_views(x@)));
}

impl Renderer {
    /// Ends a heading: bold off, and the heading line ends.
    fn close_heading(&mut self)
        ensures
            final(self)@ == close_heading(old(self)@),
    {
        proof { reveal(close_heading); }
        self.put_code("\x1b[22m");
        proof { reveal_strlit("\x1b[22m"); assert("\x1b[22m"@ =~= esc_bold_off()); }
        self.flush_if_any();
        self.cursor_col = 0;
        self.heading_level = 0;
        self.marks = BlockMarks { after_heading: true, ..self.marks };
    }

    /// Keeps the pending code line if it shows anything, and empties it.
    #[verifier::rlimit(100)]
    #[verifier::spinoff_prover]
    fn end_code_line(&mut self)
        ensures
            final(self)@ == end_code_line(old(self)@),
    {
        proof { reveal(end_code_line); }
        if self.current_line.len() > 0 {
            let stripped = strip_ansi_of(&self.current_line);
            let e = trim_end_len(&stripped);
            let meaningful = slice_chars(&stripped, 0, e);
            if meaningful.len() > 0 && !is_quote_prefix_only_of(&meaningful) {
                let line = clone_chars(&self.current_line);
                proof { lemma_char_views_push(self.lines@, line); }
                self.lines.push(line);
            }
            self.current_line = Vec::new();
        }
    }

    /// Emits the closing fence line of a code block.
    #[verifier::rlimit(100)]
    #[verifier::spinoff_prover]
    fn closing_fence(&mut self)
        ensures
            final(self)@ == closing_fence(old(self)@),
    {
        proof { reveal(closing_fence); }
        self.cursor_col = 0;
        self.put_code("\x1b[0m");
        proof { reveal_strlit("\x1b[0m"); assert("\x1b[0m"@ =~= esc_reset()); }
        if self.in_list && self.list_item_continuation_indent > 0 {
            let n = self.list_item_continuation_indent;
            push_repeat(&mut self.current_line, ' ', n);
            self.cursor_col = n;
        }
        if self.in_block_quote {
            self.push_block_quote_prefix();
        }
        push_str(&mut self.current_line, "```");
        proof { reveal_strlit("```"); assert("```"@ =~= crate::render_model::fence()); }
        self.flush_line();
        self.cursor_col = 0;
        self.in_code_block = false;
        self.code_block_info = None;
    }

    /// Ends a code block: the pending code line if it shows anything, then
    /// the closing fence.
    fn close_code_block(&mut self)
        ensures
            final(self)@ == close_code_block(old(self)@),
    {
        proof { reveal(end_code_line); }
        let fenced = self.code_block_info.is_some();
        self.end_code_line();
        if fenced {
            self.closing_fence();
        } else {
            self.close_indented_code();
        }
    }

    /// Ends an indented code block: the style is reset at the end of the
    /// last line.
    #[verifier::spinoff_prover]
    fn close_indented_code(&mut self)
        ensures
            final(self)@ == close_indented_code(old(self)@),
    {
        let ghost s0 = self@;
        let ghost lv0 = self.lines@;
        let ghost cv = char_views(lv0);
        if self.lines.len() > 0 {
            let mut last = self.lines.pop().unwrap();
            assert(self.lines@ == lv0.drop_last());
            assert(last@ == cv.last());
            assert(char_views(self.lines@) =~= cv.drop_last());
            push_str(&mut last, "\x1b[0m");
            proof { reveal_strlit("\x1b[0m"); assert("\x1b[0m"@ =~= esc_reset()); }
            proof { lemma_char_views_push(self.lines@, last); }
            self.lines.push(last);
            assert(char_views(self.lines@) == cv.drop_last().push(cv.last() + esc_reset()));
        }
        self.current_line = Vec::new();
        self.cursor_col = 0;
        self.in_code_block = false;
        self.code_block_info = None;
    }

    /// Ends a list, returning to the enclosing list if there is one.
    fn close_list(&mut self)
        ensures
            final(self)@ == close_list(old(self)@),
    {
        proof { reveal(close_list); }
        if self.list_stack.len() > 0 {
            let _ = self.list_stack.pop();
        }
        let n = self.list_stack.len();
        self.list_depth = if n > 0 { n - 1 } else { 0 };
        if n > 0 {
            let (ordered, next) = self.list_stack[n - 1];
            self.in_list = true;
            self.list_is_ordered = ordered;
            self.list_item_number = next;
        } else {
            self.in_list = false;
            self.list_is_ordered = false;
            self.list_item_number = 0;
            self.list_item_continuation_indent = 0;
        }
    }

    /// Ends a table cell: its trimmed text joins the current row.
    fn close_table_cell(&mut self)
        ensures
            final(self)@ == (RenderState {
                in_table_cell: false,
                current_table_row: old(self)@.current_table_row.push(trim(old(self)@.current_table_cell)),
                current_table_cell: Seq::empty(),
                ..old(self)@
            }),
    {
        self.in_table_cell = false;
        let cell = trim_chars(&self.current_table_cell);
        proof { lemma_char_views_push(self.current_table_row@, cell); }
        self.current_table_row.push(cell);
        self.current_table_cell = Vec::new();
    }

    /// Ends a table row: a non-empty row joins the table.
    fn close_table_row(&mut self)
        ensures
            final(self)@ == (if old(self)@.current_table_row.len() > 0 {
                RenderState {
                    table_rows: old(self)@.table_rows.push(old(self)@.current_table_row),
                    current_table_row: Seq::empty(),
                    ..old(self)@
                }
            } else {
                old(self)@
            }),
    {
        if self.current_table_row.len() > 0 {
            let mut row: Vec<Vec<char>> = Vec::new();
            std::mem::swap(&mut row, &mut self.current_table_row);
            proof { lemma_row_views_push(self.table_rows@, row); }
            self.table_rows.push(row);
            assert(char_views(self.current_table_row@) =~= Seq::empty());
        }
    }

    /// Emits the collected table: boxed when it fits the width; otherwise as
    /// plain entries when wide tables are flattened, else boxed with the
    /// columns sharing the width.
    #[verifier::rlimit(100)]
    #[verifier::spinoff_prover]
    fn flush_table(&mut self)
        ensures
            final(self)@ == flush_table(old(self)@),
    {
        proof { reveal(flush_table); reveal(table_lines); }
        if self.table_rows.len() == 0 {
            return;
        }
        let count = column_count_of(&self.table_rows);
        if count == 0 {
            return;
        }
        let ghost s0 = self@;
        let widths = column_widths_of(&self.table_rows);
        let natural = span_of(&widths);
        let out = if natural <= self.width {
            boxed_table_of(&self.table_alignments, &self.table_rows, &widths)
        } else if self.flatten_wide_tables {
            flat_lines_of(&self.table_rows)
        } else {
            let shared = shared_widths_of(&widths, self.width);
            boxed_table_of(&self.table_alignments, &self.table_rows, &shared)
        };
        assert(char_views(out@) == table_lines(s0));
        let mut k: usize = 0;
        while k < out.len()
            invariant
                k <= out.len(),
                self@ == (RenderState { lines: s0.lines + char_views(out@).take(k as int), ..s0 }),
            decreases out.len() - k,
        {
            let line = clone_chars(&out[k]);
            proof { lemma_char_views_push(self.lines@, line); }
            self.lines.push(line);
            assert(char_views(out@).take(k + 1) =~= char_views(out@).take(k as int).push(out@[k as int]@));
            assert(self@.lines =~= s0.lines + char_views(out@).take(k + 1));
            k = k + 1;
        }
        assert(char_views(out@).take(out.len() as int) =~= char_views(out@));
    }

    /// Ends a table: emits it and clears the table state.
    fn close_table(&mut self)
        ensures
            final(self)@ == (RenderState {
                in_table: false,
                table_alignments: Seq::empty(),
                table_rows: Seq::empty(),
                current_table_row: Seq::empty(),
                current_table_cell: Seq::empty(),
                in_table_cell: false,
                ..flush_table(old(self)@)
            }),
    {
        self.flush_table();
        self.in_table = false;
        self.table_alignments = Vec::new();
        self.table_rows = Vec::new();
        self.current_table_row = Vec::new();
        self.current_table_cell = Vec::new();
        self.in_table_cell = false;
        assert(row_views(self.table_rows@) =~= Seq::empty());
        assert(char_views(self.current_table_row@) =~= Seq::empty());
    }

    /// Ends a block quote: one level less, and the pending line flushed.
    #[verifier::rlimit(100)]
    #[verifier::spinoff_prover]
    fn close_block_quote(&mut self)
        ensures
            final(self)@ == ({
                let d: nat = if old(self)@.block_quote_depth > 0 {
                    (old(self)@.block_quote_depth - 1) as nat
                } else {
                    0
                };
                flush_if_any(RenderState { block_quote_depth: d, in_block_quote: d > 0, ..old(self)@ })
            }),
    {
        if self.block_quote_depth > 0 {
            self.block_quote_depth = self.block_quote_depth - 1;
        }
        self.in_block_quote = self.block_quote_depth > 0;
        self.flush_if_any();
    }

    /// Ends a list item: no more continuation indent, and the pending line flushed.
    fn close_list_item(&mut self)
        ensures
            final(self)@ == flush_if_any(RenderState { continuation_indent: 0, ..old(self)@ }),
    {
        self.list_item_continuation_indent = 0;
        self.flush_if_any();
    }

    /// Handle the end of a block element.
    #[verifier::rlimit(100)]
    #[verifier::spinoff_prover]
    fn render_block_end(&mut self, block: &Block)
        ensures
            final(self)@ == block_end(old(self)@, block@),
    {
        proof { reveal(block_end); }
        match block {
            Block::Heading { .. } => self.close_heading(),
            Block::CodeBlock { .. } => self.close_code_block(),
            Block::BlockQuote => self.close_block_quote(),
            Block::List { .. } => self.close_list(),
            Block::ListItem => self.close_list_item(),
            Block::TableCell => self.close_table_cell(),
            Block::TableRow | Block::TableHead => self.close_table_row(),
            Block::Table { .. } => self.close_table(),
            Block::DefinitionList => {
                self.in_definition_list = false;
                self.in_definition_entry = false;
            },
            Block::DefinitionListDefinition => {
                self.in_definition_entry = false;
            },
            Block::FootnoteDefinition { .. } => self.close_footnote(),
            Block::DefinitionListTitle => {},
            _ => self.flush_if_any(),
        }
    }
}

impl Renderer {
    /// Process a single markdown event.
    #[verifier::rlimit(100)]
    #[verifier::spinoff_prover]
    fn process_event(&mut self, event: &Event)
        ensures
            final(self)@ == process_event(old(self)@, event@),
    {
        proof {
            reveal(process_event);
            reveal_strlit("\x1b[1m");
            reveal_strlit("\x1b[3m");
            reveal_strlit("\x1b[22m");
            reveal_strlit("\x1b[23m");
            assert("\x1b[1m"@ =~= esc_bold());
            assert("\x1b[3m"@ =~= esc_italic());
            assert("\x1b[22m"@ =~= esc_bold_off());
            assert("\x1b[23m"@ =~= esc_italic_off());
        }
        match event {
            Event::Text(t) => {
                let v = chars_of(t.as_str());
                self.render_text(&v);
            },
            Event::SoftBreak => self.render_space(),
            Event::HardBreak => self.render_newline(),
            Event::Rule(m) => self.render_rule(*m),
            Event::Start(b) => self.render_block_start(b),
            Event::End(b) => self.render_block_end(b),
            Event::StrongStart => self.put_style("\x1b[1m"),
            Event::StrongEnd => self.put_style("\x1b[22m"),
            Event::EmphasisStart => self.put_style("\x1b[3m"),
            Event::EmphasisEnd => self.put_style("\x1b[23m"),
            Event::StrikethroughStart => self.render_strikethrough_start(),
            Event::StrikethroughEnd => self.render_strikethrough_end(),
            Event::InlineCode(c) => {
                let v = chars_of(c.as_str());
                self.render_inline_code(&v);
            },
            Event::RawHtml(h) => {
                let v = chars_of(h.as_str());
                self.render_raw_html(&v);
            },
            Event::Link { text, url } => {
                let t = chars_of(text.as_str());
                let u = chars_of(url.as_str());
                self.render_link(&t, &u);
            },
            Event::Image { alt, url } => {
                let v = chars_of(alt.as_str());
                let u = chars_of(url.as_str());
                self.render_image(&v, &u);
            },
            Event::TaskListMarker(checked) => self.render_task_marker(*checked),
            Event::FootnoteReference(label) => {
                let v = chars_of(label.as_str());
                self.render_footnote_reference(&v);
            },
            Event::ListItemMarker(c) => {
                self.pending_unordered_list_marker = Some(*c);
            },
        }
    }

    /// Combine consecutive text events into a single text event, as escapes
    /// such as `\*text\*` arrive from the parser in several pieces.
    pub fn combine_text_events(events: &[Event]) -> (r: Vec<Event>)
        ensures
            event_views(r@) == combine_text_events(event_views(events@)),
    {
        let ghost ev = event_views(events@);
        let mut result: Vec<Event> = Vec::new();
        let mut has_pending = false;
        let mut pending: Vec<char> = Vec::new();
        let mut i: usize = 0;
        assert(event_views(result@) =~= Seq::<EventView>::empty());
        while i < events.len()
            invariant
                i <= events.len(),
                ev == event_views(events@),
                combine_from(
                    ev,
                    i as int,
                    if has_pending { Some(pending@) } else { None },
                    event_views(result@),
                ) == combine_text_events(ev),
            decreases events.len() - i,
        {
            let ghost old_p = if has_pending { Some(pending@) } else { None };
            let ghost old_a = event_views(result@);
            assert(ev[i as int] == events@[i as int]@);
            match &events[i] {
                Event::Text(t) => {
                    if has_pending {
                        push_str(&mut pending, t.as_str());
                    } else {
                        pending = chars_of(t.as_str());
                        has_pending = true;
                    }
                },
                _ => {
                    if has_pending {
                        let ghost before0 = result@;
                        let t = string_of(&pending);
                        result.push(Event::Text(t));
                        assert(event_views(result@) =~= event_views(before0).push(EventView::Text(pending@)));
                        has_pending = false;
                        pending = Vec::new();
                    }
                    let e = copy_event(&events[i]);
                    let ghost before = result@;
                    result.push(e);
                    assert(event_views(result@) =~= event_views(before).push(ev[i as int]));
                },
            }
            assert(combine_from(ev, i as int, old_p, old_a) == combine_from(
                ev,
                i + 1,
                if has_pending { Some(pending@) } else { None },
                event_views(result@),
            ));
            i = i + 1;
        }
        if has_pending {
            let ghost before = result@;
            let t = string_of(&pending);
            result.push(Event::Text(t));
            assert(event_views(result@) =~= event_views(before).push(EventView::Text(pending@)));
        }
        result
    }

    /// Renders the events into the output lines.
    fn render_events(&mut self, events: &[Event])
        ensures
            final(self)@ == render_final(old(self)@, event_views(events@)),
    {
        self.reset();
        let combined = Self::combine_text_events(events);
        let ghost ce = event_views(combined@);
        let ghost s0 = self@;
        let mut i: usize = 0;
        while i < combined.len()
            invariant
                i <= combined.len(),
                ce == event_views(combined@),
                self@ == process_events(s0, ce.take(i as int)),
            decreases combined.len() - i,
        {
            assert(ce.take(i + 1).drop_last() =~= ce.take(i as int));
            assert(ce.take(i + 1).last() == combined@[i as int]@);
            self.process_event(&combined[i]);
            i = i + 1;
        }
        assert(ce.take(combined.len() as int) =~= ce);
        if self.current_line.len() > 0 {
            let line = clone_chars(&self.current_line);
            proof { lemma_char_views_push(self.lines@, line); }
            self.lines.push(line);
        }
    }

    /// Render markdown events to a string: the output lines joined by line
    /// breaks.
    pub fn render(&mut self, events: &[Event]) -> (r: String)
        ensures
            final(self)@ == render_final(old(self)@, event_views(events@)),
            r@ == rendered(old(self)@, event_views(events@)),
    {
        self.render_events(events);
        let joined = join_char_lines(&self.lines);
        string_of(&joined)
    }

    /// Render markdown events to output lines.
    pub fn render_lines(&mut self, events: &[Event]) -> (r: Vec<String>)
        ensures
            final(self)@ == render_final(old(self)@, event_views(events@)),
            r@.map_values(|l: String| l@) == rendered_lines(old(self)@, event_views(events@)),
    {
        self.render_events(events);
        let ghost lv = char_views(self.lines@);
        let mut out: Vec<String> = Vec::new();
        let mut k: usize = 0;
        while k < self.lines.len()
            invariant
                k <= self.lines.len(),
                lv == char_views(self.lines@),
                out@.map_values(|l: String| l@) == lv.take(k as int),
            decreases self.lines.len() - k,
        {
            let l = string_of(&self.lines[k]);
            let ghost before = out@;
            out.push(l);
            assert(out@.map_values(|l: String| l@) =~= before.map_values(|l: String| l@).push(l@));
            assert(lv.take(k + 1) =~= lv.take(k as int).push(lv[k as int]));
            k = k + 1;
        }
        assert(lv.take(self.lines.len() as int) =~= lv);
        out
    }

    /// Resets everything but the width, the strikethrough mode and the quote
    /// prefix character.
    fn reset(&mut self)
        ensures
            final(self)@ == reset_state(old(self)@),
    {
        self.lines = Vec::new();
        self.current_line = Vec::new();
        self.cursor_col = 0;
        self.heading_level = 0;
        self.heading_text = Vec::new();
        self.in_code_block = false;
        self.in_strikethrough = false;
        self.code_block_info = None;
        self.in_block_quote = false;
        self.block_quote_depth = 0;
        self.in_list = false;
        self.list_is_ordered = false;
        self.list_item_number = 0;
        self.list_stack = Vec::new();
        self.list_depth = 0;
        self.pending_unordered_list_marker = None;
        self.list_item_continuation_indent = 0;
        self.in_table = false;
        self.table_alignments = Vec::new();
        self.table_rows = Vec::new();
        self.current_table_row = Vec::new();
        self.current_table_cell = Vec::new();
        self.in_table_cell = false;
        self.in_definition_list = false;
        self.in_definition_entry = false;
        self.marks = BlockMarks { after_heading: false, footnotes_started: false, in_footnote: false };
        assert(char_views(self.lines@) =~= Seq::empty());
        assert(row_views(self.table_rows@) =~= Seq::empty());
        assert(char_views(self.current_table_row@) =~= Seq::empty());
        assert(self@ =~= reset_state(old(self)@));
    }
}

/// The lines joined by line breaks.
fn join_char_lines(lines: &Vec<Vec<char>>) -> (r: Vec<char>)
    ensures
        r@ == join_lines(char_views(lines@)),
{
    let ghost lv = char_views(lines@);
    let mut out: Vec<char> = Vec::new();
    let mut k: usize = 0;
    while k < lines.len()
        invariant
            k <= lines.len(),
            lv == char_views(lines@),
            out@ == join_lines(lv.take(k as int)),
        decreases lines.len() - k,
    {
        assert(lv.take(k + 1).drop_last() =~= lv.take(k as int));
        assert(lv.take(k + 1).last() == lines@[k as int]@);
        if k > 0 {
            out.push('\n');
        }
        push_chars(&mut out, &lines[k]);
        assert(k == 0 ==> out@ =~= lv.take(1)[0]);
        k = k + 1;
    }
    assert(lv.take(lines.len() as int) =~= lv);
    out
}

/// A copy of a string.
fn copy_string(s: &String) -> (r: String)
    ensures
        r@ == s@,
{
    s.clone()
}

/// A copy of a block.
fn copy_block(b: &Block) -> (r: Block)
    ensures
        r@ == b@,
{
    match b {
        Block::Heading { level, text } => Block::Heading { level: *level, text: copy_string(text) },
        Block::Paragraph => Block::Paragraph,
        Block::BlockQuote => Block::BlockQuote,
        Block::CodeBlock { info } => Block::CodeBlock {
            info: match info {
                Some(i) => Some(copy_string(i)),
                None => None,
            },
        },
        Block::List { start } => Block::List { start: *start },
        Block::ListItem => Block::ListItem,
        Block::Table { alignments } => Block::Table { alignments: copy_alignments(alignments) },
        Block::TableHead => Block::TableHead,
        Block::TableRow => Block::TableRow,
        Block::TableCell => Block::TableCell,
        Block::FootnoteDefinition { label } => Block::FootnoteDefinition { label: copy_string(label) },
        Block::DefinitionList => Block::DefinitionList,
        Block::DefinitionListTitle => Block::DefinitionListTitle,
        Block::DefinitionListDefinition => Block::DefinitionListDefinition,
    }
}

/// A copy of an event.
fn copy_event(e: &Event) -> (r: Event)
    ensures
        r@ == e@,
{
    match e {
        Event::Start(b) => Event::Start(copy_block(b)),
        Event::End(b) => Event::End(copy_block(b)),
        Event::Text(t) => Event::Text(copy_string(t)),
        Event::SoftBreak => Event::SoftBreak,
        Event::HardBreak => Event::HardBreak,
        Event::Rule(c) => Event::Rule(*c),
        Event::StrongStart => Event::StrongStart,
        Event::StrongEnd => Event::StrongEnd,
        Event::EmphasisStart => Event::EmphasisStart,
        Event::EmphasisEnd => Event::EmphasisEnd,
        Event::StrikethroughStart => Event::StrikethroughStart,
        Event::StrikethroughEnd => Event::StrikethroughEnd,
        Event::InlineCode(c) => Event::InlineCode(copy_string(c)),
        Event::RawHtml(h) => Event::RawHtml(copy_string(h)),
        Event::Link { text, url } => Event::Link { text: copy_string(text), url: copy_string(url) },
        Event::Image { alt, url } => Event::Image { alt: copy_string(alt), url: copy_string(url) },
        Event::TaskListMarker(b) => Event::TaskListMarker(*b),
        Event::FootnoteReference(l) => Event::FootnoteReference(copy_string(l)),
        Event::ListItemMarker(c) => Event::ListItemMarker(*c),
    }
}

/// A copy of a list of alignments.
fn copy_alignments(a: &Vec<CellAlignment>) -> (r: Vec<CellAlignment>)
    ensures
        r@ == a@,
{
    let mut r: Vec<CellAlignment> = Vec::new();
    let mut i: usize = 0;
    while i < a.len()
        invariant
            i <= a.len(),
            r@ == a@.take(i as int),
        decreases a.len() - i,
    {
        r.push(a[i]);
        assert(a@.take(i + 1) == a@.take(i as int).push(a@[i as int]));
        i = i + 1;
    }
    assert(a@.take(a.len() as int) == a@);
    r
}

/// A copy of `v`.
fn clone_chars(v: &Vec<char>) -> (r: Vec<char>)
    ensures
        r@ == v@,
{
    let mut r: Vec<char> = Vec::new();
    push_chars(&mut r, v);
    r
}
/// Whether `a` from index `off` on is exactly `b`.
fn rest_equals(a: &Vec<char>, off: usize, b: &Vec<char>) -> (r: bool)
    requires
        off <= a.len(),
    ensures
        r == (a@.subrange(off as int, a.len() as int) == b@),
{
    if a.len() - off != b.len() {
        proof {
            assert(a@.subrange(off as int, a.len() as int).len() != b@.len());
        }
        return false;
    }
    let mut i: usize = 0;
    while i < b.len()
        invariant
            off <= a.len(),
            a.len() - off == b.len(),
            i <= b.len(),
            forall|k: int| 0 <= k < i ==> a@[off + k] == b@[k],
        decreases b.len() - i,
    {
        if a[off + i] != b[i] {
            proof {
                assert(a@.subrange(off as int, a.len() as int)[i as int] != b@[i as int]);
            }
            return false;
        }
        i = i + 1;
    }
    assert(a@.subrange(off as int, a.len() as int) =~= b@);
    true
}

/// The shown form of a link.
fn link_form_of(text: &Vec<char>, url: &Vec<char>) -> (r: Vec<char>)
    ensures
        r@ == link_form(text@, url@),
{
    let mut t: Vec<char> = Vec::new();
    if url.len() == 0 {
        push_chars(&mut t, text);
        return t;
    }
    let is_mail = url.len() >= 7 && url[0] == 'm' && url[1] == 'a' && url[2] == 'i' && url[3] == 'l'
        && url[4] == 't' && url[5] == 'o' && url[6] == ':' && rest_equals(url, 7, text);
    let same = rest_equals(url, 0, text);
    proof {
        assert(url@.subrange(0, url.len() as int) =~= url@);
        if url@ == mailto() + text@ {
            assert(url@.subrange(7, url.len() as int) =~= text@);
            assert(url@[0] == 'm' && url@[1] == 'a' && url@[2] == 'i' && url@[3] == 'l');
            assert(url@[4] == 't' && url@[5] == 'o' && url@[6] == ':');
        }
        if is_mail {
            assert(url@ =~= mailto() + text@);
        }
    }
    if same || is_mail {
        t.push('<');
        push_chars(&mut t, text);
        t.push('>');
    } else {
        t.push('[');
        push_chars(&mut t, text);
        t.push(']');
        t.push('(');
        push_chars(&mut t, url);
        t.push(')');
    }
    assert(t@ =~= link_form(text@, url@));
    t
}

/// A horizontal rule line for the given width.
fn rule_line_of(marker: char, width: usize) -> (r: Vec<char>)
    ensures
        r@ == rule_line(marker, width as nat),
{
    let ch = if marker == '*' { '═' } else if marker == '_' { '┄' } else { '─' };
    let n = if width / 2 > 3 { width / 2 } else { 3 };
    let pad = if width > n { (width - n) / 2 } else { 0 };
    let mut line: Vec<char> = Vec::new();
    push_repeat(&mut line, ' ', pad);
    push_str(&mut line, "\x1b[2m");
    push_repeat(&mut line, ch, n);
    push_str(&mut line, "\x1b[0m");
    proof {
        reveal_strlit("\x1b[2m");
        reveal_strlit("\x1b[0m");
        assert("\x1b[2m"@ =~= esc_faint());
        assert("\x1b[0m"@ =~= esc_reset());
    }
    assert(line@ =~= rule_line(marker, width as nat));
    line
}

/// Whether a word is a web address.
fn is_web_address_of(word: &Vec<char>) -> (r: bool)
    ensures
        r == is_web_address(word@),
{
    let http = word.len() >= 7 && word[0] == 'h' && word[1] == 't' && word[2] == 't' && word[3] == 'p'
        && word[4] == ':' && word[5] == '/' && word[6] == '/';
    let https = word.len() >= 8 && word[0] == 'h' && word[1] == 't' && word[2] == 't' && word[3] == 'p'
        && word[4] == 's' && word[5] == ':' && word[6] == '/' && word[7] == '/';
    proof {
        if word@.len() >= 7 {
            if http {
                assert(word@.take(7) =~= seq!['h', 't', 't', 'p', ':', '/', '/']);
            }
            if word@.take(7) == seq!['h', 't', 't', 'p', ':', '/', '/'] {
                assert(word@[0] == word@.take(7)[0] && word@[6] == word@.take(7)[6]);
                assert(word@[1] == word@.take(7)[1] && word@[2] == word@.take(7)[2]);
                assert(word@[3] == word@.take(7)[3] && word@[4] == word@.take(7)[4]);
                assert(word@[5] == word@.take(7)[5]);
            }
        }
        if word@.len() >= 8 {
            if https {
                assert(word@.take(8) =~= seq!['h', 't', 't', 'p', 's', ':', '/', '/']);
            }
            if word@.take(8) == seq!['h', 't', 't', 'p', 's', ':', '/', '/'] {
                assert(word@[0] == word@.take(8)[0] && word@[7] == word@.take(8)[7]);
                assert(word@[1] == word@.take(8)[1] && word@[2] == word@.take(8)[2]);
                assert(word@[3] == word@.take(8)[3] && word@[4] == word@.take(8)[4]);
                assert(word@[5] == word@.take(8)[5] && word@[6] == word@.take(8)[6]);
            }
        }
    }
    http || https
}

/// How a word of flowing text is shown.
fn shown_word_of(word: &Vec<char>) -> (r: Vec<char>)
    ensures
        r@ == shown_word(word@),
{
    let mut r: Vec<char> = Vec::new();
    if is_web_address_of(word) {
        push_str(&mut r, "\x1b[4m");
        push_chars(&mut r, word);
        push_str(&mut r, "\x1b[24m");
        proof {
            reveal_strlit("\x1b[4m");
            reveal_strlit("\x1b[24m");
            assert("\x1b[4m"@ =~= esc_underline());
            assert("\x1b[24m"@ =~= esc_underline_off());
        }
    } else {
        push_chars(&mut r, word);
    }
    assert(r@ =~= shown_word(word@));
    r
}

} // verus!
