//! The nesting of lists: the list depth, by which items are indented, is the
//! number of open lists less one, whatever lists were opened and closed.
use vstd::prelude::*;
use crate::parsing::{EventView, BlockView};
use crate::render_model::{RenderState, newline, space_before_inline, code_text, place_words, place_word,
    render_text, trailing_space, processed_text, render_space, render_inline_code, render_raw_html,
    render_link, render_image, render_footnote_reference, render_rule, block_start, quoted_paragraph_start,
    quote_separator, general_block_start, separate_block, block_bookkeeping, block_open, open_code_block,
    list_indent_if_empty, fence_line, push_quote_prefix, open_list_item, item_marker, block_end,
    close_heading, end_code_line, closing_fence, close_list, flush_table, process_event, process_events,
    reset_state, render_final, is_table_internal};
use crate::textops::{split_whitespace, is_ws, repeat, sat};

verus! {

/// The list fields of a renderer state: the stack of open lists, the
/// nesting depth and whether a list is open.
pub open spec fn list_fields(s: RenderState) -> (Seq<(bool, u64)>, nat, bool) {
    (s.list_stack, s.list_depth, s.in_list)
}

/// The depth is the number of open lists less one (zero with none open), and
/// the renderer is in a list exactly when one is open.
pub open spec fn depth_ok(s: RenderState) -> bool {
    &&& s.list_depth == (if s.list_stack.len() > 0 { (s.list_stack.len() - 1) as nat } else { 0 })
    &&& s.in_list == (s.list_stack.len() > 0)
}

proof fn lemma_newline_keeps_list_fields(s: RenderState)
    ensures
        list_fields(newline(s)) == list_fields(s),
{
    reveal(newline);
}

proof fn lemma_space_keeps_list_fields(s: RenderState)
    ensures
        list_fields(space_before_inline(s)) == list_fields(s),
{
    reveal(space_before_inline);
}

proof fn lemma_code_text_keeps_list_fields(s: RenderState, t: Seq<char>)
    ensures
        list_fields(code_text(s, t)) == list_fields(s),
    decreases t.len(),
{
    reveal(code_text);
    if t.len() > 0 {
        lemma_code_text_keeps_list_fields(s, t.drop_last());
        lemma_newline_keeps_list_fields(code_text(s, t.drop_last()));
    }
}

proof fn lemma_place_words_keeps_list_fields(s: RenderState, words: Seq<Seq<char>>, leading: bool)
    ensures
        list_fields(place_words(s, words, leading)) == list_fields(s),
    decreases words.len(),
{
    reveal(place_words);
    if words.len() > 0 {
        let s1 = place_words(s, words.drop_last(), leading);
        lemma_place_words_keeps_list_fields(s, words.drop_last(), leading);
        reveal(place_word);
        lemma_newline_keeps_list_fields(s1);
    }
}

proof fn lemma_text_keeps_list_fields(s: RenderState, t: Seq<char>)
    ensures
        list_fields(render_text(s, t)) == list_fields(s),
{
    reveal(render_text);
    reveal(trailing_space);
    lemma_code_text_keeps_list_fields(s, t);
    let p = processed_text(s, t);
    let s1 = place_words(s, split_whitespace(p), p.len() > 0 && is_ws(p[0]));
    lemma_place_words_keeps_list_fields(s, split_whitespace(p), p.len() > 0 && is_ws(p[0]));
    lemma_newline_keeps_list_fields(s1);
}

#[verifier::spinoff_prover]
proof fn lemma_inline_keeps_list_fields(s: RenderState, e: EventView)
    requires
        !(e is Start || e is End),
    ensures
        list_fields(process_event(s, e)) == list_fields(s),
{
    reveal(process_event);
    lemma_newline_keeps_list_fields(s);
    lemma_space_keeps_list_fields(s);
    match e {
        EventView::Text(t) => lemma_text_keeps_list_fields(s, t),
        EventView::SoftBreak => reveal(render_space),
        EventView::InlineCode(c) => {
            reveal(render_inline_code);
            reveal(space_before_inline);
            let s1 = space_before_inline(s);
            lemma_newline_keeps_list_fields(s1);
            lemma_newline_keeps_list_fields(RenderState {
                current_line: s1.current_line.drop_last(),
                cursor_col: (s1.cursor_col - 1) as nat,
                ..s1
            });
        },
        EventView::RawHtml(h) => {
            reveal(render_raw_html);
            lemma_code_text_keeps_list_fields(s, h);
            lemma_code_text_keeps_list_fields(space_before_inline(s), h);
        },
        EventView::Link { text, url } => {
            reveal(render_link);
            lemma_text_keeps_list_fields(space_before_inline(s), text);
        },
        EventView::Image { .. } => reveal(render_image),
        EventView::FootnoteReference(l) => reveal(render_footnote_reference),
        EventView::Rule(m) => reveal(render_rule),
        _ => {},
    }
}

#[verifier::spinoff_prover]
#[verifier::rlimit(100)]
proof fn lemma_block_start_keeps_depth(s: RenderState, b: BlockView)
    requires
        depth_ok(s),
    ensures
        depth_ok(block_start(s, b)),
{
    reveal(block_start);
    reveal(quoted_paragraph_start);
    reveal(quote_separator);
    reveal(general_block_start);
    reveal(separate_block);
    reveal(block_bookkeeping);
    let s1 = if !is_table_internal(b) && !(b is List && s.in_list) { separate_block(s, b) } else { s };
    let s2 = block_bookkeeping(s1, b);
    assert(list_fields(s1) == list_fields(s));
    assert(list_fields(s2) == list_fields(s1));
    reveal(block_open);
    match b {
        BlockView::CodeBlock { info } => {
            reveal(open_code_block);
            reveal(list_indent_if_empty);
            reveal(fence_line);
            let t1 = list_indent_if_empty(s2);
            let t2 = if t1.in_block_quote && t1.current_line.len() == 0 { push_quote_prefix(t1) } else { t1 };
            let t3 = RenderState { in_code_block: true, code_block_info: info, ..t2 };
            lemma_newline_keeps_list_fields(fence_line(t3, info));
        },
        BlockView::ListItem => {
            reveal(open_list_item);
            reveal(item_marker);
        },
        _ => {},
    }
}

#[verifier::spinoff_prover]
#[verifier::rlimit(100)]
proof fn lemma_block_end_keeps_depth(s: RenderState, b: BlockView)
    requires
        depth_ok(s),
    ensures
        depth_ok(block_end(s, b)),
{
    reveal(block_end);
    match b {
        BlockView::Heading { .. } => {
            reveal(close_heading);
        },
        BlockView::CodeBlock { .. } => {
            reveal(end_code_line);
            reveal(closing_fence);
            assert(list_fields(end_code_line(s)) == list_fields(s));
        },
        BlockView::List { .. } => {
            reveal(close_list);
        },
        BlockView::Table { .. } => {
            reveal(flush_table);
        },
        _ => {},
    }
}

/// The list depth follows the open lists: after any event, a state whose
/// depth is the number of open lists less one still has that depth, and is
/// in a list exactly when one is open; so an item is indented two spaces per
/// enclosing list, whatever lists were opened and closed before it, and
/// after the last list closes the text is no longer a list's.
pub proof fn lemma_event_keeps_list_depth(s: RenderState, e: EventView)
    requires
        depth_ok(s),
    ensures
        depth_ok(process_event(s, e)),
{
    match e {
        EventView::Start(b) => {
            reveal(process_event);
            lemma_block_start_keeps_depth(s, b);
        },
        EventView::End(b) => {
            reveal(process_event);
            lemma_block_end_keeps_depth(s, b);
        },
        _ => lemma_inline_keeps_list_fields(s, e),
    }
}

/// Every render keeps the list depth right: from any renderer state, after
/// any events, the depth is the number of open lists less one, and at the end
/// of a render too.
pub proof fn lemma_render_keeps_list_depth(s: RenderState, events: Seq<EventView>)
    ensures
        depth_ok(process_events(reset_state(s), events)),
        depth_ok(render_final(s, events)),
{
    assert(depth_ok(reset_state(s)));
    lemma_events_keep_list_depth(reset_state(s), events);
    lemma_events_keep_list_depth(reset_state(s), crate::render_model::combine_text_events(events));
}

proof fn lemma_events_keep_list_depth(s: RenderState, events: Seq<EventView>)
    requires
        depth_ok(s),
    ensures
        depth_ok(process_events(s, events)),
    decreases events.len(),
{
    if events.len() > 0 {
        lemma_events_keep_list_depth(s, events.drop_last());
        lemma_event_keeps_list_depth(process_events(s, events.drop_last()), events.last());
    }
}

/// An item starting a line is indented two spaces per enclosing list, less
/// one: with the depth right, the item's line is that indentation followed
/// by its marker.
pub proof fn lemma_item_indentation(s: RenderState)
    requires
        depth_ok(s),
        s.list_stack.len() > 0,
        2 * s.list_stack.len() <= usize::MAX,
        !s.in_block_quote,
        s.current_line.len() == 0,
    ensures
        open_list_item(s).current_line == repeat(' ', (2 * (s.list_stack.len() - 1)) as nat) + item_marker(s).0,
{
    reveal(open_list_item);
    reveal(item_marker);
    assert(sat(2 * s.list_depth as int) == 2 * (s.list_stack.len() - 1)) by {
        assert(2 * (s.list_stack.len() - 1) <= 2 * s.list_stack.len());
    }
    let (m, s2) = item_marker(s);
    assert(s2.current_line == s.current_line);
    assert(s.current_line + repeat(' ', sat(2 * s.list_depth as int)) + m =~= repeat(' ', (2 * (s.list_stack.len()
        - 1)) as nat) + m);
}

} // verus!
