//! What rendering a paragraph promises: every line fits the render width, and
//! the words of the text come out unchanged and in order.
use vstd::prelude::*;
use crate::parsing::{EventView, BlockView};
use crate::render_model::{RenderState, put, newline, place_word, place_words, shown_word,
    is_web_address, esc_underline, esc_underline_off, join_lines, trailing_space, render_text,
    flush_if_any, reset_state, process_event, process_events, combine_from,
    combine_text_events, render_final, rendered_lines, rendered, block_start, general_block_start,
    separate_block, block_bookkeeping, block_open, block_end};
use crate::textops::{ends_with_visible_space, ends_with_open_html_tag, csi_end, strip_from,
    strip_ansi, lemma_csi_end_bounds, split_ws_from, split_whitespace, is_ws, display_width,
    char_width, width_of, trim_end, visible_width, ends_with, sat};

verus! {

/// Whether `s` holds no escape character.
pub open spec fn no_escape(s: Seq<char>) -> bool {
    forall|i: int| 0 <= i < s.len() ==> s[i] != '\x1b'
}

/// Whether `s` holds no whitespace.
pub open spec fn no_space(s: Seq<char>) -> bool {
    forall|i: int| 0 <= i < s.len() ==> !is_ws(s[i])
}

/// Whether stripping the escape sequences of `x` leaves nothing pending: what
/// follows `x` is stripped as if on its own.
pub open spec fn closed(x: Seq<char>) -> bool {
    forall|y: Seq<char>| #[trigger] strip_from(x + y, 0, Seq::empty()) == strip_from(y, 0, strip_ansi(x))
}

proof fn lemma_csi_end_shift(a: Seq<char>, b: Seq<char>, j: int)
    requires
        0 <= j,
    ensures
        csi_end(a + b, a.len() + j) == a.len() + csi_end(b, j),
    decreases b.len() - j,
{
    if j < b.len() {
        assert((a + b)[a.len() + j] == b[j]);
        if !('@' <= b[j] && b[j] <= '~') {
            lemma_csi_end_shift(a, b, j + 1);
        }
    }
}

proof fn lemma_strip_shift(a: Seq<char>, b: Seq<char>, k: int, acc: Seq<char>)
    requires
        0 <= k,
    ensures
        strip_from(a + b, a.len() + k, acc) == strip_from(b, k, acc),
    decreases b.len() - k,
{
    let s = a + b;
    let i = a.len() + k;
    if k < b.len() {
        assert(s[i] == b[k]);
        if k + 1 < b.len() {
            assert(s[i + 1] == b[k + 1]);
        }
        if b[k] == '\x1b' && k + 1 < b.len() && b[k + 1] == '[' {
            lemma_csi_end_shift(a, b, k + 2);
            lemma_csi_end_bounds(b, k + 2);
            let e = csi_end(b, k + 2);
            if k < e && e <= b.len() {
                lemma_strip_shift(a, b, e, acc);
            }
        } else {
            lemma_strip_shift(a, b, k + 1, acc.push(b[k]));
        }
    }
}

proof fn lemma_strip_acc(s: Seq<char>, i: int, acc: Seq<char>)
    requires
        0 <= i,
    ensures
        strip_from(s, i, acc) == acc + strip_from(s, i, Seq::empty()),
    decreases s.len() - i,
{
    if i < s.len() {
        if s[i] == '\x1b' && i + 1 < s.len() && s[i + 1] == '[' {
            lemma_csi_end_bounds(s, i + 2);
            let e = csi_end(s, i + 2);
            if i < e && e <= s.len() {
                lemma_strip_acc(s, e, acc);
            } else {
                assert(acc + Seq::<char>::empty() =~= acc);
            }
        } else {
            lemma_strip_acc(s, i + 1, acc.push(s[i]));
            lemma_strip_acc(s, i + 1, seq![s[i]]);
            assert(Seq::<char>::empty().push(s[i]) =~= seq![s[i]]);
            assert(acc.push(s[i]) + strip_from(s, i + 1, Seq::empty()) =~= acc + (seq![s[i]] + strip_from(
                s,
                i + 1,
                Seq::empty(),
            )));
        }
    } else {
        assert(acc + Seq::<char>::empty() =~= acc);
    }
}

proof fn lemma_strip_plain_prefix(p: Seq<char>, y: Seq<char>, i: int, acc: Seq<char>)
    requires
        0 <= i <= p.len(),
        no_escape(p),
    ensures
        strip_from(p + y, i, acc) == strip_from(y, 0, acc + p.subrange(i, p.len() as int)),
    decreases p.len() - i,
{
    if i == p.len() {
        lemma_strip_shift(p, y, 0, acc);
        assert(acc + p.subrange(i, i) =~= acc);
    } else {
        assert((p + y)[i] == p[i]);
        lemma_strip_plain_prefix(p, y, i + 1, acc.push(p[i]));
        assert(acc.push(p[i]) + p.subrange(i + 1, p.len() as int) =~= acc + p.subrange(i, p.len() as int));
    }
}

/// Text without escape characters is closed and strips to itself.
pub proof fn lemma_plain_closed(p: Seq<char>)
    requires
        no_escape(p),
    ensures
        closed(p),
        strip_ansi(p) == p,
{
    lemma_strip_plain_prefix(p, Seq::empty(), 0, Seq::empty());
    assert(p + Seq::<char>::empty() =~= p);
    assert(Seq::<char>::empty() + p.subrange(0, p.len() as int) =~= p);
    assert forall|y: Seq<char>| #[trigger] strip_from(p + y, 0, Seq::empty()) == strip_from(y, 0, strip_ansi(p)) by {
        lemma_strip_plain_prefix(p, y, 0, Seq::empty());
    }
}

/// Closed texts joined are closed, and strip piece by piece.
pub proof fn lemma_closed_concat(x: Seq<char>, y: Seq<char>)
    requires
        closed(x),
        closed(y),
    ensures
        closed(x + y),
        strip_ansi(x + y) == strip_ansi(x) + strip_ansi(y),
{
    assert(strip_from(x + y, 0, Seq::empty()) == strip_from(y, 0, strip_ansi(x)));
    lemma_strip_acc(y, 0, strip_ansi(x));
    assert forall|z: Seq<char>| #[trigger] strip_from((x + y) + z, 0, Seq::empty()) == strip_from(z, 0, strip_ansi(x + y)) by {
        assert((x + y) + z =~= x + (y + z));
        assert(strip_from(x + (y + z), 0, Seq::empty()) == strip_from(y + z, 0, strip_ansi(x)));
        lemma_strip_acc(y + z, 0, strip_ansi(x));
        assert(strip_from(y + z, 0, Seq::empty()) == strip_from(z, 0, strip_ansi(y)));
        lemma_strip_acc(z, 0, strip_ansi(y));
        lemma_strip_acc(z, 0, strip_ansi(x) + strip_ansi(y));
        assert(strip_ansi(x) + (strip_ansi(y) + strip_from(z, 0, Seq::empty())) =~= (strip_ansi(x) + strip_ansi(
            y,
        )) + strip_from(z, 0, Seq::empty()));
    }
}

proof fn lemma_code_end(e: Seq<char>, y: Seq<char>, j: int)
    requires
        e.len() >= 3,
        2 <= j < e.len(),
        forall|k: int| 2 <= k < e.len() - 1 ==> !('@' <= #[trigger] e[k] && e[k] <= '~'),
        '@' <= e.last() && e.last() <= '~',
    ensures
        csi_end(e + y, j) == e.len(),
    decreases e.len() - j,
{
    assert((e + y)[j] == e[j]);
    if j < e.len() - 1 {
        lemma_code_end(e, y, j + 1);
    }
}

/// A complete escape sequence (`ESC [`, parameters, a final byte) is closed
/// and strips to nothing.
pub proof fn lemma_code_closed(e: Seq<char>)
    requires
        e.len() >= 3,
        e[0] == '\x1b',
        e[1] == '[',
        forall|k: int| 2 <= k < e.len() - 1 ==> !('@' <= #[trigger] e[k] && e[k] <= '~'),
        '@' <= e.last() && e.last() <= '~',
    ensures
        closed(e),
        strip_ansi(e) == Seq::<char>::empty(),
{
    lemma_code_end(e, Seq::empty(), 2);
    assert(e + Seq::<char>::empty() =~= e);
    assert(csi_end(e, 2) == e.len());
    assert(strip_from(e, 0, Seq::empty()) == strip_from(e, e.len() as int, Seq::empty()));
    assert(strip_ansi(e) == Seq::<char>::empty());
    assert forall|y: Seq<char>| #[trigger] strip_from(e + y, 0, Seq::empty()) == strip_from(y, 0, strip_ansi(e)) by {
        lemma_code_end(e, y, 2);
        assert((e + y)[0] == e[0] && (e + y)[1] == e[1]);
        assert(csi_end(e + y, 2) == e.len());
        assert(strip_from(e + y, 0, Seq::empty()) == strip_from(e + y, e.len() as int, Seq::empty()));
        lemma_strip_shift(e, y, 0, Seq::empty());
    }
}

/// The state of the word scan of `s` from index `i` once it reaches the end:
/// the word in progress and the words complete.
pub open spec fn ws_scan(s: Seq<char>, i: int, cur: Seq<char>, acc: Seq<Seq<char>>) -> (Seq<char>, Seq<Seq<char>>)
    decreases s.len() - i,
{
    if i < 0 || i >= s.len() {
        (cur, acc)
    } else if is_ws(s[i]) {
        ws_scan(s, i + 1, Seq::empty(), if cur.len() > 0 { acc.push(cur) } else { acc })
    } else {
        ws_scan(s, i + 1, cur.push(s[i]), acc)
    }
}

proof fn lemma_split_shift(x: Seq<char>, y: Seq<char>, k: int, cur: Seq<char>, acc: Seq<Seq<char>>)
    requires
        0 <= k,
    ensures
        split_ws_from(x + y, x.len() + k, cur, acc) == split_ws_from(y, k, cur, acc),
    decreases y.len() - k,
{
    if k < y.len() {
        assert((x + y)[x.len() + k] == y[k]);
        if is_ws(y[k]) {
            lemma_split_shift(x, y, k + 1, Seq::empty(), if cur.len() > 0 { acc.push(cur) } else { acc });
        } else {
            lemma_split_shift(x, y, k + 1, cur.push(y[k]), acc);
        }
    }
}

proof fn lemma_split_compose(x: Seq<char>, y: Seq<char>, i: int, cur: Seq<char>, acc: Seq<Seq<char>>)
    requires
        0 <= i <= x.len(),
    ensures
        split_ws_from(x + y, i, cur, acc) == split_ws_from(y, 0, ws_scan(x, i, cur, acc).0, ws_scan(x, i, cur, acc).1),
    decreases x.len() - i,
{
    if i == x.len() {
        lemma_split_shift(x, y, 0, cur, acc);
    } else {
        assert((x + y)[i] == x[i]);
        if is_ws(x[i]) {
            lemma_split_compose(x, y, i + 1, Seq::empty(), if cur.len() > 0 { acc.push(cur) } else { acc });
        } else {
            lemma_split_compose(x, y, i + 1, cur.push(x[i]), acc);
        }
    }
}

proof fn lemma_split_word(word: Seq<char>, i: int, cur: Seq<char>, acc: Seq<Seq<char>>)
    requires
        0 <= i <= word.len(),
        no_space(word),
        cur.len() + word.len() - i > 0,
    ensures
        split_ws_from(word, i, cur, acc) == acc.push(cur + word.subrange(i, word.len() as int)),
    decreases word.len() - i,
{
    if i == word.len() {
        assert(cur + word.subrange(i, i) =~= cur);
    } else {
        lemma_split_word(word, i + 1, cur.push(word[i]), acc);
        assert(cur.push(word[i]) + word.subrange(i + 1, word.len() as int) =~= cur + word.subrange(
            i,
            word.len() as int,
        ));
    }
}

/// The words of a text are unchanged by a whitespace character after it.
pub proof fn lemma_split_space_after(x: Seq<char>, c: char)
    requires
        is_ws(c),
    ensures
        split_whitespace(x + seq![c]) == split_whitespace(x),
{
    let sc = ws_scan(x, 0, Seq::empty(), Seq::empty());
    let fin = if sc.0.len() > 0 { sc.1.push(sc.0) } else { sc.1 };
    lemma_split_compose(x, seq![c], 0, Seq::empty(), Seq::empty());
    assert(seq![c][0] == c);
    assert(split_ws_from(seq![c], 0, sc.0, sc.1) == split_ws_from(seq![c], 1, Seq::empty(), fin));
    assert(split_ws_from(seq![c], 1, Seq::empty(), fin) == fin);
    lemma_split_compose(x, Seq::empty(), 0, Seq::empty(), Seq::empty());
    assert(x + Seq::<char>::empty() =~= x);
}

/// A word after a whitespace character adds that word to the words of a text.
pub proof fn lemma_split_word_after_space(x: Seq<char>, c: char, word: Seq<char>)
    requires
        is_ws(c),
        word.len() > 0,
        no_space(word),
    ensures
        split_whitespace(x + seq![c] + word) == split_whitespace(x).push(word),
{
    let sc = ws_scan(x, 0, Seq::empty(), Seq::empty());
    let fin = if sc.0.len() > 0 { sc.1.push(sc.0) } else { sc.1 };
    assert(x + seq![c] + word =~= x + (seq![c] + word));
    lemma_split_compose(x, seq![c] + word, 0, Seq::empty(), Seq::empty());
    assert((seq![c] + word)[0] == c);
    lemma_split_shift(seq![c], word, 0, Seq::empty(), fin);
    lemma_split_word(word, 0, Seq::empty(), fin);
    assert(Seq::<char>::empty() + word.subrange(0, word.len() as int) =~= word);
    lemma_split_compose(x, Seq::empty(), 0, Seq::empty(), Seq::empty());
    assert(x + Seq::<char>::empty() =~= x);
}

/// The words of a single word.
pub proof fn lemma_split_single_word(word: Seq<char>)
    requires
        word.len() > 0,
        no_space(word),
    ensures
        split_whitespace(word) == seq![word],
{
    lemma_split_word(word, 0, Seq::empty(), Seq::empty());
    assert(Seq::<char>::empty() + word.subrange(0, word.len() as int) =~= word);
    assert(Seq::<Seq<char>>::empty().push(word) =~= seq![word]);
}

/// Whether every word of `ws` is non-empty and holds neither whitespace nor
/// an escape character.
pub open spec fn plain_words(ws: Seq<Seq<char>>) -> bool {
    forall|k: int| 0 <= k < ws.len() ==> (#[trigger] ws[k]).len() > 0 && no_space(ws[k]) && no_escape(ws[k])
}

/// The words of a text without escape characters are plain.
pub proof fn lemma_split_plain(s: Seq<char>, i: int, cur: Seq<char>, acc: Seq<Seq<char>>)
    requires
        0 <= i,
        no_escape(s),
        no_space(cur),
        no_escape(cur),
        plain_words(acc),
    ensures
        plain_words(split_ws_from(s, i, cur, acc)),
    decreases s.len() - i,
{
    if i < s.len() {
        if is_ws(s[i]) {
            lemma_split_plain(s, i + 1, Seq::empty(), if cur.len() > 0 { acc.push(cur) } else { acc });
        } else {
            let c2 = cur.push(s[i]);
            assert(no_space(c2) && no_escape(c2));
            lemma_split_plain(s, i + 1, c2, acc);
        }
    } else if cur.len() > 0 {
        assert(plain_words(acc.push(cur)));
    }
}

/// Display widths add up.
pub proof fn lemma_width_concat(a: Seq<char>, b: Seq<char>)
    ensures
        display_width(a + b) == display_width(a) + display_width(b),
    decreases b.len(),
{
    if b.len() > 0 {
        lemma_width_concat(a, b.drop_last());
        assert((a + b).drop_last() =~= a + b.drop_last());
        assert((a + b).last() == b.last());
    } else {
        assert(a + b =~= a);
    }
}

/// Trailing whitespace taken off takes no width away from what stays.
pub proof fn lemma_trim_end_width(s: Seq<char>)
    ensures
        display_width(trim_end(s)) <= display_width(s),
    decreases s.len(),
{
    if s.len() > 0 && is_ws(s.last()) {
        lemma_trim_end_width(s.drop_last());
    }
}

/// The visible width of a line is at most the display width of its visible
/// text.
pub proof fn lemma_visible_width_bound(l: Seq<char>)
    ensures
        visible_width(l) <= display_width(strip_ansi(l)),
{
    lemma_trim_end_width(strip_ansi(l));
}

/// The visible text of the finished lines of `s` and of its current line,
/// joined by line breaks.
pub open spec fn visible_text(s: RenderState) -> Seq<char> {
    strip_ansi(join_lines(s.lines.push(s.current_line)))
}

proof fn lemma_join_push_extend(l: Seq<Seq<char>>, c: Seq<char>, p: Seq<char>)
    ensures
        join_lines(l.push(c + p)) == join_lines(l.push(c)) + p,
{
    assert(l.push(c + p).drop_last() =~= l);
    assert(l.push(c).drop_last() =~= l);
    if l.len() > 0 {
        assert(join_lines(l) + seq!['\n'] + (c + p) =~= join_lines(l) + seq!['\n'] + c + p);
    }
}

proof fn lemma_join_push_empty(l: Seq<Seq<char>>, c: Seq<char>)
    ensures
        join_lines(l.push(c).push(Seq::empty())) == join_lines(l.push(c)) + seq!['\n'],
{
    assert(l.push(c).push(Seq::<char>::empty()).drop_last() =~= l.push(c));
    assert(join_lines(l.push(c)) + seq!['\n'] + Seq::<char>::empty() =~= join_lines(l.push(c)) + seq!['\n']);
}

proof fn lemma_join_closed(l: Seq<Seq<char>>)
    requires
        forall|i: int| 0 <= i < l.len() ==> closed(#[trigger] l[i]),
    ensures
        closed(join_lines(l)),
    decreases l.len(),
{
    if l.len() == 0 {
        lemma_plain_closed(Seq::empty());
    } else if l.len() == 1 {
        assert(closed(l[0]));
    } else {
        lemma_join_closed(l.drop_last());
        lemma_plain_closed(seq!['\n']);
        lemma_closed_concat(join_lines(l.drop_last()), seq!['\n']);
        assert(closed(l[l.len() - 1]));
        lemma_closed_concat(join_lines(l.drop_last()) + seq!['\n'], l.last());
    }
}

/// How a word is shown is closed and strips back to the word.
proof fn lemma_shown_word(x: Seq<char>)
    requires
        no_escape(x),
    ensures
        closed(shown_word(x)),
        strip_ansi(shown_word(x)) == x,
{
    lemma_plain_closed(x);
    if is_web_address(x) {
        let u = esc_underline();
        let o = esc_underline_off();
        assert(u[0] == '\x1b' && u[1] == '[' && u[2] == '4' && u.last() == 'm');
        assert(o[0] == '\x1b' && o[1] == '[' && o[2] == '2' && o[3] == '4' && o.last() == 'm');
        lemma_code_closed(u);
        lemma_code_closed(o);
        lemma_closed_concat(u, x);
        lemma_closed_concat(u + x, o);
        assert(Seq::<char>::empty() + x + Seq::<char>::empty() =~= x);
    }
}

/// Appending closed text to the current line appends its visible text.
proof fn lemma_put_visible(s: RenderState, p: Seq<char>, k: nat)
    requires
        closed(s.current_line),
        forall|i: int| 0 <= i < s.lines.len() ==> closed(#[trigger] s.lines[i]),
        closed(p),
    ensures
        closed(put(s, p, k).current_line),
        strip_ansi(put(s, p, k).current_line) == strip_ansi(s.current_line) + strip_ansi(p),
        visible_text(put(s, p, k)) == visible_text(s) + strip_ansi(p),
{
    lemma_closed_concat(s.current_line, p);
    let l = s.lines.push(s.current_line);
    assert forall|i: int| 0 <= i < l.len() implies closed(#[trigger] l[i]) by {
        if i < s.lines.len() {
            assert(l[i] == s.lines[i]);
        }
    }
    lemma_join_closed(l);
    lemma_join_push_extend(s.lines, s.current_line, p);
    lemma_closed_concat(join_lines(l), p);
}

/// A line break outside quotes and lists ends the current line.
proof fn lemma_newline_visible(s: RenderState)
    requires
        !s.in_block_quote,
        !s.in_list,
        closed(s.current_line),
        forall|i: int| 0 <= i < s.lines.len() ==> closed(#[trigger] s.lines[i]),
    ensures
        newline(s) == (RenderState {
            cursor_col: 0,
            lines: s.lines.push(s.current_line),
            current_line: Seq::empty(),
            ..s
        }),
        visible_text(newline(s)) == visible_text(s) + seq!['\n'],
{
    reveal(newline);
    let l = s.lines.push(s.current_line);
    assert forall|i: int| 0 <= i < l.len() implies closed(#[trigger] l[i]) by {
        if i < s.lines.len() {
            assert(l[i] == s.lines[i]);
        }
    }
    lemma_join_closed(l);
    lemma_join_push_empty(s.lines, s.current_line);
    lemma_plain_closed(seq!['\n']);
    lemma_closed_concat(join_lines(l), seq!['\n']);
}

/// What holds of a renderer state while the words of a paragraph are
/// placed: outside quotes and lists, every line closed, the current line
/// ending in a visible non-space when it holds anything; with `fit`, the
/// cursor is the visible width of the current line and every line fits `w`;
/// with `strict`, the cursor is zero exactly when the current line is empty,
/// which then follows a line break (or nothing), and it does not end in `>`.
pub open spec fn para_inv(s: RenderState, w: nat, fit: bool, strict: bool) -> bool {
    &&& s.width == w
    &&& w <= usize::MAX
    &&& !s.in_block_quote
    &&& !s.in_list
    &&& closed(s.current_line)
    &&& forall|i: int| 0 <= i < s.lines.len() ==> closed(#[trigger] s.lines[i])
    &&& (s.current_line.len() > 0 ==> strip_ansi(s.current_line).len() > 0 && !is_ws(
        strip_ansi(s.current_line).last(),
    ))
    &&& (fit ==> (display_width(strip_ansi(s.current_line)) == s.cursor_col && s.cursor_col <= w && (forall|
        i: int,
    |
        0 <= i < s.lines.len() ==> visible_width(#[trigger] s.lines[i]) <= w)))
    &&& (strict ==> ((s.cursor_col == 0) == (s.current_line.len() == 0) && (s.current_line.len() > 0
        ==> strip_ansi(s.current_line).last() != '>') && (s.current_line.len() == 0 ==> visible_text(s).len()
        == 0 || visible_text(s).last() == '\n')))
}

/// What a word of the paragraph must be: non-empty, without whitespace or
/// escape characters; with `fit`, no wider than `w`; with `strict`, of
/// positive width and not ending in `>`.
pub open spec fn word_ok(x: Seq<char>, w: nat, fit: bool, strict: bool) -> bool {
    &&& x.len() > 0
    &&& no_space(x)
    &&& no_escape(x)
    &&& (fit ==> display_width(x) <= w)
    &&& (strict ==> display_width(x) >= 1 && x.last() != '>')
}

/// Words that follow a line break (or nothing) add to the words of a text.
proof fn lemma_split_after_break(v: Seq<char>, x: Seq<char>)
    requires
        v.len() == 0 || v.last() == '\n',
        x.len() > 0,
        no_space(x),
    ensures
        split_whitespace(v + x) == split_whitespace(v).push(x),
{
    if v.len() == 0 {
        assert(v + x =~= x);
        lemma_split_single_word(x);
        assert(split_whitespace(v) == Seq::<Seq<char>>::empty());
        assert(Seq::<Seq<char>>::empty().push(x) =~= seq![x]);
    } else {
        let z = v.drop_last();
        assert(v =~= z + seq!['\n']);
        lemma_split_word_after_space(z, '\n', x);
        lemma_split_space_after(z, '\n');
    }
}

/// Placing one word keeps the invariant and adds the word to the visible text.
#[verifier::rlimit(100)]
#[verifier::spinoff_prover]
proof fn lemma_place_word(s: RenderState, w: nat, fit: bool, strict: bool, x: Seq<char>, sb: bool, first: bool)
    requires
        para_inv(s, w, fit, strict),
        word_ok(x, w, fit, strict),
        first ==> s.cursor_col == 0,
        !first ==> sb,
    ensures
        para_inv(place_word(s, x, sb, first), w, fit, strict),
        strict ==> split_whitespace(visible_text(place_word(s, x, sb, first))) == split_whitespace(
            visible_text(s),
        ).push(x),
        strict ==> place_word(s, x, sb, first).lines.len() == s.lines.len() + (if s.cursor_col > 0
            && s.cursor_col + width_of(x) + 1 > w { 1int } else { 0int }),
        strict ==> place_word(s, x, sb, first).cursor_col == (if s.cursor_col == 0 || s.cursor_col
            + width_of(x) + 1 > w { width_of(x) } else { sat(sat(s.cursor_col + 1int) + width_of(x) as int) }),
{
    reveal(place_word);
    let c = s.cursor_col;
    let cur = s.current_line;
    let wx = width_of(x);
    let sh = shown_word(x);
    let r = place_word(s, x, sb, first);
    lemma_shown_word(x);
    lemma_plain_closed(Seq::empty());
    lemma_plain_closed(seq![' ']);
    assert(is_ws(' ') && is_ws('\n'));
    if fit {
        assert(wx == display_width(x));
    }
    if strict {
        assert(wx >= 1);
    }
    assert(!ends_with_visible_space(cur));
    let ns = !first || crate::textops::needs_space_before(x);
    if c == 0 {
        assert(r == put(s, sh, wx));
        lemma_put_visible(s, sh, wx);
        if fit {
            lemma_width_concat(strip_ansi(cur), x);
        }
        if strict {
            lemma_split_after_break(visible_text(s), x);
        }
    } else if c + wx + 1 > w {
        lemma_newline_visible(s);
        let n = newline(s);
        assert(r == put(n, sh, wx));
        lemma_put_visible(n, sh, wx);
        assert(n.current_line + sh =~= sh);
        assert(strip_ansi(Seq::<char>::empty()) + x =~= x);
        if fit {
            lemma_visible_width_bound(cur);
            assert(n.lines[n.lines.len() - 1] == cur);
            assert forall|i: int| 0 <= i < r.lines.len() implies visible_width(#[trigger] r.lines[i]) <= w by {
                if i < s.lines.len() {
                    assert(r.lines[i] == s.lines[i]);
                }
            }
        }
        assert forall|i: int| 0 <= i < r.lines.len() implies closed(#[trigger] r.lines[i]) by {
            if i < s.lines.len() {
                assert(r.lines[i] == s.lines[i]);
            }
        }
        if strict {
            assert(visible_text(s) + seq!['\n'] + x =~= visible_text(s) + seq!['\n'] + x);
            lemma_split_word_after_space(visible_text(s), '\n', x);
        }
    } else {
        let t = strip_ansi(cur);
        assert(trim_end(t) == t);
        let html = ends_with_open_html_tag(cur);
        if strict {
            assert(!html);
        }
        if html {
            assert(r == put(s, sh, wx));
            lemma_put_visible(s, sh, wx);
            if fit {
                lemma_width_concat(strip_ansi(cur), x);
            }
        } else {
            let s2 = put(s, seq![' '], 1);
            assert(r == put(s2, sh, wx));
            lemma_put_visible(s, seq![' '], 1);
            lemma_put_visible(s2, sh, wx);
            assert(strip_ansi(seq![' ']) == seq![' ']);
            if fit {
                assert(display_width(seq![' ']) == 1) by {
                    let sp = seq![' '];
                    assert(sp.drop_last() =~= Seq::<char>::empty());
                    assert(sp.last() == ' ');
                    assert(display_width(Seq::<char>::empty()) == 0);
                    assert((' ' as u32) == 32);
                    assert(char_width(' ') == 1);
                    assert(display_width(sp) == display_width(sp.drop_last()) + char_width(sp.last()));
                }
                lemma_width_concat(strip_ansi(cur), seq![' ']);
                lemma_width_concat(strip_ansi(cur) + seq![' '], x);
            }
            if strict {
                lemma_split_word_after_space(visible_text(s), ' ', x);
            }
        }
    }
}

/// Placing the words of a text fragment at the start of a line keeps the
/// invariant and adds the words to the visible text.
proof fn lemma_place_words(s: RenderState, w: nat, fit: bool, strict: bool, words: Seq<Seq<char>>, leading: bool)
    requires
        para_inv(s, w, fit, strict),
        s.cursor_col == 0,
        forall|k: int| 0 <= k < words.len() ==> word_ok(#[trigger] words[k], w, fit, strict),
    ensures
        para_inv(place_words(s, words, leading), w, fit, strict),
        strict ==> split_whitespace(visible_text(place_words(s, words, leading))) == split_whitespace(
            visible_text(s),
        ) + words,
    decreases words.len(),
{
    reveal(place_words);
    if words.len() > 0 {
        let d = words.drop_last();
        assert forall|k: int| 0 <= k < d.len() implies word_ok(#[trigger] d[k], w, fit, strict) by {
            assert(d[k] == words[k]);
        }
        lemma_place_words(s, w, fit, strict, d, leading);
        let s1 = place_words(s, d, leading);
        if words.len() == 1 {
            assert(s1 == s);
        }
        assert(word_ok(words[words.len() - 1], w, fit, strict));
        lemma_place_word(
            s1,
            w,
            fit,
            strict,
            words.last(),
            if words.len() == 1 { leading } else { true },
            words.len() == 1,
        );
        if strict {
            assert((split_whitespace(visible_text(s)) + d).push(words.last()) =~= split_whitespace(
                visible_text(s),
            ) + words);
        }
    } else {
        assert(split_whitespace(visible_text(s)) + words =~= split_whitespace(visible_text(s)));
    }
}

/// What holds once the words are placed: every line, the current one
/// included, is closed; with `fit` each fits `w`; with `strict` the visible
/// text has the words `words`.
pub open spec fn para_done(s: RenderState, w: nat, fit: bool, strict: bool, words: Seq<Seq<char>>) -> bool {
    &&& closed(s.current_line)
    &&& forall|i: int| 0 <= i < s.lines.len() ==> closed(#[trigger] s.lines[i])
    &&& (fit ==> visible_width(s.current_line) <= w && forall|i: int|
        0 <= i < s.lines.len() ==> visible_width(#[trigger] s.lines[i]) <= w)
    &&& (strict ==> split_whitespace(visible_text(s)) == words)
}

/// A space kept after text that ends with whitespace.
#[verifier::rlimit(100)]
#[verifier::spinoff_prover]
proof fn lemma_trailing_space(s: RenderState, w: nat, fit: bool, strict: bool, words: Seq<Seq<char>>)
    requires
        para_inv(s, w, fit, strict),
        strict ==> split_whitespace(visible_text(s)) == words,
    ensures
        para_done(trailing_space(s), w, fit, strict, words),
        strict ==> trailing_space(s).lines.len() == s.lines.len() + (if s.cursor_col >= w && w > 0 {
            1int
        } else {
            0int
        }),
        strict ==> trailing_space(s).cursor_col == (if s.cursor_col >= w && w > 0 { 1 } else { sat(
            s.cursor_col + 1int,
        ) }),
        strict ==> trailing_space(s).current_line.len() > 0,
{
    reveal(trailing_space);
    let cur = s.current_line;
    lemma_plain_closed(Seq::empty());
    lemma_plain_closed(seq![' ']);
    assert(is_ws(' ') && is_ws('\n'));
    assert(!ends_with_visible_space(cur));
    let s2 = if s.cursor_col >= s.width && s.width > 0 { newline(s) } else { s };
    let r = trailing_space(s);
    assert(r == put(s2, seq![' '], 1)) by {
        if s.cursor_col >= s.width && s.width > 0 {
            lemma_newline_visible(s);
        }
    }
    if s.cursor_col >= s.width && s.width > 0 {
        lemma_newline_visible(s);
        assert forall|i: int| 0 <= i < s2.lines.len() implies closed(#[trigger] s2.lines[i]) by {
            if i < s.lines.len() {
                assert(s2.lines[i] == s.lines[i]);
            }
        }
        if fit {
            lemma_visible_width_bound(cur);
            assert forall|i: int| 0 <= i < s2.lines.len() implies visible_width(#[trigger] s2.lines[i]) <= w by {
                if i < s.lines.len() {
                    assert(s2.lines[i] == s.lines[i]);
                }
            }
        }
        if strict {
            lemma_split_space_after(visible_text(s), '\n');
        }
    }
    lemma_put_visible(s2, seq![' '], 1);
    assert(strip_ansi(seq![' ']) == seq![' ']);
    if strict {
        lemma_split_space_after(visible_text(s2), ' ');
    }
    if fit {
        let v = strip_ansi(s2.current_line);
        assert((v + seq![' ']).drop_last() =~= v);
        assert(trim_end(v + seq![' ']) == trim_end(v));
        lemma_trim_end_width(v);
        if s.cursor_col >= s.width && s.width > 0 {
            assert(v =~= Seq::<char>::empty());
        }
    }
}

/// The events of a paragraph holding the text `t`.
pub open spec fn paragraph_events(t: Seq<char>) -> Seq<EventView> {
    seq![EventView::Start(BlockView::Paragraph), EventView::Text(t), EventView::End(BlockView::Paragraph)]
}

/// The state once a paragraph has started, rendering from `s`.
pub open spec fn para_start(s: RenderState) -> RenderState {
    process_event(reset_state(s), EventView::Start(BlockView::Paragraph))
}

/// The state once the text `t` of a paragraph is rendered, from `s`.
pub open spec fn para_text(s: RenderState, t: Seq<char>) -> RenderState {
    process_event(para_start(s), EventView::Text(t))
}

/// Rendering a paragraph: the lines it gives are closed; with `fit` each
/// fits the width; with `strict` their visible text has the words of `t`.
#[verifier::rlimit(100)]
#[verifier::spinoff_prover]
proof fn lemma_paragraph_render(s: RenderState, t: Seq<char>, fit: bool, strict: bool)
    requires
        s.width <= usize::MAX,
        forall|k: int| 0 <= k < split_whitespace(t).len() ==> word_ok(
            #[trigger] split_whitespace(t)[k],
            s.width,
            fit,
            strict,
        ),
    ensures
        forall|i: int| 0 <= i < rendered_lines(s, paragraph_events(t)).len() ==> closed(
            #[trigger] rendered_lines(s, paragraph_events(t))[i],
        ),
        fit ==> forall|i: int| 0 <= i < rendered_lines(s, paragraph_events(t)).len()
            ==> visible_width(#[trigger] rendered_lines(s, paragraph_events(t))[i]) <= s.width,
        strict ==> split_whitespace(strip_ansi(rendered(s, paragraph_events(t))))
            == split_whitespace(t),
        para_inv(para_start(s), s.width, fit, strict),
        para_start(s).cursor_col == 0,
        para_start(s).lines.len() == 0,
        para_text(s, t) == (if t.len() > 0 && is_ws(t.last()) {
            trailing_space(place_words(para_start(s), split_whitespace(t), t.len() > 0 && is_ws(t[0])))
        } else {
            place_words(para_start(s), split_whitespace(t), t.len() > 0 && is_ws(t[0]))
        }),
        strict ==> rendered_lines(s, paragraph_events(t)).len() == para_text(s, t).lines.len() + (if para_text(
            s,
            t,
        ).current_line.len() > 0 { 1int } else { 0int }),
{
    let w = s.width;
    let ev = paragraph_events(t);
    let s0 = reset_state(s);
    assert(combine_text_events(ev) == ev) by {
        reveal_with_fuel(combine_from, 5);
        assert(combine_text_events(ev) =~= ev);
    }
    let sp = process_event(s0, ev[0]);
    let st = process_event(sp, ev[1]);
    let se = process_event(st, ev[2]);
    assert(process_events(s0, ev) == se) by {
        assert(ev.drop_last() =~= seq![ev[0], ev[1]]);
        assert(seq![ev[0], ev[1]].drop_last() =~= seq![ev[0]]);
        assert(seq![ev[0]].drop_last() =~= Seq::<EventView>::empty());
        reveal_with_fuel(process_events, 4);
    }
    reveal(process_event);
    reveal(block_start);
    reveal(general_block_start);
    reveal(separate_block);
    reveal(block_bookkeeping);
    reveal(block_open);
    reveal(block_end);
    reveal(render_text);
    assert(sp.lines.len() == 0 && sp.current_line.len() == 0 && sp.cursor_col == 0);
    assert(!sp.in_code_block && !sp.in_table_cell && !sp.in_strikethrough && !sp.in_block_quote && !sp.in_list);
    lemma_plain_closed(Seq::empty());
    assert(sp.lines.push(sp.current_line) =~= seq![Seq::<char>::empty()]);
    assert(visible_text(sp) == Seq::<char>::empty());
    assert(split_whitespace(Seq::<char>::empty()) == Seq::<Seq<char>>::empty());
    assert(para_inv(sp, w, fit, strict));
    let words = split_whitespace(t);
    let leading = t.len() > 0 && is_ws(t[0]);
    let trailing = t.len() > 0 && is_ws(t.last());
    lemma_place_words(sp, w, fit, strict, words, leading);
    let s1 = place_words(sp, words, leading);
    if strict {
        assert(Seq::<Seq<char>>::empty() + words =~= words);
    }
    assert(st == if trailing { trailing_space(s1) } else { s1 });
    if trailing {
        lemma_trailing_space(s1, w, fit, strict, words);
    } else {
        if fit {
            lemma_visible_width_bound(s1.current_line);
        }
    }
    assert(para_done(st, w, fit, strict, words));
    assert(se == flush_if_any(st));
    let f = render_final(s, ev);
    assert(f == se);
    let ls = f.lines;
    assert(rendered(s, ev) == join_lines(ls));
    if strict {
        assert(split_whitespace(visible_text(st)) == split_whitespace(t));
    }
    if st.current_line.len() > 0 {
        assert(ls == st.lines.push(st.current_line));
        assert forall|i: int| 0 <= i < ls.len() implies closed(#[trigger] ls[i]) && (fit ==> visible_width(ls[i]) <= w) by {
            if i < st.lines.len() {
                assert(ls[i] == st.lines[i]);
            }
        }
    } else {
        assert(ls == st.lines);
        if strict {
            let l = st.lines;
            assert(st.current_line =~= Seq::<char>::empty());
            lemma_join_closed(l);
            if l.len() > 0 {
                assert(l.push(Seq::<char>::empty()).drop_last() =~= l);
                assert(join_lines(l.push(Seq::<char>::empty())) =~= join_lines(l) + seq!['\n']);
                lemma_plain_closed(seq!['\n']);
                lemma_closed_concat(join_lines(l), seq!['\n']);
                assert(is_ws('\n'));
                lemma_split_space_after(strip_ansi(join_lines(l)), '\n');
                assert(visible_text(st) == strip_ansi(join_lines(l)) + seq!['\n']);
            } else {
                assert(l.push(Seq::<char>::empty()) =~= seq![Seq::<char>::empty()]);
                assert(join_lines(l) == Seq::<char>::empty());
                assert(visible_text(st) == strip_ansi(join_lines(l)));
            }
        }
    }
}

/// Every line of a rendered paragraph fits the render width: with a text
/// whose words are each no wider than the renderer's width, and which holds
/// no escape character, no line of the rendered paragraph is wider than it.
pub proof fn lemma_paragraph_lines_fit_width(s: RenderState, t: Seq<char>)
    requires
        s.width <= usize::MAX,
        no_escape(t),
        forall|k: int| 0 <= k < split_whitespace(t).len() ==> display_width(#[trigger] split_whitespace(t)[k]) <= s.width,
    ensures
        forall|i: int| 0 <= i < rendered_lines(s, paragraph_events(t)).len()
            ==> visible_width(#[trigger] rendered_lines(s, paragraph_events(t))[i]) <= s.width,
{
    lemma_split_plain(t, 0, Seq::empty(), Seq::empty());
    let ws = split_whitespace(t);
    assert forall|k: int| 0 <= k < ws.len() implies word_ok(#[trigger] ws[k], s.width, true, false) by {
        assert(ws[k].len() > 0 && no_space(ws[k]) && no_escape(ws[k]));
    }
    lemma_paragraph_render(s, t, true, false);
}

/// Wrapping loses no word: the visible text of a rendered paragraph has the
/// words of its text, unchanged and in order, whatever the width. This holds of a
/// text without escape characters (those are stripped from what is shown)
/// whose words each take some width and do not end with `>` (the word after
/// one that does is joined to it).
pub proof fn lemma_paragraph_keeps_words(s: RenderState, t: Seq<char>)
    requires
        s.width <= usize::MAX,
        no_escape(t),
        forall|k: int| 0 <= k < split_whitespace(t).len() ==> display_width(#[trigger] split_whitespace(t)[k]) >= 1
            && !ends_with(split_whitespace(t)[k], '>'),
    ensures
        split_whitespace(strip_ansi(rendered(s, paragraph_events(t)))) == split_whitespace(t),
{
    lemma_split_plain(t, 0, Seq::empty(), Seq::empty());
    let ws = split_whitespace(t);
    assert forall|k: int| 0 <= k < ws.len() implies word_ok(#[trigger] ws[k], s.width, false, true) by {
        assert(ws[k].len() > 0 && no_space(ws[k]) && no_escape(ws[k]));
    }
    lemma_paragraph_render(s, t, false, true);
}

/// Whether the renderer state `a` is at least as far down as `b`: on a later
/// line, or on the same line at or past its column.
pub open spec fn ahead(a: RenderState, b: RenderState) -> bool {
    a.lines.len() > b.lines.len() || (a.lines.len() == b.lines.len() && a.cursor_col >= b.cursor_col)
}

/// The same words placed at a narrower width end at least as far down.
proof fn lemma_place_words_pair(a: RenderState, b: RenderState, words: Seq<Seq<char>>, leading: bool)
    requires
        para_inv(a, a.width, false, true),
        para_inv(b, b.width, false, true),
        1 <= a.width <= b.width,
        a.cursor_col == 0,
        b.cursor_col == 0,
        a.lines.len() >= b.lines.len(),
        forall|k: int| 0 <= k < words.len() ==> word_ok(#[trigger] words[k], a.width, false, true),
    ensures
        ahead(place_words(a, words, leading), place_words(b, words, leading)),
    decreases words.len(),
{
    reveal(place_words);
    if words.len() > 0 {
        let d = words.drop_last();
        assert forall|k: int| 0 <= k < d.len() implies word_ok(#[trigger] d[k], a.width, false, true) by {
            assert(d[k] == words[k]);
        }
        lemma_place_words_pair(a, b, d, leading);
        lemma_place_words(a, a.width, false, true, d, leading);
        lemma_place_words(b, b.width, false, true, d, leading);
        let a1 = place_words(a, d, leading);
        let b1 = place_words(b, d, leading);
        if words.len() == 1 {
            assert(a1 == a && b1 == b);
        }
        let x = words.last();
        assert(word_ok(words[words.len() - 1], a.width, false, true));
        let sb = if words.len() == 1 { leading } else { true };
        lemma_place_word(a1, a.width, false, true, x, sb, words.len() == 1);
        lemma_place_word(b1, b.width, false, true, x, sb, words.len() == 1);
        let wx = width_of(x);
        assert(wx <= usize::MAX);
        if a1.cursor_col >= b1.cursor_col {
            assert(sat(sat(a1.cursor_col + 1int) + wx as int) >= sat(sat(b1.cursor_col + 1int) + wx as int));
        }
        assert(sat(sat(a1.cursor_col + 1int) + wx as int) >= wx);
    }
}

/// The space kept after the text keeps a narrower rendering at least as far
/// down.
proof fn lemma_trailing_pair(a: RenderState, b: RenderState)
    requires
        para_inv(a, a.width, false, true),
        para_inv(b, b.width, false, true),
        1 <= a.width <= b.width,
        ahead(a, b),
    ensures
        ahead(trailing_space(a), trailing_space(b)),
{
    lemma_trailing_space(a, a.width, false, true, split_whitespace(visible_text(a)));
    lemma_trailing_space(b, b.width, false, true, split_whitespace(visible_text(b)));
    if a.cursor_col >= b.cursor_col {
        assert(sat(a.cursor_col + 1int) >= sat(b.cursor_col + 1int));
    }
    assert(sat(a.cursor_col + 1int) >= 1);
}

/// A narrower width never gives fewer lines: a paragraph rendered at a width
/// no greater than another gives at least as many lines. This holds of a text
/// without escape characters whose words each take some width and do not end
/// with `>`.
pub proof fn lemma_narrower_width_more_lines(s1: RenderState, s2: RenderState, t: Seq<char>)
    requires
        1 <= s1.width <= s2.width,
        s2.width <= usize::MAX,
        no_escape(t),
        forall|k: int| 0 <= k < split_whitespace(t).len() ==> display_width(#[trigger] split_whitespace(t)[k]) >= 1
            && !ends_with(split_whitespace(t)[k], '>'),
    ensures
        rendered_lines(s1, paragraph_events(t)).len() >= rendered_lines(s2, paragraph_events(t)).len(),
{
    lemma_split_plain(t, 0, Seq::empty(), Seq::empty());
    let ws = split_whitespace(t);
    assert forall|k: int| 0 <= k < ws.len() implies word_ok(#[trigger] ws[k], s1.width, false, true) by {
        assert(ws[k].len() > 0 && no_space(ws[k]) && no_escape(ws[k]));
    }
    assert forall|k: int| 0 <= k < ws.len() implies word_ok(#[trigger] ws[k], s2.width, false, true) by {
        assert(word_ok(ws[k], s1.width, false, true));
    }
    lemma_paragraph_render(s1, t, false, true);
    lemma_paragraph_render(s2, t, false, true);
    let a0 = para_start(s1);
    let b0 = para_start(s2);
    let leading = t.len() > 0 && is_ws(t[0]);
    lemma_place_words_pair(a0, b0, ws, leading);
    lemma_place_words(a0, s1.width, false, true, ws, leading);
    lemma_place_words(b0, s2.width, false, true, ws, leading);
    let a1 = place_words(a0, ws, leading);
    let b1 = place_words(b0, ws, leading);
    if t.len() > 0 && is_ws(t.last()) {
        lemma_trailing_pair(a1, b1);
        lemma_trailing_space(a1, s1.width, false, true, split_whitespace(visible_text(a1)));
        lemma_trailing_space(b1, s2.width, false, true, split_whitespace(visible_text(b1)));
    }
}

} // verus!
