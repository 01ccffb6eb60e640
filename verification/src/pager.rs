//! Page-based navigation and search over rendered content lines.
use vstd::prelude::*;
use vstd::utf8::encode_utf8;
use crate::text::{chars_of, string_of, push_str, push_chars, push_decimal, decimal,
    byte_offset, byte_offset_of, lemma_encode_concat};

use crate::paragraphs::{no_escape, closed, lemma_plain_closed, lemma_closed_concat, lemma_code_closed};
use crate::textops::strip_ansi;
verus! {

/// Configuration for the pager.
#[derive(Debug, Clone)]
pub struct PagerConfig {
    /// Number of rows per page
    pub page_size: usize,
    /// Terminal columns (for indicator width)
    pub cols: usize,
}

impl Default for PagerConfig {
    fn default() -> (r: Self)
        ensures
            r.page_size == 24,
            r.cols == 80,
    {
        PagerConfig { page_size: 24, cols: 80 }
    }
}

/// Pager for page-based navigation over content lines.
pub struct Pager {
    /// All content lines
    lines: Vec<String>,
    /// Current scroll position (line index of first visible line)
    scroll_position: usize,
    /// Configuration
    config: PagerConfig,
    /// Current search pattern
    search_pattern: Option<String>,
    /// (line index, character index) of every search match, in document order
    search_matches: Vec<(usize, usize)>,
    /// Index of the current match in `search_matches`
    current_match_index: Option<usize>,
}

/// The largest scroll position: the first line of the last full page.
pub open spec fn max_scroll(total: nat, page: nat) -> nat {
    if total > page { (total - page) as nat } else { 0 }
}

/// Whether `pat` occurs in `line` starting at character index `c`.
pub open spec fn occurs_at(line: Seq<char>, pat: Seq<char>, c: int) -> bool {
    0 <= c && c + pat.len() <= line.len() && line.subrange(c, c + pat.len()) == pat
}

/// The character indices `>= from` at which `pat` occurs in `line`, ascending
/// (overlapping occurrences included).
pub open spec fn occurrences_from(line: Seq<char>, pat: Seq<char>, from: int) -> Seq<int>
    decreases line.len() + 1 - from,
{
    if from < 0 || from + pat.len() > line.len() {
        Seq::empty()
    } else if occurs_at(line, pat, from) {
        seq![from] + occurrences_from(line, pat, from + 1)
    } else {
        occurrences_from(line, pat, from + 1)
    }
}

/// All occurrences of `pat` in the first `k` lines, as (line index, character index)
/// pairs in document order.
pub open spec fn matches_in_lines(lines: Seq<Seq<char>>, pat: Seq<char>, k: int) -> Seq<(int, int)>
    decreases k,
{
    if k <= 0 {
        Seq::empty()
    } else {
        matches_in_lines(lines, pat, k - 1) + occurrences_from(lines[k - 1], pat, 0).map_values(
            |c: int| (k - 1, c),
        )
    }
}

/// All occurrences of `pat` in `lines`, in document order.
pub open spec fn all_matches(lines: Seq<Seq<char>>, pat: Seq<char>) -> Seq<(int, int)> {
    matches_in_lines(lines, pat, lines.len() as int)
}

/// The scroll position after bringing line `line` into view.
pub open spec fn scroll_to_show(scroll: nat, page: nat, total: nat, line: nat) -> nat {
    let s: nat = if line < scroll {
        line
    } else if line >= scroll + page {
        if line > page / 2 { (line - page / 2) as nat } else { 0 }
    } else {
        scroll
    };
    if s < max_scroll(total, page) { s } else { max_scroll(total, page) }
}

/// The character columns of the matches on line `line`, in order.
pub open spec fn columns_on_line(matches: Seq<(int, int)>, line: int) -> Seq<int>
    decreases matches.len(),
{
    if matches.len() == 0 {
        Seq::empty()
    } else {
        let rest = columns_on_line(matches.drop_last(), line);
        if matches.last().0 == line {
            rest.push(matches.last().1)
        } else {
            rest
        }
    }
}

/// The (line, column) pairs for the columns `cols` of line `line`.
pub open spec fn on_line(line: int, cols: Seq<int>) -> Seq<(int, int)> {
    cols.map_values(|c: int| (line, c))
}

/// The integer view of stored match positions.
pub open spec fn match_view(v: Seq<(usize, usize)>) -> Seq<(int, int)> {
    v.map_values(|m: (usize, usize)| (m.0 as int, m.1 as int))
}

/// Whether `pat` occurs in `line` at character index `c`.
fn occurs_at_exec(line: &Vec<char>, pat: &Vec<char>, c: usize) -> (r: bool)
    requires
        c + pat.len() <= line.len(),
    ensures
        r == occurs_at(line@, pat@, c as int),
{
    let mut k: usize = 0;
    while k < pat.len()
        invariant
            c + pat.len() <= line.len(),
            k <= pat.len(),
            forall|j: int| 0 <= j < k ==> line@[c + j] == pat@[j],
        decreases pat.len() - k,
    {
        if line[c + k] != pat[k] {
            assert(line@.subrange(c as int, c + pat.len())[k as int] != pat@[k as int]);
            return false;
        }
        k = k + 1;
    }
    assert(line@.subrange(c as int, c + pat.len()) =~= pat@);
    true
}

/// Appends the occurrences of `pat` in `line` (line number `li`) to `out`.
fn push_line_occurrences(line: &Vec<char>, pat: &Vec<char>, li: usize, out: &mut Vec<(usize, usize)>)
    requires
        pat.len() > 0,
    ensures
        match_view(final(out)@) == match_view(old(out)@) + on_line(
            li as int,
            occurrences_from(line@, pat@, 0),
        ),
{
    let mut c: usize = 0;
    proof {
        assert(match_view(out@) + on_line(li as int, occurrences_from(line@, pat@, 0))
            == match_view(old(out)@) + on_line(li as int, occurrences_from(line@, pat@, 0)));
    }
    while c < line.len() && pat.len() <= line.len() - c
        invariant
            pat.len() > 0,
            c <= line.len(),
            match_view(out@) + on_line(li as int, occurrences_from(line@, pat@, c as int))
                == match_view(old(out)@) + on_line(li as int, occurrences_from(line@, pat@, 0)),
        decreases line.len() - c,
    {
        let ghost before = out@;
        let hit = occurs_at_exec(line, pat, c);
        let ghost rest = occurrences_from(line@, pat@, c + 1);
        if hit {
            out.push((li, c));
            proof {
                assert(occurrences_from(line@, pat@, c as int) == seq![c as int] + rest);
                assert(match_view(out@) == match_view(before).push((li as int, c as int)));
                assert(on_line(li as int, seq![c as int] + rest) =~= seq![(li as int, c as int)]
                    + on_line(li as int, rest));
                assert(match_view(out@) + on_line(li as int, rest) =~= match_view(before)
                    + on_line(li as int, seq![c as int] + rest));
            }
        } else {
            proof {
                assert(occurrences_from(line@, pat@, c as int) == rest);
            }
        }
        c = c + 1;
    }
    proof {
        assert(occurrences_from(line@, pat@, c as int) == Seq::<int>::empty());
        assert(on_line(li as int, Seq::<int>::empty()) =~= Seq::<(int, int)>::empty());
        assert(match_view(out@) + Seq::<(int, int)>::empty() =~= match_view(out@));
    }
}

/// ANSI code that starts bold text.
pub open spec fn bold_on() -> Seq<char> {
    seq!['\x1b', '[', '1', 'm']
}

/// ANSI code that resets all styling.
pub open spec fn style_reset() -> Seq<char> {
    seq!['\x1b', '[', '0', 'm']
}

/// `line` with the pattern occurrences (of length `plen`) at `cols` wrapped in
/// bold, the text before `last_end` having been emitted already. An occurrence
/// that overlaps the previous highlighted one is left out, so the text is
/// shown once.
pub open spec fn highlight_from(line: Seq<char>, plen: int, cols: Seq<int>, last_end: int) -> Seq<char>
    decreases cols.len(),
{
    if cols.len() == 0 {
        if last_end < line.len() {
            line.subrange(last_end, line.len() as int)
        } else {
            Seq::empty()
        }
    } else {
        let c = cols[0];
        if c < last_end {
            highlight_from(line, plen, cols.drop_first(), last_end)
        } else {
            (if c > last_end { line.subrange(last_end, c) } else { Seq::empty() }) + bold_on()
                + line.subrange(c, c + plen) + style_reset() + highlight_from(
                line,
                plen,
                cols.drop_first(),
                c + plen,
            )
        }
    }
}

/// The index of the first match on line `line` or later, from index `k` on;
/// 0 (the first match) when there is none, so a search wraps around.
pub open spec fn start_index(ms: Seq<(int, int)>, line: int, k: int) -> nat
    decreases ms.len() - k,
{
    if k < 0 || k >= ms.len() {
        0
    } else if ms[k].0 >= line {
        k as nat
    } else {
        start_index(ms, line, k + 1)
    }
}

/// `line` with every occurrence listed in `cols` wrapped in bold.
pub open spec fn highlighted(line: Seq<char>, plen: int, cols: Seq<int>) -> Seq<char> {
    if cols.len() == 0 {
        line
    } else {
        highlight_from(line, plen, cols, 0)
    }
}


/// Indicator shown while more content lies below.
pub open spec fn more_indicator(pos: nat, total: nat) -> Seq<char> {
    "--- More --- ("@ + decimal(pos) + "/"@ + decimal(total) + ")"@
}

/// The keybinding help lines.
pub open spec fn help_lines() -> Seq<Seq<char>> {
    seq![
        "Keybindings:"@,
        ""@,
        "Navigation:"@,
        "  j, down, Enter  - Move down one line"@,
        "  k, up           - Move up one line"@,
        "  space, f, PageDown - Page down"@,
        "  b, PageUp       - Page up"@,
        "  g, Home         - Go to beginning"@,
        "  G, End          - Go to end"@,
        ""@,
        "Search:"@,
        "  /               - Search forward"@,
        "  n               - Next search match"@,
        "  N               - Previous search match"@,
        ""@,
        "Other:"@,
        "  r               - Reload file from disk"@,
        "  h, ?            - Show this help"@,
        "  q, Q, ZZ        - Quit"@,
    ]
}

/// The views of a sequence of strings.
pub open spec fn views(v: Seq<String>) -> Seq<Seq<char>> {
    v.map_values(|s: String| s@)
}

impl Pager {
    /// The content lines.
    pub closed spec fn lines_view(&self) -> Seq<Seq<char>> {
        views(self.lines@)
    }

    /// The index of the first visible line.
    pub closed spec fn scroll(&self) -> nat {
        self.scroll_position as nat
    }

    /// The number of rows per page.
    pub closed spec fn page(&self) -> nat {
        self.config.page_size as nat
    }

    /// The configured terminal columns.
    pub closed spec fn columns(&self) -> nat {
        self.config.cols as nat
    }

    /// The active search pattern, if any.
    pub closed spec fn pattern(&self) -> Option<Seq<char>> {
        match self.search_pattern {
            Some(p) => Some(p@),
            None => None,
        }
    }

    /// The matches of the active search, as (line index, character index) pairs.
    pub closed spec fn matches(&self) -> Seq<(int, int)> {
        self.search_matches@.map_values(|m: (usize, usize)| (m.0 as int, m.1 as int))
    }

    /// The index of the current match, if any.
    pub closed spec fn current(&self) -> Option<nat> {
        match self.current_match_index {
            Some(i) => Some(i as nat),
            None => None,
        }
    }

    /// The last scroll position at which a full page is still shown.
    pub open spec fn max_scroll_spec(&self) -> nat {
        max_scroll(self.lines_view().len(), self.page())
    }

    /// Well-formedness: the scroll position stays within the content, the
    /// matches are exactly the occurrences of the active pattern, and a
    /// current match exists exactly when there are matches.
    pub open spec fn wf(&self) -> bool {
        &&& self.scroll() <= self.max_scroll_spec()
        &&& match self.pattern() {
            None => self.matches().len() == 0,
            Some(p) => p.len() > 0 && self.matches() == all_matches(self.lines_view(), p),
        }
        &&& match self.current() {
            Some(i) => i < self.matches().len(),
            None => self.matches().len() == 0,
        }
    }

    proof fn lemma_bounds(&self)
        requires
            self.wf(),
            self.lines@.len() <= usize::MAX,
        ensures
            self.lines_view().len() == self.lines@.len(),
            self.scroll_position + self.config.page_size <= usize::MAX,
            self.scroll_position <= self.lines@.len(),
    {
    }

    fn max_scroll_position(&self) -> (r: usize)
        ensures
            r == self.max_scroll_spec(),
    {
        self.lines.len().saturating_sub(self.config.page_size)
    }

    /// Create a new Pager with the given config and content lines.
    pub fn new(config: PagerConfig, lines: Vec<String>) -> (r: Self)
        ensures
            r.wf(),
            r.lines_view() == views(lines@),
            r.scroll() == 0,
            r.page() == config.page_size,
            r.columns() == config.cols,
            r.pattern() is None,
            r.current() is None,
    {
        Pager {
            lines,
            scroll_position: 0,
            config,
            search_pattern: None,
            search_matches: Vec::new(),
            current_match_index: None,
        }
    }

    /// Get the lines that are currently visible.
    pub fn visible_lines(&self) -> (r: Vec<String>)
        requires
            self.wf(),
        ensures
            r@ == self.visible_window(),
            views(r@) == if self.scroll() >= self.lines_view().len() {
                Seq::empty()
            } else {
                self.lines_view().subrange(
                    self.scroll() as int,
                    if self.scroll() + self.page() < self.lines_view().len() {
                        (self.scroll() + self.page()) as int
                    } else {
                        self.lines_view().len() as int
                    },
                )
            },
    {
        let ghost_len = self.lines.len();
        proof { self.lemma_bounds(); }
        let end = if self.scroll_position + self.config.page_size < self.lines.len() {
            self.scroll_position + self.config.page_size
        } else {
            self.lines.len()
        };
        if self.scroll_position >= self.lines.len() {
            return Vec::new();
        }
        let mut r: Vec<String> = Vec::new();
        let mut i = self.scroll_position;
        while i < end
            invariant
                self.scroll_position <= i <= end <= self.lines.len(),
                r@.len() == i - self.scroll_position,
                forall|k: int|
                    0 <= k < r@.len() ==> #[trigger] r@[k] == self.lines@[self.scroll_position + k],
            decreases end - i,
        {
            r.push(self.lines[i].clone());
            i = i + 1;
        }
        assert(views(r@) == self.lines_view().subrange(self.scroll_position as int, end as int));
        assert(r@ =~= self.visible_window());
        r
    }

    /// Scroll down by one page.
    pub fn page_down(&mut self)
        requires
            old(self).wf(),
        ensures
            final(self).wf(),
            final(self).scroll() == if old(self).scroll() + old(self).page()
                < old(self).max_scroll_spec() {
                old(self).scroll() + old(self).page()
            } else {
                old(self).max_scroll_spec()
            },
            final(self).lines_view() == old(self).lines_view(),
            final(self).page() == old(self).page(),
            final(self).columns() == old(self).columns(),
            final(self).pattern() == old(self).pattern(),
            final(self).matches() == old(self).matches(),
            final(self).current() == old(self).current(),
    {
        let ghost_len = self.lines.len();
        proof { self.lemma_bounds(); }
        let new_position = self.scroll_position + self.config.page_size;
        let m = self.max_scroll_position();
        self.scroll_position = if new_position < m { new_position } else { m };
    }

    /// Scroll up by one page.
    pub fn page_up(&mut self)
        requires
            old(self).wf(),
        ensures
            final(self).wf(),
            final(self).scroll() == if old(self).scroll() > old(self).page() {
                (old(self).scroll() - old(self).page()) as nat
            } else {
                0
            },
            final(self).lines_view() == old(self).lines_view(),
            final(self).page() == old(self).page(),
            final(self).columns() == old(self).columns(),
            final(self).pattern() == old(self).pattern(),
            final(self).matches() == old(self).matches(),
            final(self).current() == old(self).current(),
    {
        self.scroll_position = self.scroll_position.saturating_sub(self.config.page_size);
    }

    /// Get the progress indicator text: `None` when nothing more lies below the
    /// page (empty content included), otherwise the position marker.
    pub fn progress_indicator(&self) -> (r: Option<String>)
        requires
            self.wf(),
        ensures
            self.scroll() + self.page() >= self.lines_view().len() ==> r is None,
            self.scroll() + self.page() < self.lines_view().len()
                ==> (r matches Some(s) && s@ == more_indicator(
                self.scroll() + self.page(),
                self.lines_view().len(),
            )),
    {
        let ghost_len = self.lines.len();
        proof { self.lemma_bounds(); }
        let total_lines = self.lines.len();
        if total_lines == 0 {
            return None;
        }
        let end = self.scroll_position + self.config.page_size;
        if end >= total_lines {
            return None;
        }
        let mut out: Vec<char> = Vec::new();
        push_str(&mut out, "--- More --- (");
        push_decimal(&mut out, end as u64);
        push_str(&mut out, "/");
        push_decimal(&mut out, total_lines as u64);
        push_str(&mut out, ")");
        Some(string_of(&out))
    }

    /// Check if there's more content below.
    pub fn has_more_below(&self) -> (r: bool)
        requires
            self.wf(),
        ensures
            r == (self.scroll() + self.page() < self.lines_view().len()),
    {
        let ghost_len = self.lines.len();
        proof { self.lemma_bounds(); }
        self.scroll_position + self.config.page_size < self.lines.len()
    }

    /// Check if there's more content above.
    pub fn has_more_above(&self) -> (r: bool)
        ensures
            r == (self.scroll() > 0),
    {
        self.scroll_position > 0
    }

    /// Go to a specific line (clamped to the last full page).
    pub fn go_to_line(&mut self, line: usize)
        requires
            old(self).wf(),
        ensures
            final(self).wf(),
            final(self).scroll() == if line < old(self).max_scroll_spec() {
                line as nat
            } else {
                old(self).max_scroll_spec()
            },
            final(self).lines_view() == old(self).lines_view(),
            final(self).page() == old(self).page(),
            final(self).columns() == old(self).columns(),
            final(self).pattern() == old(self).pattern(),
            final(self).matches() == old(self).matches(),
            final(self).current() == old(self).current(),
    {
        let m = self.max_scroll_position();
        self.scroll_position = if line < m { line } else { m };
    }

    /// Go to the beginning of the content.
    pub fn go_to_beginning(&mut self)
        requires
            old(self).wf(),
        ensures
            final(self).wf(),
            final(self).scroll() == 0,
            final(self).lines_view() == old(self).lines_view(),
            final(self).page() == old(self).page(),
            final(self).columns() == old(self).columns(),
            final(self).pattern() == old(self).pattern(),
            final(self).matches() == old(self).matches(),
            final(self).current() == old(self).current(),
    {
        self.scroll_position = 0;
    }

    /// Go to the end of the content.
    pub fn go_to_end(&mut self)
        requires
            old(self).wf(),
        ensures
            final(self).wf(),
            final(self).scroll() == old(self).max_scroll_spec(),
            final(self).lines_view() == old(self).lines_view(),
            final(self).page() == old(self).page(),
            final(self).columns() == old(self).columns(),
            final(self).pattern() == old(self).pattern(),
            final(self).matches() == old(self).matches(),
            final(self).current() == old(self).current(),
    {
        self.scroll_position = self.max_scroll_position();
    }

    /// Scroll down by one line.
    pub fn scroll_down(&mut self)
        requires
            old(self).wf(),
        ensures
            final(self).wf(),
            final(self).scroll() == if old(self).scroll() + 1 < old(self).max_scroll_spec() {
                old(self).scroll() + 1
            } else {
                old(self).max_scroll_spec()
            },
            final(self).lines_view() == old(self).lines_view(),
            final(self).page() == old(self).page(),
            final(self).columns() == old(self).columns(),
            final(self).pattern() == old(self).pattern(),
            final(self).matches() == old(self).matches(),
            final(self).current() == old(self).current(),
    {
        let m = self.max_scroll_position();
        self.scroll_position = if self.scroll_position < m { self.scroll_position + 1 } else { m };
    }

    /// Scroll up by one line.
    pub fn scroll_up(&mut self)
        requires
            old(self).wf(),
        ensures
            final(self).wf(),
            final(self).scroll() == if old(self).scroll() > 0 {
                (old(self).scroll() - 1) as nat
            } else {
                0
            },
            final(self).lines_view() == old(self).lines_view(),
            final(self).page() == old(self).page(),
            final(self).columns() == old(self).columns(),
            final(self).pattern() == old(self).pattern(),
            final(self).matches() == old(self).matches(),
            final(self).current() == old(self).current(),
    {
        self.scroll_position = self.scroll_position.saturating_sub(1);
    }

    /// Get the total number of lines.
    pub fn total_lines(&self) -> (r: usize)
        ensures
            r == self.lines_view().len(),
    {
        self.lines.len()
    }

    /// The number of rows per page.
    pub fn page_size(&self) -> (r: usize)
        ensures
            r == self.page(),
    {
        self.config.page_size
    }

    /// Get the current scroll position (0-indexed).
    pub fn scroll_position(&self) -> (r: usize)
        ensures
            r == self.scroll(),
    {
        self.scroll_position
    }
}


impl Pager {
    /// Scroll to show a specific line.
    fn scroll_to_show_line(&mut self, line_idx: usize)
        requires
            old(self).wf(),
        ensures
            final(self).wf(),
            final(self).scroll() == scroll_to_show(
                old(self).scroll(),
                old(self).page(),
                old(self).lines_view().len(),
                line_idx as nat,
            ),
            final(self).lines == old(self).lines,
            final(self).config == old(self).config,
            final(self).search_pattern == old(self).search_pattern,
            final(self).search_matches == old(self).search_matches,
            final(self).current_match_index == old(self).current_match_index,
    {
        let _n = self.lines.len();
        proof { self.lemma_bounds(); }
        let page_size = self.config.page_size;
        if line_idx < self.scroll_position {
            self.scroll_position = line_idx;
        } else if line_idx >= self.scroll_position + page_size {
            self.scroll_position = line_idx.saturating_sub(page_size / 2);
        }
        let m = self.max_scroll_position();
        if m < self.scroll_position {
            self.scroll_position = m;
        }
    }

    /// Search for a pattern in the content.
    /// The search runs forward from the current position: the current match
    /// becomes the first one on the first visible line or below, wrapping to
    /// the first match of the document when there is none.
    /// Returns the (line index, byte column) of that match, or `None` if the
    /// pattern is empty or not found. An empty pattern clears the search.
    #[verifier::rlimit(100)]
    #[verifier::spinoff_prover]
    pub fn search(&mut self, pattern: &str) -> (r: Option<(usize, usize)>)
        requires
            old(self).wf(),
        ensures
            final(self).wf(),
            final(self).lines_view() == old(self).lines_view(),
            final(self).page() == old(self).page(),
            final(self).columns() == old(self).columns(),
            pattern@.len() == 0 ==> {
                &&& final(self).pattern() is None
                &&& final(self).current() is None
                &&& final(self).scroll() == old(self).scroll()
                &&& r is None
            },
            pattern@.len() > 0 ==> {
                let ms = all_matches(old(self).lines_view(), pattern@);
                &&& final(self).pattern() == Some(pattern@)
                &&& final(self).matches() == ms
                &&& ms.len() == 0 ==> {
                    &&& r is None
                    &&& final(self).current() is None
                    &&& final(self).scroll() == old(self).scroll()
                }
                &&& ms.len() > 0 ==> {
                    let k = start_index(ms, old(self).scroll() as int, 0);
                    &&& r == Some((ms[k as int].0 as usize, byte_offset(old(self).lines_view()[ms[k as int].0], ms[k as int].1) as usize))
                    &&& final(self).current() == Some(k)
                    &&& final(self).scroll() == scroll_to_show(
                        old(self).scroll(),
                        old(self).page(),
                        old(self).lines_view().len(),
                        ms[k as int].0 as nat,
                    )
                }
            },
    {
        if pattern.is_empty() {
            self.search_pattern = None;
            self.search_matches.clear();
            self.current_match_index = None;
            return None;
        }
        let pat = chars_of(pattern);
        let mut matches: Vec<(usize, usize)> = Vec::new();
        let mut i: usize = 0;
        let ghost lv = self.lines_view();
        while i < self.lines.len()
            invariant
                pat@ == pattern@,
                pat.len() > 0,
                i <= self.lines.len(),
                lv == self.lines_view(),
                lv.len() == self.lines@.len(),
                match_view(matches@) == matches_in_lines(lv, pat@, i as int),
            decreases self.lines.len() - i,
        {
            let line = chars_of(self.lines[i].as_str());
            assert(line@ == lv[i as int]);
            push_line_occurrences(&line, &pat, i, &mut matches);
            i = i + 1;
        }
        self.search_pattern = Some(pattern.to_string());
        self.search_matches = matches;
        if self.search_matches.len() == 0 {
            self.current_match_index = None;
            return None;
        }
        let ghost ms = self.matches();
        let mut k: usize = 0;
        while k < self.search_matches.len() && self.search_matches[k].0 < self.scroll_position
            invariant
                k <= self.search_matches.len(),
                ms == self.matches(),
                ms.len() == self.search_matches.len(),
                start_index(ms, self.scroll_position as int, k as int) == start_index(ms, self.scroll_position as int, 0),
            decreases self.search_matches.len() - k,
        {
            assert(ms[k as int].0 == self.search_matches[k as int].0);
            k = k + 1;
        }
        if k == self.search_matches.len() {
            k = 0;
        } else {
            assert(ms[k as int].0 == self.search_matches[k as int].0);
        }
        self.current_match_index = Some(k);
        let (line_idx, col_idx) = self.search_matches[k];
        proof {
            assert(self.matches()[k as int] == (line_idx as int, col_idx as int));
            lemma_matches_in_range(lv, pat@, lv.len() as int, k as int);
        }
        let line = chars_of(self.lines[line_idx].as_str());
        let bytes = self.lines[line_idx].as_str().as_bytes();
        let _nb = bytes.len();
        let byte_col = byte_offset_of(&line, col_idx);
        self.scroll_to_show_line(line_idx);
        Some((line_idx, byte_col))
    }
}

impl Pager {
    /// Go to the next search match (wrapping around to the first).
    pub fn search_next(&mut self)
        requires
            old(self).wf(),
        ensures
            final(self).wf(),
            final(self).lines_view() == old(self).lines_view(),
            final(self).page() == old(self).page(),
            final(self).columns() == old(self).columns(),
            final(self).pattern() == old(self).pattern(),
            final(self).matches() == old(self).matches(),
            old(self).matches().len() == 0 ==> final(self).scroll() == old(self).scroll()
                && final(self).current() == old(self).current(),
            old(self).matches().len() > 0 ==> {
                let next = next_match_index(old(self).current().unwrap(), old(self).matches().len());
                &&& final(self).current() == Some(next)
                &&& final(self).scroll() == scroll_to_show(
                    old(self).scroll(),
                    old(self).page(),
                    old(self).lines_view().len(),
                    old(self).matches()[next as int].0 as nat,
                )
            },
    {
        if self.search_matches.len() == 0 {
            return;
        }
        let current_idx = match self.current_match_index {
            Some(i) => i,
            None => 0,
        };
        let next_idx = (current_idx + 1) % self.search_matches.len();
        self.current_match_index = Some(next_idx);
        let (line_idx, _) = self.search_matches[next_idx];
        self.scroll_to_show_line(line_idx);
    }

    /// Go to the previous search match (wrapping around to the last).
    pub fn search_previous(&mut self)
        requires
            old(self).wf(),
        ensures
            final(self).wf(),
            final(self).lines_view() == old(self).lines_view(),
            final(self).page() == old(self).page(),
            final(self).columns() == old(self).columns(),
            final(self).pattern() == old(self).pattern(),
            final(self).matches() == old(self).matches(),
            old(self).matches().len() == 0 ==> final(self).scroll() == old(self).scroll()
                && final(self).current() == old(self).current(),
            old(self).matches().len() > 0 ==> {
                let prev = if old(self).current().unwrap() == 0 {
                    (old(self).matches().len() - 1) as nat
                } else {
                    (old(self).current().unwrap() - 1) as nat
                };
                &&& final(self).current() == Some(prev)
                &&& final(self).scroll() == scroll_to_show(
                    old(self).scroll(),
                    old(self).page(),
                    old(self).lines_view().len(),
                    old(self).matches()[prev as int].0 as nat,
                )
            },
    {
        if self.search_matches.len() == 0 {
            return;
        }
        let current_idx = match self.current_match_index {
            Some(i) => i,
            None => 0,
        };
        let prev_idx = if current_idx == 0 {
            self.search_matches.len() - 1
        } else {
            current_idx - 1
        };
        self.current_match_index = Some(prev_idx);
        let (line_idx, _) = self.search_matches[prev_idx];
        self.scroll_to_show_line(line_idx);
    }

    /// The columns of the matches on line `line_num`, in order.
    #[verifier::rlimit(100)]
    #[verifier::spinoff_prover]
    fn columns_of_line(&self, line_num: usize) -> (r: Vec<usize>)
        ensures
            r@.map_values(|c: usize| c as int) == columns_on_line(self.matches(), line_num as int),
    {
        let mut r: Vec<usize> = Vec::new();
        let mut i: usize = 0;
        while i < self.search_matches.len()
            invariant
                i <= self.search_matches.len(),
                r@.map_values(|c: usize| c as int) == columns_on_line(
                    self.matches().take(i as int),
                    line_num as int,
                ),
            decreases self.search_matches.len() - i,
        {
            let (l, c) = self.search_matches[i];
            proof {
                assert(self.matches().take(i + 1).drop_last() =~= self.matches().take(i as int));
                assert(self.matches().take(i + 1).last() == (l as int, c as int));
            }
            if l == line_num {
                r.push(c);
                assert(r@.map_values(|c: usize| c as int) =~= columns_on_line(
                    self.matches().take(i as int),
                    line_num as int,
                ).push(c as int));
            }
            i = i + 1;
        }
        assert(self.matches().take(self.search_matches.len() as int) =~= self.matches());
        r
    }

    /// Highlight all occurrences of the pattern on line `line_num` in bold.
    #[verifier::rlimit(100)]
    #[verifier::spinoff_prover]
    fn highlight_pattern(&self, line: &String, pattern: &String, line_num: usize) -> (r: String)
        requires
            self.wf(),
            self.pattern() == Some(pattern@),
            line_num < self.lines_view().len(),
            line@ == self.lines_view()[line_num as int],
        ensures
            r@ == highlighted(
                line@,
                pattern@.len() as int,
                columns_on_line(self.matches(), line_num as int),
            ),
    {
        let cols = self.columns_of_line(line_num);
        let ghost gcols = columns_on_line(self.matches(), line_num as int);
        if cols.len() == 0 {
            return line.clone();
        }
        let lc = chars_of(line.as_str());
        let plen = chars_of(pattern.as_str()).len();
        proof {
            lemma_columns_in_range(self.lines_view(), pattern@, self.matches(), line_num as int);
        }
        let mut out: Vec<char> = Vec::new();
        let mut last_end: usize = 0;
        let mut k: usize = 0;
        assert(gcols.skip(0) =~= gcols);
        assert(out@ =~= Seq::<char>::empty());
        while k < cols.len()
            invariant
                k <= cols.len(),
                gcols == cols@.map_values(|c: usize| c as int),
                plen == pattern@.len(),
                lc@ == line@,
                forall|j: int| 0 <= j < gcols.len() ==> 0 <= #[trigger] gcols[j] && gcols[j] + plen <= lc@.len(),
                last_end <= lc@.len(),
                out@ + highlight_from(lc@, plen as int, gcols.skip(k as int), last_end as int)
                    == highlight_from(lc@, plen as int, gcols, 0),
            decreases cols.len() - k,
        {
            let col = cols[k];
            if col < last_end {
                proof {
                    assert(gcols.skip(k as int)[0] == col as int);
                    assert(gcols.skip(k as int).drop_first() =~= gcols.skip(k + 1));
                }
                k = k + 1;
                continue;
            }
            let ghost before = out@;
            assert(gcols[k as int] == col as int);
            assert(col + plen <= lc.len());
            proof {
                assert(gcols.skip(k as int)[0] == col as int);
                assert(gcols.skip(k as int).drop_first() =~= gcols.skip(k + 1));
            }
            if col > last_end {
                let mut i = last_end;
                while i < col
                    invariant
                        last_end <= i <= col <= lc@.len(),
                        out@ == before + lc@.subrange(last_end as int, i as int),
                    decreases col - i,
                {
                    out.push(lc[i]);
                    assert(lc@.subrange(last_end as int, i + 1) =~= lc@.subrange(last_end as int, i as int).push(lc@[i as int]));
                    i = i + 1;
                }
            }
            let ghost mid = out@;
            push_str(&mut out, "\x1b[1m");
            let mut i = col;
            let end = col + plen;
            let ghost mid2 = out@;
            while i < end
                invariant
                    end == col + plen,
                    col <= i <= col + plen <= lc@.len(),
                    out@ == mid2 + lc@.subrange(col as int, i as int),
                decreases end - i,
            {
                out.push(lc[i]);
                assert(lc@.subrange(col as int, i + 1) =~= lc@.subrange(col as int, i as int).push(lc@[i as int]));
                i = i + 1;
            }
            push_str(&mut out, "\x1b[0m");
            proof {
                reveal_strlit("\x1b[1m");
                reveal_strlit("\x1b[0m");
                assert("\x1b[1m"@ =~= bold_on());
                assert("\x1b[0m"@ =~= style_reset());
                let pre = if (col as int) > (last_end as int) { lc@.subrange(last_end as int, col as int) } else { Seq::empty() };
                assert(mid == before + pre);
                assert(out@ == before + pre + bold_on() + lc@.subrange(col as int, col + plen) + style_reset());
                let tail = highlight_from(lc@, plen as int, gcols.skip(k + 1), col + plen);
                assert(highlight_from(lc@, plen as int, gcols.skip(k as int), last_end as int)
                    == pre + bold_on() + lc@.subrange(col as int, col + plen) + style_reset() + tail);
                assert(out@ + tail =~= before + (pre + bold_on() + lc@.subrange(col as int, col + plen) + style_reset() + tail));
            }
            last_end = end;
            k = k + 1;
        }
        let ghost before = out@;
        if last_end < lc.len() {
            let mut i = last_end;
            while i < lc.len()
                invariant
                    last_end <= i <= lc@.len(),
                    out@ == before + lc@.subrange(last_end as int, i as int),
                decreases lc.len() - i,
            {
                out.push(lc[i]);
                assert(lc@.subrange(last_end as int, i + 1) =~= lc@.subrange(last_end as int, i as int).push(lc@[i as int]));
                i = i + 1;
            }
        }
        proof {
            assert(gcols.skip(cols.len() as int) =~= Seq::<int>::empty());
            if (last_end as int) < lc@.len() {
                assert(out@ == before + highlight_from(lc@, plen as int, gcols.skip(k as int), last_end as int));
            } else {
                assert(out@ =~= before + highlight_from(lc@, plen as int, gcols.skip(k as int), last_end as int));
            }
            assert(gcols.skip(0) =~= gcols);
        }
        string_of(&out)
    }
}

/// The match after match `cur` of `n`, wrapping from the last to the first.
pub open spec fn next_match_index(cur: nat, n: nat) -> nat {
    ((cur + 1) % n) as nat
}

/// The current match after `k` steps to the next match, from match `cur`
/// of `n`.
pub open spec fn after_steps(cur: nat, n: nat, k: nat) -> nat
    decreases k,
{
    if k == 0 {
        cur
    } else {
        next_match_index(after_steps(cur, n, (k - 1) as nat), n)
    }
}

proof fn lemma_after_steps(cur: nat, n: nat, k: nat)
    requires
        cur < n,
    ensures
        after_steps(cur, n, k) as int == (cur + k) as int % (n as int),
    decreases k,
{
    if k > 0 {
        lemma_after_steps(cur, n, (k - 1) as nat);
        vstd::arithmetic::div_mod::lemma_add_mod_noop_right(1, (cur + k - 1) as int, n as int);
        assert(1 + (cur + k - 1) == cur + k);
    } else {
        vstd::arithmetic::div_mod::lemma_small_mod(cur, n);
    }
}

/// Stepping through the matches comes round: over `n` matches, `n` steps to
/// the next match (each call of `search_next` takes one) bring the current
/// match back to where it was, and with it the search status.
pub proof fn lemma_search_next_cycles(pattern: Option<Seq<char>>, cur: nat, n: nat)
    requires
        cur < n,
    ensures
        after_steps(cur, n, n) == cur,
        search_status(pattern, n, Some(after_steps(cur, n, n))) == search_status(pattern, n, Some(cur)),
{
    lemma_after_steps(cur, n, n);
    vstd::arithmetic::div_mod::lemma_mod_add_multiples_vanish(cur as int, n as int);
    vstd::arithmetic::div_mod::lemma_small_mod(cur, n);
    assert((cur + n) as int == n as int + cur as int);
}

/// Status line for a search with pattern `p`, `n` matches and current match `cur`.
pub open spec fn search_status(p: Option<Seq<char>>, n: nat, cur: Option<nat>) -> Seq<char> {
    match p {
        None => Seq::empty(),
        Some(p) => if n == 0 {
            "Pattern '"@ + p + "' not found"@
        } else if cur is Some {
            "Search: '"@ + p + "' ("@ + decimal(cur.unwrap() + 1) + "/"@ + decimal(n) + ")"@
        } else {
            "Search: '"@ + p + "'"@
        },
    }
}

impl Pager {
    /// Get the visible lines with the occurrences of the active search
    /// pattern highlighted in bold.
    #[verifier::rlimit(100)]
    #[verifier::spinoff_prover]
    pub fn visible_lines_with_highlight(&self) -> (r: Vec<String>)
        requires
            self.wf(),
        ensures
            self.pattern() is None ==> views(r@) == views(self.visible_window()),
            self.pattern() is Some ==> {
                &&& r@.len() == self.visible_window().len()
                &&& forall|k: int| 0 <= k < r@.len() ==> #[trigger] r@[k]@ == highlighted(
                    self.visible_window()[k]@,
                    self.pattern().unwrap().len() as int,
                    columns_on_line(self.matches(), self.scroll() + k),
                )
            },
    {
        let visible = self.visible_lines();
        let pattern = match &self.search_pattern {
            Some(p) => p,
            None => {
                proof { self.lemma_visible_window(visible@); }
                return visible;
            },
        };
        proof { self.lemma_visible_window(visible@); }
        let _n = self.lines.len();
        proof { self.lemma_bounds(); }
        let start_line = self.scroll_position;
        let mut r: Vec<String> = Vec::new();
        let mut idx: usize = 0;
        while idx < visible.len()
            invariant
                self.wf(),
                self.pattern() == Some(pattern@),
                idx <= visible.len(),
                visible@ == self.visible_window(),
                start_line == self.scroll(),
                start_line + visible.len() <= self.lines_view().len(),
                self.lines_view().len() <= usize::MAX,
                r@.len() == idx,
                forall|k: int| 0 <= k < idx ==> #[trigger] r@[k]@ == highlighted(
                    visible@[k]@,
                    pattern@.len() as int,
                    columns_on_line(self.matches(), start_line + k),
                ),
            decreases visible.len() - idx,
        {
            let line_num = start_line + idx;
            let h = self.highlight_pattern(&visible[idx], pattern, line_num);
            r.push(h);
            idx = idx + 1;
        }
        r
    }

    /// The lines of the current page, as stored.
    pub closed spec fn visible_window(&self) -> Seq<String> {
        if self.scroll() >= self.lines@.len() {
            Seq::empty()
        } else {
            self.lines@.subrange(
                self.scroll() as int,
                if self.scroll() + self.page() < self.lines@.len() {
                    (self.scroll() + self.page()) as int
                } else {
                    self.lines@.len() as int
                },
            )
        }
    }

    proof fn lemma_visible_window(&self, v: Seq<String>)
        requires
            self.wf(),
            views(v) == if self.scroll() >= self.lines_view().len() {
                Seq::empty()
            } else {
                self.lines_view().subrange(
                    self.scroll() as int,
                    if self.scroll() + self.page() < self.lines_view().len() {
                        (self.scroll() + self.page()) as int
                    } else {
                        self.lines_view().len() as int
                    },
                )
            },
        ensures
            views(v) == views(self.visible_window()),
            self.scroll() + v.len() <= self.lines_view().len(),
            forall|k: int| 0 <= k < v.len() ==> #[trigger] v[k]@ == self.lines_view()[self.scroll() + k],
    {
        assert(views(self.visible_window()) =~= views(v));
        assert forall|k: int| 0 <= k < v.len() implies #[trigger] v[k]@ == self.lines_view()[self.scroll() + k] by {
            assert(views(v)[k] == v[k]@);
        }
    }

    /// Get the search status message: empty without a search, a not-found
    /// notice when the pattern has no matches, the current match position otherwise.
    pub fn search_status_message(&self) -> (r: String)
        requires
            self.wf(),
        ensures
            r@ == search_status(self.pattern(), self.matches().len(), self.current()),
    {
        match &self.search_pattern {
            Some(pattern) => {
                let mut out: Vec<char> = Vec::new();
                if self.search_matches.len() == 0 {
                    push_str(&mut out, "Pattern '");
                    push_str(&mut out, pattern.as_str());
                    push_str(&mut out, "' not found");
                } else if let Some(idx) = self.current_match_index {
                    push_str(&mut out, "Search: '");
                    push_str(&mut out, pattern.as_str());
                    push_str(&mut out, "' (");
                    push_decimal(&mut out, (idx + 1) as u64);
                    push_str(&mut out, "/");
                    push_decimal(&mut out, self.search_matches.len() as u64);
                    push_str(&mut out, ")");
                } else {
                    push_str(&mut out, "Search: '");
                    push_str(&mut out, pattern.as_str());
                    push_str(&mut out, "'");
                }
                string_of(&out)
            },
            None => String::new(),
        }
    }

    /// Clear the current search.
    pub fn clear_search(&mut self)
        requires
            old(self).wf(),
        ensures
            final(self).wf(),
            final(self).pattern() is None,
            final(self).current() is None,
            final(self).lines_view() == old(self).lines_view(),
            final(self).scroll() == old(self).scroll(),
            final(self).page() == old(self).page(),
            final(self).columns() == old(self).columns(),
    {
        self.search_pattern = None;
        self.search_matches.clear();
        self.current_match_index = None;
    }

    /// Get the help text displaying all available keybindings.
    pub fn help_text(&self) -> (r: Vec<String>)
        ensures
            views(r@) == help_lines(),
    {
        let mut r: Vec<String> = Vec::new();
        r.push("Keybindings:".to_string());
        r.push("".to_string());
        r.push("Navigation:".to_string());
        r.push("  j, down, Enter  - Move down one line".to_string());
        r.push("  k, up           - Move up one line".to_string());
        r.push("  space, f, PageDown - Page down".to_string());
        r.push("  b, PageUp       - Page up".to_string());
        r.push("  g, Home         - Go to beginning".to_string());
        r.push("  G, End          - Go to end".to_string());
        r.push("".to_string());
        r.push("Search:".to_string());
        r.push("  /               - Search forward".to_string());
        r.push("  n               - Next search match".to_string());
        r.push("  N               - Previous search match".to_string());
        r.push("".to_string());
        r.push("Other:".to_string());
        r.push("  r               - Reload file from disk".to_string());
        r.push("  h, ?            - Show this help".to_string());
        r.push("  q, Q, ZZ        - Quit".to_string());
        assert(views(r@) =~= help_lines());
        r
    }
}

/// The columns recorded for one line are occurrences lying within that line.
pub proof fn lemma_columns_in_range(lines: Seq<Seq<char>>, pat: Seq<char>, ms: Seq<(int, int)>, line: int)
    requires
        ms == all_matches(lines, pat),
        0 <= line < lines.len(),
    ensures
        forall|j: int| 0 <= j < columns_on_line(ms, line).len() ==> 0 <= #[trigger] columns_on_line(ms, line)[j]
            && columns_on_line(ms, line)[j] + pat.len() <= lines[line].len(),
{
    assert forall|j: int| 0 <= j < columns_on_line(ms, line).len() implies 0 <= #[trigger] columns_on_line(ms, line)[j]
        && columns_on_line(ms, line)[j] + pat.len() <= lines[line].len() by {
        let i = lemma_column_source(ms, line, j);
        lemma_matches_in_range(lines, pat, lines.len() as int, i);
    }
}

/// Each column recorded for `line` comes from a match on that line.
pub proof fn lemma_column_source(ms: Seq<(int, int)>, line: int, j: int) -> (i: int)
    requires
        0 <= j < columns_on_line(ms, line).len(),
    ensures
        0 <= i < ms.len(),
        ms[i].0 == line,
        ms[i].1 == columns_on_line(ms, line)[j],
    decreases ms.len(),
{
    let rest = columns_on_line(ms.drop_last(), line);
    if ms.last().0 == line && j == rest.len() {
        (ms.len() - 1) as int
    } else {
        let i = lemma_column_source(ms.drop_last(), line, j);
        i
    }
}

/// Every match of the first `k` lines lies on one of those lines, within it.
pub proof fn lemma_matches_in_range(lines: Seq<Seq<char>>, pat: Seq<char>, k: int, j: int)
    requires
        0 <= k <= lines.len(),
        0 <= j < matches_in_lines(lines, pat, k).len(),
    ensures
        0 <= matches_in_lines(lines, pat, k)[j].0 < k,
        0 <= matches_in_lines(lines, pat, k)[j].1,
        matches_in_lines(lines, pat, k)[j].1 + pat.len() <= lines[matches_in_lines(lines, pat, k)[j].0].len(),
    decreases k,
{
    let prev = matches_in_lines(lines, pat, k - 1);
    if j < prev.len() {
        lemma_matches_in_range(lines, pat, k - 1, j);
    } else {
        lemma_occurrences_in_range(lines[k - 1], pat, 0, j - prev.len());
    }
}

/// Every occurrence found from `from` lies at or after `from`, within the line.
pub proof fn lemma_occurrences_in_range(line: Seq<char>, pat: Seq<char>, from: int, j: int)
    requires
        0 <= from,
        0 <= j < occurrences_from(line, pat, from).len(),
    ensures
        from <= occurrences_from(line, pat, from)[j],
        occurrences_from(line, pat, from)[j] + pat.len() <= line.len(),
    decreases line.len() + 1 - from,
{
    if occurs_at(line, pat, from) {
        if j > 0 {
            lemma_occurrences_in_range(line, pat, from + 1, j - 1);
        }
    } else {
        lemma_occurrences_in_range(line, pat, from + 1, j);
    }
}

/// Whether `cols` lists, in order, places in `line` where `plen` characters
/// fit, each starting at or after the end of the one before.
pub open spec fn separate_spans(line: Seq<char>, plen: int, cols: Seq<int>) -> bool {
    &&& plen >= 0
    &&& forall|j: int| 0 <= j < cols.len() ==> 0 <= #[trigger] cols[j] && cols[j] + plen <= line.len()
    &&& forall|j: int| 0 < j < cols.len() ==> cols[j - 1] + plen <= #[trigger] cols[j]
}

proof fn lemma_concat_window(a: Seq<char>, b: Seq<char>, i: int, n: int)
    requires
        0 <= i,
        0 <= n,
        i + n <= b.len(),
    ensures
        (a + b).subrange(a.len() + i, a.len() + i + n) == b.subrange(i, i + n),
{
    assert((a + b).subrange(a.len() + i, a.len() + i + n) =~= b.subrange(i, i + n));
}

proof fn lemma_marked_head(pre: Seq<char>, mid: Seq<char>, rest: Seq<char>)
    ensures
        ({
            let out = pre + bold_on() + mid + style_reset() + rest;
            let at = pre.len() as int;
            &&& out.subrange(at, at + 4) == bold_on()
            &&& out.subrange(at + 4, at + 4 + mid.len()) == mid
            &&& out.subrange(at + 4 + mid.len(), at + 8 + mid.len()) == style_reset()
        }),
{
    let out = pre + bold_on() + mid + style_reset() + rest;
    let at = pre.len() as int;
    assert(out.subrange(at, at + 4) =~= bold_on());
    assert(out.subrange(at + 4, at + 4 + mid.len()) =~= mid);
    assert(out.subrange(at + 4 + mid.len(), at + 8 + mid.len()) =~= style_reset());
}

proof fn lemma_spans_rest(line: Seq<char>, plen: int, cols: Seq<int>)
    requires
        separate_spans(line, plen, cols),
        cols.len() > 0,
    ensures
        separate_spans(line, plen, cols.drop_first()),
        cols.len() > 1 ==> cols[0] + plen <= cols.drop_first()[0],
{
    let r = cols.drop_first();
    assert forall|j: int| 0 <= j < r.len() implies 0 <= #[trigger] r[j] && r[j] + plen <= line.len() by {
        assert(r[j] == cols[j + 1]);
    }
    assert forall|j: int| 0 < j < r.len() implies r[j - 1] + plen <= #[trigger] r[j] by {
        assert(r[j] == cols[j + 1] && r[j - 1] == cols[j]);
    }
    if cols.len() > 1 {
        assert(r[0] == cols[1]);
    }
}

proof fn lemma_highlight_step(line: Seq<char>, plen: int, cols: Seq<int>, last: int)
    requires
        separate_spans(line, plen, cols),
        cols.len() > 0,
        0 <= last <= cols[0],
    ensures
        highlight_from(line, plen, cols, last) == line.subrange(last, cols[0]) + bold_on() + line.subrange(
            cols[0],
            cols[0] + plen,
        ) + style_reset() + highlight_from(line, plen, cols.drop_first(), cols[0] + plen),
{
    if cols[0] == last {
        assert(line.subrange(last, cols[0]) =~= Seq::<char>::empty());
        assert(Seq::<char>::empty() + bold_on() =~= bold_on());
    }
}

proof fn lemma_highlight_len(line: Seq<char>, plen: int, cols: Seq<int>, last: int)
    requires
        separate_spans(line, plen, cols),
        0 <= last <= line.len(),
        cols.len() > 0 ==> last <= cols[0],
    ensures
        highlight_from(line, plen, cols, last).len() == line.len() - last + 8 * cols.len(),
    decreases cols.len(),
{
    if cols.len() > 0 {
        lemma_spans_rest(line, plen, cols);
        lemma_highlight_step(line, plen, cols, last);
        lemma_highlight_len(line, plen, cols.drop_first(), cols[0] + plen);
    }
}

#[verifier::rlimit(100)]
#[verifier::spinoff_prover]
proof fn lemma_highlight_at(line: Seq<char>, plen: int, cols: Seq<int>, last: int, k: int)
    requires
        separate_spans(line, plen, cols),
        0 <= k < cols.len(),
        0 <= last <= cols[0],
    ensures
        last <= cols[k],
        ({
            let out = highlight_from(line, plen, cols, last);
            let at = cols[k] - last + 8 * k;
            &&& out.subrange(at, at + 4) == bold_on()
            &&& out.subrange(at + 4, at + 4 + plen) == line.subrange(cols[k], cols[k] + plen)
            &&& out.subrange(at + 4 + plen, at + 8 + plen) == style_reset()
        }),
    decreases k,
{
    let c = cols[0];
    let pre = line.subrange(last, c);
    let mid = line.subrange(c, c + plen);
    let rest_cols = cols.drop_first();
    let rest = highlight_from(line, plen, rest_cols, c + plen);
    lemma_spans_rest(line, plen, cols);
    lemma_highlight_step(line, plen, cols, last);
    if k == 0 {
        lemma_marked_head(pre, mid, rest);
    } else {
        lemma_highlight_at(line, plen, rest_cols, c + plen, k - 1);
        lemma_highlight_len(line, plen, rest_cols, c + plen);
        let head = pre + bold_on() + mid + style_reset();
        let at2 = rest_cols[k - 1] - (c + plen) + 8 * (k - 1);
        assert(rest_cols[k - 1] == cols[k]);
        assert(cols[k] + plen <= line.len());
        assert(at2 >= 0);
        assert(cols[k] - last + 8 * k == head.len() + at2);
        lemma_concat_window(head, rest, at2, 4);
        lemma_concat_window(head, rest, at2 + 4, plen);
        lemma_concat_window(head, rest, at2 + 4 + plen, 4);
    }
}

/// Highlighting marks every match: with the matches of a line listed in
/// order and none overlapping the one before, the highlighted line is the
/// line with each match wrapped in bold, so it is eight characters longer per
/// match, and match `k`, moved right by the codes before it, is there in bold.
pub proof fn lemma_highlight_marks_every_match(line: Seq<char>, plen: int, cols: Seq<int>)
    requires
        separate_spans(line, plen, cols),
    ensures
        highlighted(line, plen, cols).len() == line.len() + 8 * cols.len(),
        forall|k: int| 0 <= k < cols.len() ==> {
            let out = highlighted(line, plen, cols);
            let at = #[trigger] cols[k] + 8 * k;
            &&& out.subrange(at, at + 4) == bold_on()
            &&& out.subrange(at + 4, at + 4 + plen) == line.subrange(cols[k], cols[k] + plen)
            &&& out.subrange(at + 4 + plen, at + 8 + plen) == style_reset()
        },
{
    if cols.len() > 0 {
        lemma_highlight_len(line, plen, cols, 0);
        assert forall|k: int| 0 <= k < cols.len() implies {
            let out = highlighted(line, plen, cols);
            let at = #[trigger] cols[k] + 8 * k;
            &&& out.subrange(at, at + 4) == bold_on()
            &&& out.subrange(at + 4, at + 4 + plen) == line.subrange(cols[k], cols[k] + plen)
            &&& out.subrange(at + 4 + plen, at + 8 + plen) == style_reset()
        } by {
            lemma_highlight_at(line, plen, cols, 0, k);
        }
    }
}

/// The matches at `cols` that highlighting takes, left to right: each that
/// starts at or after the end of the last one taken (at first, `last`).
pub open spec fn greedy_matches(cols: Seq<int>, plen: int, last: int) -> Seq<int>
    decreases cols.len(),
{
    if cols.len() == 0 {
        Seq::empty()
    } else if cols[0] < last {
        greedy_matches(cols.drop_first(), plen, last)
    } else {
        seq![cols[0]] + greedy_matches(cols.drop_first(), plen, cols[0] + plen)
    }
}

/// Whether every place in `cols` holds `plen` characters of `line`.
pub open spec fn spans_in_line(line: Seq<char>, plen: int, cols: Seq<int>) -> bool {
    &&& plen >= 0
    &&& forall|j: int| 0 <= j < cols.len() ==> 0 <= #[trigger] cols[j] && cols[j] + plen <= line.len()
}

proof fn lemma_greedy_separate(line: Seq<char>, plen: int, cols: Seq<int>, last: int)
    requires
        spans_in_line(line, plen, cols),
    ensures
        separate_spans(line, plen, greedy_matches(cols, plen, last)),
        greedy_matches(cols, plen, last).len() > 0 ==> last <= greedy_matches(cols, plen, last)[0],
    decreases cols.len(),
{
    if cols.len() > 0 {
        let r = cols.drop_first();
        assert(spans_in_line(line, plen, r)) by {
            assert forall|j: int| 0 <= j < r.len() implies 0 <= #[trigger] r[j] && r[j] + plen <= line.len() by {
                assert(r[j] == cols[j + 1]);
            }
        }
        if cols[0] < last {
            lemma_greedy_separate(line, plen, r, last);
        } else {
            let c = cols[0];
            lemma_greedy_separate(line, plen, r, c + plen);
            let g = greedy_matches(r, plen, c + plen);
            let all = seq![c] + g;
            assert forall|j: int| 0 <= j < all.len() implies 0 <= #[trigger] all[j] && all[j] + plen <= line.len() by {
                if j > 0 {
                    assert(all[j] == g[j - 1]);
                }
            }
            assert forall|j: int| 0 < j < all.len() implies all[j - 1] + plen <= #[trigger] all[j] by {
                assert(all[j] == g[j - 1]);
                if j > 1 {
                    assert(all[j - 1] == g[j - 2]);
                }
            }
        }
    }
}

proof fn lemma_highlight_takes_greedy(line: Seq<char>, plen: int, cols: Seq<int>, last: int)
    ensures
        highlight_from(line, plen, cols, last) == highlight_from(line, plen, greedy_matches(cols, plen, last), last),
    decreases cols.len(),
{
    if cols.len() > 0 {
        let r = cols.drop_first();
        if cols[0] < last {
            lemma_highlight_takes_greedy(line, plen, r, last);
        } else {
            let c = cols[0];
            lemma_highlight_takes_greedy(line, plen, r, c + plen);
            let g = greedy_matches(r, plen, c + plen);
            let all = seq![c] + g;
            assert(all[0] == c);
            assert(all.drop_first() =~= g);
        }
    }
}

/// Highlighting takes the matches greedily: every match that starts at or
/// after the end of the last one highlighted is highlighted, and only those,
/// each wrapped in bold in place; the line grows by eight characters per
/// match taken.
pub proof fn lemma_highlight_takes_matches_greedily(line: Seq<char>, plen: int, cols: Seq<int>)
    requires
        spans_in_line(line, plen, cols),
    ensures
        highlighted(line, plen, cols).len() == line.len() + 8 * greedy_matches(cols, plen, 0).len(),
        forall|k: int| 0 <= k < greedy_matches(cols, plen, 0).len() ==> {
            let out = highlighted(line, plen, cols);
            let g = greedy_matches(cols, plen, 0);
            let at = #[trigger] greedy_matches(cols, plen, 0)[k] + 8 * k;
            &&& out.subrange(at, at + 4) == bold_on()
            &&& out.subrange(at + 4, at + 4 + plen) == line.subrange(g[k], g[k] + plen)
            &&& out.subrange(at + 4 + plen, at + 8 + plen) == style_reset()
        },
{
    let g = greedy_matches(cols, plen, 0);
    lemma_greedy_separate(line, plen, cols, 0);
    if cols.len() > 0 {
        lemma_highlight_takes_greedy(line, plen, cols, 0);
        if g.len() == 0 {
            assert(highlight_from(line, plen, g, 0) == line.subrange(0, line.len() as int));
            assert(line.subrange(0, line.len() as int) =~= line);
        }
        assert(highlighted(line, plen, g) == highlighted(line, plen, cols)) by {
            if g.len() == 0 {
                assert(line.subrange(0, line.len() as int) =~= line);
            }
        }
    } else {
        assert(g =~= Seq::<int>::empty());
    }
    lemma_highlight_marks_every_match(line, plen, g);
}

proof fn lemma_highlight_strips(line: Seq<char>, plen: int, cols: Seq<int>, last: int)
    requires
        no_escape(line),
        spans_in_line(line, plen, cols),
        0 <= last <= line.len(),
    ensures
        closed(highlight_from(line, plen, cols, last)),
        strip_ansi(highlight_from(line, plen, cols, last)) == line.subrange(last, line.len() as int),
    decreases cols.len(),
{
    let b = bold_on();
    let z = style_reset();
    assert(b[0] == '\x1b' && b[1] == '[' && b[2] == '1' && b.last() == 'm');
    assert(z[0] == '\x1b' && z[1] == '[' && z[2] == '0' && z.last() == 'm');
    lemma_code_closed(b);
    lemma_code_closed(z);
    if cols.len() == 0 {
        let t = if last < line.len() { line.subrange(last, line.len() as int) } else { Seq::<char>::empty() };
        lemma_plain_closed(t);
        assert(t =~= line.subrange(last, line.len() as int));
    } else {
        let r = cols.drop_first();
        assert(spans_in_line(line, plen, r)) by {
            assert forall|j: int| 0 <= j < r.len() implies 0 <= #[trigger] r[j] && r[j] + plen <= line.len() by {
                assert(r[j] == cols[j + 1]);
            }
        }
        let c = cols[0];
        if c < last {
            lemma_highlight_strips(line, plen, r, last);
        } else {
            lemma_highlight_strips(line, plen, r, c + plen);
            let pre = if c > last { line.subrange(last, c) } else { Seq::<char>::empty() };
            let mid = line.subrange(c, c + plen);
            let rest = highlight_from(line, plen, r, c + plen);
            lemma_plain_closed(pre);
            lemma_plain_closed(mid);
            lemma_closed_concat(pre, b);
            lemma_closed_concat(pre + b, mid);
            lemma_closed_concat(pre + b + mid, z);
            lemma_closed_concat(pre + b + mid + z, rest);
            assert(pre + Seq::<char>::empty() + mid + Seq::<char>::empty() + line.subrange(c + plen, line.len() as int)
                =~= line.subrange(last, line.len() as int));
        }
    }
}

/// Highlighting only adds style codes: for a line without escape characters,
/// stripping them from the highlighted line gives the line back, whatever
/// matches were listed (overlapping ones included).
pub proof fn lemma_highlight_keeps_text(line: Seq<char>, plen: int, cols: Seq<int>)
    requires
        no_escape(line),
        spans_in_line(line, plen, cols),
    ensures
        strip_ansi(highlighted(line, plen, cols)) == line,
{
    assert(line.subrange(0, line.len() as int) =~= line);
    if cols.len() > 0 {
        lemma_highlight_strips(line, plen, cols, 0);
    } else {
        lemma_plain_closed(line);
    }
}

/// What a search shows on a line: the line's matches are taken greedily
/// left to right and each taken match is wrapped in bold in place, so the
/// line grows by eight characters per match taken; stripping the codes from
/// a line without escape characters gives the line back.
pub proof fn lemma_search_highlights_line(lines: Seq<Seq<char>>, pat: Seq<char>, li: int)
    requires
        0 <= li < lines.len(),
    ensures
        ({
            let cols = columns_on_line(all_matches(lines, pat), li);
            let g = greedy_matches(cols, pat.len() as int, 0);
            let out = highlighted(lines[li], pat.len() as int, cols);
            &&& out.len() == lines[li].len() + 8 * g.len()
            &&& forall|k: int| 0 <= k < g.len() ==> {
                let at = #[trigger] g[k] + 8 * k;
                &&& out.subrange(at, at + 4) == bold_on()
                &&& out.subrange(at + 4, at + 4 + pat.len()) == lines[li].subrange(g[k], g[k] + pat.len())
                &&& out.subrange(at + 4 + pat.len(), at + 8 + pat.len()) == style_reset()
            }
            &&& no_escape(lines[li]) ==> strip_ansi(out) == lines[li]
        }),
{
    let ms = all_matches(lines, pat);
    let cols = columns_on_line(ms, li);
    lemma_columns_in_range(lines, pat, ms, li);
    assert(spans_in_line(lines[li], pat.len() as int, cols));
    lemma_highlight_takes_matches_greedily(lines[li], pat.len() as int, cols);
    if no_escape(lines[li]) {
        lemma_highlight_keeps_text(lines[li], pat.len() as int, cols);
    }
}

} // verus!
