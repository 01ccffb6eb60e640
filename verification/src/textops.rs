//! Character-sequence operations used by the renderer: display widths,
//! whitespace handling, ANSI stripping and small predicates on rendered text.
use vstd::prelude::*;
use crate::text::{push_chars};

verus! {

/// `n`, capped at `usize::MAX`.
pub open spec fn sat(n: int) -> nat {
    if n > usize::MAX { usize::MAX as nat } else if n < 0 { 0 } else { n as nat }
}

/// Whether `c` has the Unicode `White_Space` property (as `char::is_whitespace`).
pub open spec fn is_ws(c: char) -> bool {
    let u = c as u32;
    (9 <= u && u <= 13) || u == 32 || u == 0x85 || u == 0xA0 || u == 0x1680 || (0x2000 <= u
        && u <= 0x200A) || u == 0x2028 || u == 0x2029 || u == 0x202F || u == 0x205F || u == 0x3000
}

/// Whether `c` has the Unicode `White_Space` property.
pub fn is_whitespace(c: char) -> (r: bool)
    ensures
        r == is_ws(c),
{
    let u = c as u32;
    (9 <= u && u <= 13) || u == 32 || u == 0x85 || u == 0xA0 || u == 0x1680 || (0x2000 <= u
        && u <= 0x200A) || u == 0x2028 || u == 0x2029 || u == 0x202F || u == 0x205F || u == 0x3000
}

/// Terminal display width of one character: zero for soft hyphen and
/// zero-width space, two for East Asian wide and emoji ranges, one otherwise.
pub open spec fn char_width(c: char) -> nat {
    let u = c as u32;
    if u == 0xAD || u == 0x200B {
        0
    } else if u < 0x80 {
        1
    } else if (0x1100 <= u && u <= 0x115F) || (0x2329 <= u && u <= 0x232A) || (0x2E80 <= u && u
        <= 0xA4CF) || (0xAC00 <= u && u <= 0xD7A3) || (0xF900 <= u && u <= 0xFAFF) || (0xFE10 <= u
        && u <= 0xFE19) || (0xFE30 <= u && u <= 0xFE6F) || (0xFF00 <= u && u <= 0xFF60) || (0xFFE0
        <= u && u <= 0xFFE6) || (0x1F300 <= u && u <= 0x1FAFF) || (0x20000 <= u && u <= 0x3FFFD) {
        2
    } else {
        1
    }
}

/// Terminal display width of a character.
pub fn char_display_width(c: char) -> (r: usize)
    ensures
        r == char_width(c),
{
    let u = c as u32;
    if u == 0xAD || u == 0x200B {
        0
    } else if u < 0x80 {
        1
    } else if (0x1100 <= u && u <= 0x115F) || (0x2329 <= u && u <= 0x232A) || (0x2E80 <= u && u
        <= 0xA4CF) || (0xAC00 <= u && u <= 0xD7A3) || (0xF900 <= u && u <= 0xFAFF) || (0xFE10 <= u
        && u <= 0xFE19) || (0xFE30 <= u && u <= 0xFE6F) || (0xFF00 <= u && u <= 0xFF60) || (0xFFE0
        <= u && u <= 0xFFE6) || (0x1F300 <= u && u <= 0x1FAFF) || (0x20000 <= u && u <= 0x3FFFD) {
        2
    } else {
        1
    }
}

/// Terminal display width of a character sequence: the sum of its
/// characters' widths.
pub open spec fn display_width(s: Seq<char>) -> nat
    decreases s.len(),
{
    if s.len() == 0 {
        0
    } else {
        display_width(s.drop_last()) + char_width(s.last())
    }
}

/// Display width, capped at `usize::MAX`.
pub open spec fn width_of(s: Seq<char>) -> nat {
    sat(display_width(s) as int)
}

/// Computes the display width of `v` (capped at `usize::MAX`).
pub fn display_width_of(v: &Vec<char>) -> (r: usize)
    ensures
        r == width_of(v@),
{
    let mut total: usize = 0;
    let mut i: usize = 0;
    while i < v.len()
        invariant
            i <= v.len(),
            total == width_of(v@.take(i as int)),
        decreases v.len() - i,
    {
        let w = char_display_width(v[i]);
        proof {
            assert(v@.take(i + 1).drop_last() == v@.take(i as int));
            assert(v@.take(i + 1).last() == v@[i as int]);
        }
        total = total.saturating_add(w);
        i = i + 1;
    }
    assert(v@.take(v.len() as int) == v@);
    total
}

/// `s` without its trailing whitespace.
pub open spec fn trim_end(s: Seq<char>) -> Seq<char>
    decreases s.len(),
{
    if s.len() > 0 && is_ws(s.last()) {
        trim_end(s.drop_last())
    } else {
        s
    }
}

/// `s` without its leading whitespace.
pub open spec fn trim_start(s: Seq<char>) -> Seq<char>
    decreases s.len(),
{
    if s.len() > 0 && is_ws(s[0]) {
        trim_start(s.drop_first())
    } else {
        s
    }
}

/// `s` without leading and trailing whitespace.
pub open spec fn trim(s: Seq<char>) -> Seq<char> {
    trim_start(trim_end(s))
}

/// The length of `s` without its trailing whitespace.
pub fn trim_end_len(v: &Vec<char>) -> (r: usize)
    ensures
        r <= v.len(),
        v@.take(r as int) == trim_end(v@),
{
    let mut n = v.len();
    assert(v@.take(n as int) == v@);
    while n > 0 && is_whitespace(v[n - 1])
        invariant
            n <= v.len(),
            trim_end(v@.take(n as int)) == trim_end(v@),
        decreases n,
    {
        assert(v@.take(n as int).drop_last() == v@.take(n - 1));
        n = n - 1;
    }
    n
}

/// The number of leading whitespace characters of `s`.
pub fn trim_start_len(v: &Vec<char>) -> (r: usize)
    ensures
        r <= v.len(),
        v@.skip(r as int) == trim_start(v@),
{
    let mut n: usize = 0;
    assert(v@.skip(0) == v@);
    while n < v.len() && is_whitespace(v[n])
        invariant
            n <= v.len(),
            trim_start(v@.skip(n as int)) == trim_start(v@),
        decreases v.len() - n,
    {
        assert(v@.skip(n as int).drop_first() == v@.skip(n + 1));
        n = n + 1;
    }
    n
}

/// The chars of `v` in `[a, b)`.
pub fn slice_chars(v: &Vec<char>, a: usize, b: usize) -> (r: Vec<char>)
    requires
        a <= b <= v.len(),
    ensures
        r@ == v@.subrange(a as int, b as int),
{
    let mut r: Vec<char> = Vec::new();
    let mut i = a;
    while i < b
        invariant
            a <= i <= b <= v.len(),
            r@ == v@.subrange(a as int, i as int),
        decreases b - i,
    {
        r.push(v[i]);
        assert(v@.subrange(a as int, i + 1) == v@.subrange(a as int, i as int).push(v@[i as int]));
        i = i + 1;
    }
    r
}

/// `v` without leading and trailing whitespace.
pub fn trim_chars(v: &Vec<char>) -> (r: Vec<char>)
    ensures
        r@ == trim(v@),
{
    let e = trim_end_len(v);
    let t = slice_chars(v, 0, e);
    assert(t@ == v@.take(e as int));
    let s = trim_start_len(&t);
    slice_chars(&t, s, t.len())
}

/// The words of `s` from index `i`, given the word `cur` in progress and the
/// words `acc` already complete.
pub open spec fn split_ws_from(s: Seq<char>, i: int, cur: Seq<char>, acc: Seq<Seq<char>>) -> Seq<Seq<char>>
    decreases s.len() - i,
{
    if i < 0 || i >= s.len() {
        if cur.len() > 0 { acc.push(cur) } else { acc }
    } else if is_ws(s[i]) {
        split_ws_from(s, i + 1, Seq::empty(), if cur.len() > 0 { acc.push(cur) } else { acc })
    } else {
        split_ws_from(s, i + 1, cur.push(s[i]), acc)
    }
}

/// The maximal runs of non-whitespace characters of `s`, in order (as
/// `str::split_whitespace`).
pub open spec fn split_whitespace(s: Seq<char>) -> Seq<Seq<char>> {
    split_ws_from(s, 0, Seq::empty(), Seq::empty())
}

/// Splits `v` into its whitespace-separated words.
pub fn split_whitespace_of(v: &Vec<char>) -> (r: Vec<Vec<char>>)
    ensures
        r@.map_values(|w: Vec<char>| w@) == split_whitespace(v@),
{
    let mut acc: Vec<Vec<char>> = Vec::new();
    let mut cur: Vec<char> = Vec::new();
    let mut i: usize = 0;
    assert(cur@ =~= Seq::<char>::empty());
    assert(acc@.map_values(|w: Vec<char>| w@) =~= Seq::<Seq<char>>::empty());
    while i < v.len()
        invariant
            i <= v.len(),
            split_ws_from(v@, i as int, cur@, acc@.map_values(|w: Vec<char>| w@)) == split_whitespace(v@),
        decreases v.len() - i,
    {
        let c = v[i];
        if is_whitespace(c) {
            if cur.len() > 0 {
                let ghost old_acc = acc@.map_values(|w: Vec<char>| w@);
                acc.push(cur);
                assert(acc@.map_values(|w: Vec<char>| w@) =~= old_acc.push(cur@));
                cur = Vec::new();
            } else {
                assert(cur@ =~= Seq::<char>::empty());
            }
        } else {
            cur.push(c);
        }
        i = i + 1;
    }
    if cur.len() > 0 {
        let ghost old_acc = acc@.map_values(|w: Vec<char>| w@);
        acc.push(cur);
        assert(acc@.map_values(|w: Vec<char>| w@) =~= old_acc.push(cur@));
    }
    acc
}

/// The index just past the end of the CSI sequence whose parameters start
/// at `j`: past its first final byte (`@` to `~`), or the end of `s`.
pub open spec fn csi_end(s: Seq<char>, j: int) -> int
    decreases s.len() - j,
{
    if j < 0 || j >= s.len() {
        s.len() as int
    } else if '@' <= s[j] && s[j] <= '~' {
        j + 1
    } else {
        csi_end(s, j + 1)
    }
}

/// The visible characters of `s` from index `i`, appended to `acc`.
pub open spec fn strip_from(s: Seq<char>, i: int, acc: Seq<char>) -> Seq<char>
    decreases s.len() - i,
{
    if i < 0 || i >= s.len() {
        acc
    } else if s[i] == '\x1b' && i + 1 < s.len() && s[i + 1] == '[' {
        if i < csi_end(s, i + 2) && csi_end(s, i + 2) <= s.len() {
            strip_from(s, csi_end(s, i + 2), acc)
        } else {
            acc
        }
    } else {
        strip_from(s, i + 1, acc.push(s[i]))
    }
}

/// `s` without its ANSI CSI escape sequences.
pub open spec fn strip_ansi(s: Seq<char>) -> Seq<char> {
    strip_from(s, 0, Seq::empty())
}

pub proof fn lemma_csi_end_bounds(s: Seq<char>, j: int)
    requires
        0 <= j,
    ensures
        j < csi_end(s, j) || (j >= s.len() && csi_end(s, j) == s.len()),
        csi_end(s, j) <= s.len() || j > s.len(),
    decreases s.len() - j,
{
    if j < s.len() && !('@' <= s[j] && s[j] <= '~') {
        lemma_csi_end_bounds(s, j + 1);
    }
}

/// Removes the ANSI CSI escape sequences of `v`.
pub fn strip_ansi_of(v: &Vec<char>) -> (r: Vec<char>)
    ensures
        r@ == strip_ansi(v@),
{
    let mut out: Vec<char> = Vec::new();
    let mut i: usize = 0;
    while i < v.len()
        invariant
            i <= v.len(),
            strip_from(v@, i as int, out@) == strip_ansi(v@),
        decreases v.len() - i,
    {
        if v[i] == '\x1b' && i + 1 < v.len() && v[i + 1] == '[' {
            let mut j = i + 2;
            proof { lemma_csi_end_bounds(v@, (i + 2) as int); }
            while j < v.len() && !('@' <= v[j] && v[j] <= '~')
                invariant
                    i + 2 <= j <= v.len(),
                    csi_end(v@, j as int) == csi_end(v@, (i + 2) as int),
                decreases v.len() - j,
            {
                j = j + 1;
            }
            if j < v.len() {
                j = j + 1;
            }
            i = j;
        } else {
            out.push(v[i]);
            i = i + 1;
        }
    }
    out
}

/// Whether `s` ends with `c`.
pub open spec fn ends_with(s: Seq<char>, c: char) -> bool {
    s.len() > 0 && s.last() == c
}

/// Whether `v` ends with `c`.
pub fn ends_with_char(v: &Vec<char>, c: char) -> (r: bool)
    ensures
        r == ends_with(v@, c),
{
    v.len() > 0 && v[v.len() - 1] == c
}

/// Whether `s` starts with `c`.
pub open spec fn starts_with(s: Seq<char>, c: char) -> bool {
    s.len() > 0 && s[0] == c
}

/// Whether a token should be separated from the previous one by a space:
/// closing punctuation sticks to what precedes it.
pub open spec fn needs_space_before(token: Seq<char>) -> bool {
    !(token.len() > 0 && (token[0] == ':' || token[0] == ';' || token[0] == ',' || token[0] == '.'
        || token[0] == ')' || token[0] == ']' || token[0] == '}' || token[0] == '%'))
}

/// Whether a token should be separated from the previous one by a space.
pub fn needs_space_before_token(token: &Vec<char>) -> (r: bool)
    ensures
        r == needs_space_before(token@),
{
    !(token.len() > 0 && (token[0] == ':' || token[0] == ';' || token[0] == ',' || token[0] == '.'
        || token[0] == ')' || token[0] == ']' || token[0] == '}' || token[0] == '%'))
}

/// Whether the visible text of `s` ends with a space.
pub open spec fn ends_with_visible_space(s: Seq<char>) -> bool {
    ends_with(strip_ansi(s), ' ')
}

/// Whether the visible text of `v` ends with a space.
pub fn ends_with_visible_space_of(v: &Vec<char>) -> (r: bool)
    ensures
        r == ends_with_visible_space(v@),
{
    let s = strip_ansi_of(v);
    ends_with_char(&s, ' ')
}

/// The index of the last `c` in `s`, if any.
pub open spec fn rfind(s: Seq<char>, c: char) -> Option<int>
    decreases s.len(),
{
    if s.len() == 0 {
        None
    } else if s.last() == c {
        Some(s.len() - 1)
    } else {
        rfind(s.drop_last(), c)
    }
}

fn rfind_char(v: &Vec<char>, c: char) -> (r: Option<usize>)
    ensures
        r matches Some(i) ==> rfind(v@, c) == Some(i as int) && i < v.len(),
        r is None ==> rfind(v@, c) is None,
{
    let mut n = v.len();
    assert(v@.take(n as int) == v@);
    while n > 0
        invariant
            n <= v.len(),
            rfind(v@, c) == rfind(v@.take(n as int), c),
        decreases n,
    {
        if v[n - 1] == c {
            return Some(n - 1);
        }
        assert(v@.take(n as int).drop_last() == v@.take(n - 1));
        n = n - 1;
    }
    None
}

/// Whether the visible text of `s`, without trailing whitespace, ends with an
/// opening HTML tag (not a closing tag, comment, doctype or processing
/// instruction).
pub open spec fn ends_with_open_html_tag(s: Seq<char>) -> bool {
    let t = trim_end(strip_ansi(s));
    if !ends_with(t, '>') {
        false
    } else {
        match (rfind(t, '<'), rfind(t, '>')) {
            (Some(lt), Some(gt)) => lt < gt && !(lt + 1 <= gt && (t[lt + 1] == '/' || t[lt + 1]
                == '!' || t[lt + 1] == '?')),
            _ => false,
        }
    }
}

/// Whether the visible text of `v` ends with an opening HTML tag.
pub fn ends_with_open_html_tag_of(v: &Vec<char>) -> (r: bool)
    ensures
        r == ends_with_open_html_tag(v@),
{
    let cleaned = strip_ansi_of(v);
    let e = trim_end_len(&cleaned);
    let t = slice_chars(&cleaned, 0, e);
    assert(t@ == cleaned@.take(e as int));
    if !ends_with_char(&t, '>') {
        return false;
    }
    let lt = match rfind_char(&t, '<') {
        Some(i) => i,
        None => return false,
    };
    let gt = match rfind_char(&t, '>') {
        Some(i) => i,
        None => return false,
    };
    if lt >= gt {
        return false;
    }
    !(t[lt + 1] == '/' || t[lt + 1] == '!' || t[lt + 1] == '?')
}

/// Whether `s`, trimmed, consists only of quote bars (with whitespace between).
pub open spec fn quote_bars_only(s: Seq<char>) -> bool
    decreases s.len(),
{
    if s.len() == 0 {
        true
    } else if s[0] == '│' {
        proof {
            lemma_trim_start_len(s.drop_first());
        }
        quote_bars_only(trim_start(s.drop_first()))
    } else {
        false
    }
}

/// Whether `s` is a bare quote prefix: non-empty after trimming and made only
/// of quote bars.
pub open spec fn is_quote_prefix_only(s: Seq<char>) -> bool {
    let t = trim(s);
    t.len() > 0 && t[0] == '│' && quote_bars_only(t)
}

pub proof fn lemma_trim_start_len(s: Seq<char>)
    ensures
        trim_start(s).len() <= s.len(),
    decreases s.len(),
{
    if s.len() > 0 && is_ws(s[0]) {
        lemma_trim_start_len(s.drop_first());
    }
}

/// Whether `v` is a bare quote prefix.
pub fn is_quote_prefix_only_of(v: &Vec<char>) -> (r: bool)
    ensures
        r == is_quote_prefix_only(v@),
{
    let t = trim_chars(v);
    if t.len() == 0 || t[0] != '│' {
        return false;
    }
    let mut s = t;
    while s.len() > 0 && s[0] == '│'
        invariant
            quote_bars_only(s@) == quote_bars_only(trim(v@)),
        decreases s.len(),
    {
        let rest = slice_chars(&s, 1, s.len());
        assert(rest@ == s@.drop_first());
        let k = trim_start_len(&rest);
        let next = slice_chars(&rest, k, rest.len());
        assert(next@ == rest@.skip(k as int));
        s = next;
    }
    s.len() == 0
}

/// Whether the visible text of `s`, after leading whitespace, starts with a quote bar.
pub open spec fn is_quote_line(s: Seq<char>) -> bool {
    starts_with(trim_start(strip_ansi(s)), '│')
}

/// Whether `v` is a quoted line.
pub fn is_quote_line_of(v: &Vec<char>) -> (r: bool)
    ensures
        r == is_quote_line(v@),
{
    let cleaned = strip_ansi_of(v);
    let k = trim_start_len(&cleaned);
    k < cleaned.len() && cleaned[k] == '│'
}

/// `s` with a combining long stroke overlay after every character except
/// line breaks.
pub open spec fn strike_through(s: Seq<char>) -> Seq<char>
    decreases s.len(),
{
    if s.len() == 0 {
        Seq::empty()
    } else if s.last() == '\n' || s.last() == '\r' {
        strike_through(s.drop_last()).push(s.last())
    } else {
        strike_through(s.drop_last()).push(s.last()).push('\u{0336}')
    }
}

/// Overlays a combining long stroke on every character of `v` but line breaks.
pub fn apply_strikethrough_fallback(v: &Vec<char>) -> (r: Vec<char>)
    ensures
        r@ == strike_through(v@),
{
    let mut out: Vec<char> = Vec::new();
    let mut i: usize = 0;
    while i < v.len()
        invariant
            i <= v.len(),
            out@ == strike_through(v@.take(i as int)),
        decreases v.len() - i,
    {
        let ch = v[i];
        assert(v@.take(i + 1).drop_last() == v@.take(i as int));
        out.push(ch);
        if ch != '\n' && ch != '\r' {
            out.push('\u{0336}');
        }
        i = i + 1;
    }
    assert(v@.take(v.len() as int) == v@);
    out
}

/// The longest run of backticks in `s` ending at or before its end, given
/// the run `run` in progress and the longest run `best` so far.
pub open spec fn backtick_run_from(s: Seq<char>, i: int, run: nat, best: nat) -> nat
    decreases s.len() - i,
{
    if i < 0 || i >= s.len() {
        best
    } else if s[i] == '`' {
        backtick_run_from(s, i + 1, run + 1, if run + 1 > best { run + 1 } else { best })
    } else {
        backtick_run_from(s, i + 1, 0, best)
    }
}

/// The length of the longest run of backticks in `s`.
pub open spec fn longest_backtick_run(s: Seq<char>) -> nat {
    backtick_run_from(s, 0, 0, 0)
}

/// `n` copies of `c`.
pub open spec fn repeat(c: char, n: nat) -> Seq<char> {
    Seq::new(n, |i: int| c)
}

/// Appends `n` copies of `c` to `v`.
pub fn push_repeat(v: &mut Vec<char>, c: char, n: usize)
    ensures
        final(v)@ == old(v)@ + repeat(c, n as nat),
{
    let mut i: usize = 0;
    while i < n
        invariant
            i <= n,
            v@ == old(v)@ + repeat(c, i as nat),
        decreases n - i,
    {
        v.push(c);
        assert(repeat(c, (i + 1) as nat) == repeat(c, i as nat).push(c));
        i = i + 1;
    }
}

proof fn lemma_run_bound(s: Seq<char>, i: int, run: nat, best: nat)
    requires
        0 <= i <= s.len(),
        run <= i,
        best <= i,
    ensures
        backtick_run_from(s, i, run, best) <= s.len(),
    decreases s.len() - i,
{
    if i < s.len() {
        if s[i] == '`' {
            lemma_run_bound(s, i + 1, run + 1, if run + 1 > best { run + 1 } else { best });
        } else {
            lemma_run_bound(s, i + 1, 0, best);
        }
    }
}

/// The inline code delimiter for `code`: one backtick more than its longest
/// run of backticks.
pub fn inline_code_delimiter(code: &Vec<char>) -> (r: Vec<char>)
    ensures
        r@ == repeat('`', sat(longest_backtick_run(code@) + 1int)),
{
    let mut max_run: usize = 0;
    let mut run: usize = 0;
    let mut i: usize = 0;
    while i < code.len()
        invariant
            i <= code.len(),
            run <= i,
            max_run <= i,
            backtick_run_from(code@, i as int, run as nat, max_run as nat) == longest_backtick_run(code@),
        decreases code.len() - i,
    {
        if code[i] == '`' {
            run = run + 1;
            if run > max_run {
                max_run = run;
            }
        } else {
            run = 0;
        }
        i = i + 1;
    }
    proof { lemma_run_bound(code@, 0, 0, 0); }
    let mut r: Vec<char> = Vec::new();
    push_repeat(&mut r, '`', max_run.saturating_add(1));
    r
}

/// The display width of the visible text of `s` without trailing whitespace.
pub open spec fn visible_width(s: Seq<char>) -> nat {
    width_of(trim_end(strip_ansi(s)))
}

/// The display width of the visible text of `v` without trailing whitespace.
pub fn visible_display_width_without_ansi(v: &Vec<char>) -> (r: usize)
    ensures
        r == visible_width(v@),
{
    let cleaned = strip_ansi_of(v);
    let e = trim_end_len(&cleaned);
    let t = slice_chars(&cleaned, 0, e);
    assert(t@ == cleaned@.take(e as int));
    display_width_of(&t)
}

} // verus!
