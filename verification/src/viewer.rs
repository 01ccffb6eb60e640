//! The pager program's decisions: render width, input source and labels,
//! binary detection, key bindings, the search prompt, and the footer and
//! help screens.
use vstd::prelude::*;
use crate::parsing::{opt_view, parse_markdown, parse_events, event_views, EventView};
use crate::cmark::cmark_events;
use crate::rendering::Renderer;
use crate::render_model::{RenderState, initial_state, rendered, rendered_lines};
use vstd::utf8::encode_utf8;
use crate::pager::{Pager, PagerConfig, scroll_to_show, next_match_index, all_matches, search_status, start_index,
    more_indicator, views, max_scroll, highlighted, columns_on_line};
use crate::text::{chars_of, string_of, push_str, push_chars};
use vstd::utf8::{valid_utf8, decode_utf8};

verus! {

/// The process exit code after an interrupt.
pub open spec fn interrupted_code() -> i32 {
    130
}

/// The render width for a terminal `cols` columns wide: four columns of
/// margin, and never less than 40.
pub open spec fn default_width(cols: nat) -> nat {
    let w: nat = if cols > 4 { (cols - 4) as nat } else { 0 };
    if w > 40 { w } else { 40 }
}

/// The default render width for a terminal `cols` columns wide.
pub fn default_width_for_cols(cols: usize) -> (r: usize)
    ensures
        r == default_width(cols as nat),
{
    let w = cols.saturating_sub(4);
    if w > 40 { w } else { 40 }
}

/// The exit code for a run ended by an interrupt.
pub fn interrupted_exit_code() -> (r: i32)
    ensures
        r == interrupted_code(),
{
    130
}

/// A control byte that text files do not hold: below tab, or between
/// carriage return and space.
pub open spec fn is_suspicious(b: u8) -> bool {
    b < 0x09 || (0x0D < b && b < 0x20)
}

/// The number of suspicious bytes in `s`.
pub open spec fn suspicious_count(s: Seq<u8>) -> nat
    decreases s.len(),
{
    if s.len() == 0 {
        0
    } else {
        suspicious_count(s.drop_last()) + if is_suspicious(s.last()) { 1nat } else { 0nat }
    }
}

/// Content is binary when it holds a zero byte, or when more than ten percent
/// (in whole percent, rounded down) of its bytes are suspicious.
pub open spec fn is_binary(s: Seq<u8>) -> bool {
    s.len() > 0 && (s.contains(0u8) || suspicious_count(s) * 100 / s.len() > 10)
}

proof fn lemma_suspicious_count_bound(s: Seq<u8>)
    ensures
        suspicious_count(s) <= s.len(),
    decreases s.len(),
{
    if s.len() > 0 {
        lemma_suspicious_count_bound(s.drop_last());
    }
}

/// Whether `bytes` look like binary content rather than text.
pub fn looks_binary(bytes: &[u8]) -> (r: bool)
    ensures
        r == is_binary(bytes@),
{
    if bytes.len() == 0 {
        return false;
    }
    let mut suspicious: usize = 0;
    let mut has_zero = false;
    let mut i: usize = 0;
    while i < bytes.len()
        invariant
            i <= bytes.len(),
            suspicious == suspicious_count(bytes@.take(i as int)),
            has_zero == exists|k: int| 0 <= k < i && #[trigger] bytes@[k] == 0u8,
        decreases bytes.len() - i,
    {
        let b = bytes[i];
        proof {
            assert(bytes@.take(i + 1).drop_last() =~= bytes@.take(i as int));
            assert(bytes@.take(i + 1).last() == b);
            lemma_suspicious_count_bound(bytes@.take(i as int));
        }
        if b == 0 {
            has_zero = true;
        }
        if b < 0x09 || (b > 0x0D && b < 0x20) {
            suspicious = suspicious + 1;
        }
        i = i + 1;
    }
    assert(bytes@.take(bytes.len() as int) =~= bytes@);
    if has_zero {
        proof {
            let k = choose|k: int| 0 <= k < bytes.len() && #[trigger] bytes@[k] == 0u8;
            assert(bytes@[k] == 0u8);
            assert(bytes@.contains(0u8));
        }
        return true;
    }
    assert(!bytes@.contains(0u8));
    let s = suspicious as u128;
    let n = bytes.len() as u128;
    s * 100 / n > 10
}

/// What a run of the program does once its input is loaded.
#[derive(Debug, Clone, Copy, PartialEq, Eq, Structural)]
pub enum RunMode {
    /// Time parsing, rendering and search, and print a report
    Benchmark,
    /// Print the rendered document
    Print,
    /// Page through the document on the terminal
    Interactive,
}

/// The run mode: the benchmark when asked for, printing when standard output
/// or standard input is not a terminal, and paging otherwise.
pub fn run_mode(benchmark: bool, stdout_is_terminal: bool, stdin_is_terminal: bool) -> (r: RunMode)
    ensures
        r == (if benchmark {
            RunMode::Benchmark
        } else if !stdout_is_terminal || !stdin_is_terminal {
            RunMode::Print
        } else {
            RunMode::Interactive
        }),
{
    if benchmark {
        RunMode::Benchmark
    } else if !stdout_is_terminal || !stdin_is_terminal {
        RunMode::Print
    } else {
        RunMode::Interactive
    }
}

/// How an interactive session ended.
#[derive(Debug, Clone, Copy, PartialEq, Eq, Structural)]
pub enum SessionEnd {
    /// The user quit
    Finished,
    /// Control-C or an interrupt signal
    Interrupted,
    /// A terminal error
    Failed,
}

/// The exit code of an interactive session: 0 when finished, the interrupt
/// code when interrupted, 2 after a terminal error.
pub fn session_exit_code(end: SessionEnd) -> (r: i32)
    ensures
        r == match end {
            SessionEnd::Finished => 0i32,
            SessionEnd::Interrupted => interrupted_code(),
            SessionEnd::Failed => 2i32,
        },
{
    match end {
        SessionEnd::Finished => 0,
        SessionEnd::Interrupted => interrupted_exit_code(),
        SessionEnd::Failed => 2,
    }
}

/// The label of standard input.
pub open spec fn stdin_label() -> Seq<char> {
    seq!['(', 's', 't', 'd', 'i', 'n', ')']
}

/// The last component of a path, as `Path::file_name` gives it.
pub uninterp spec fn path_file_name(path: Seq<char>) -> Option<Seq<char>>;

/// Calls `std::path::Path::file_name` on `path`. The contract claims only
/// that the result is a function of the path, named `path_file_name`; the
/// component rules of `Path` are not restated.
#[verifier::external_body]
fn file_name_of(path: &str) -> (r: Option<String>)
    ensures
        opt_view(r) == path_file_name(path@),
{
    std::path::Path::new(path).file_name().and_then(|n| n.to_str()).map(|n| n.to_string())
}

/// Whether a command line argument names standard input.
pub open spec fn is_stdin_arg(arg: Seq<char>) -> bool {
    arg == seq!['-']
}

/// The label of a file: its file name, or the path itself when it has none.
pub open spec fn file_label(path: Seq<char>, name: Option<Seq<char>>) -> Seq<char> {
    match name {
        Some(n) => n,
        None => path,
    }
}

/// The label of the input named on the command line.
pub open spec fn source_label(arg: Option<Seq<char>>) -> Seq<char> {
    match arg {
        None => stdin_label(),
        Some(p) => if is_stdin_arg(p) { stdin_label() } else { file_label(p, path_file_name(p)) },
    }
}

/// Whether `s` is `-`.
fn is_dash(s: &str) -> (r: bool)
    ensures
        r == is_stdin_arg(s@),
{
    let v = chars_of(s);
    let r = v.len() == 1 && v[0] == '-';
    assert(r ==> v@ =~= seq!['-']);
    r
}

/// The label of a file given the file name found in its path.
pub fn label_from_file_name(path: &str, file_name: Option<String>) -> (r: String)
    ensures
        r@ == file_label(path@, opt_view(file_name)),
{
    match file_name {
        Some(n) => n,
        None => path.to_owned(),
    }
}

/// The label shown for the input: `(stdin)` for standard input, otherwise the
/// file name of the path (or the path when it has no file name).
pub fn source_label_for_arg(file_arg: Option<&str>) -> (r: String)
    ensures
        r@ == source_label(match file_arg { Some(p) => Some(p@), None => None }),
{
    match file_arg {
        Some(p) => {
            if is_dash(p) {
                let r = "(stdin)".to_owned();
                proof { reveal_strlit("(stdin)"); assert("(stdin)"@ =~= stdin_label()); }
                r
            } else {
                label_from_file_name(p, file_name_of(p))
            }
        },
        None => {
            let r = "(stdin)".to_owned();
            proof { reveal_strlit("(stdin)"); assert("(stdin)"@ =~= stdin_label()); }
            r
        },
    }
}

/// The characters of `bytes` decoded as UTF-8 with invalid sequences
/// replaced, as `String::from_utf8_lossy` gives them.
pub uninterp spec fn utf8_lossy(bytes: Seq<u8>) -> Seq<char>;

/// Calls `String::from_utf8_lossy`. The contract claims that the result is a
/// function of the bytes, and that valid UTF-8 decodes to its characters; the
/// replacement of invalid sequences is not restated.
#[verifier::external_body]
fn decode_lossy(bytes: &[u8]) -> (r: String)
    ensures
        r@ == utf8_lossy(bytes@),
        valid_utf8(bytes@) ==> r@ == decode_utf8(bytes@),
{
    String::from_utf8_lossy(bytes).into_owned()
}

/// The text of file contents: `None` for binary content, otherwise the
/// bytes decoded as UTF-8 with invalid sequences replaced.
pub fn text_from_bytes(bytes: &[u8]) -> (r: Option<String>)
    ensures
        r is None <==> is_binary(bytes@),
        r matches Some(t) ==> t@ == utf8_lossy(bytes@),
        valid_utf8(bytes@) ==> (r matches Some(t) ==> t@ == decode_utf8(bytes@)),
{
    if looks_binary(bytes) {
        None
    } else {
        Some(decode_lossy(bytes))
    }
}

/// The error of a failed read.
#[verifier::external_type_specification]
#[verifier::external_body]
pub struct ExIoError(std::io::Error);

/// Markdown loaded from the input, with its label and the path to reload it from.
pub struct LoadedInput {
    /// The markdown text
    pub markdown: String,
    /// The label shown in the footer
    pub source_label: String,
    /// The file to reload from; `None` for standard input
    pub reload_path: Option<String>,
}

/// Why no input was loaded.
#[derive(Debug)]
pub enum InputLoadError {
    /// No file was named and standard input is a terminal
    Usage,
    /// The named file could not be read
    ReadFile(std::io::Error),
    /// Standard input could not be read
    ReadStdin(std::io::Error),
}

/// What loading from standard input gives, given what the read returned.
pub open spec fn stdin_outcome(read: Result<String, std::io::Error>, r: Result<LoadedInput, InputLoadError>) -> bool {
    match read {
        Ok(text) => r matches Ok(l) && l.markdown == text && l.source_label@ == stdin_label()
            && l.reload_path is None,
        Err(e) => r matches Err(InputLoadError::ReadStdin(e2)) && e2 == e,
    }
}

/// What loading the file `path` gives, given what the read returned.
pub open spec fn file_outcome(path: Seq<char>, read: Result<String, std::io::Error>, r: Result<LoadedInput, InputLoadError>) -> bool {
    match read {
        Ok(text) => r matches Ok(l) && l.markdown == text && l.source_label@ == source_label(Some(path))
            && opt_view(l.reload_path) == Some(path),
        Err(e) => r matches Err(InputLoadError::ReadFile(e2)) && e2 == e,
    }
}

/// Loads the markdown named by the command line: `-` or no argument reads
/// standard input (refused with `Usage` when it is a terminal and no
/// argument was given), any other argument is a file path.
pub fn load_input<FReadStdin, FReadFile>(
    file_arg: Option<&str>,
    stdin_is_terminal: bool,
    read_stdin: &FReadStdin,
    read_file: &FReadFile,
) -> (r: Result<LoadedInput, InputLoadError>) where
    FReadStdin: Fn() -> Result<String, std::io::Error>,
    FReadFile: Fn(&str) -> Result<String, std::io::Error>,

    requires
        call_requires(*read_stdin, ()),
        file_arg matches Some(p) ==> call_requires(*read_file, (p,)),
    ensures
        match file_arg {
            Some(p) => if is_stdin_arg(p@) {
                exists|read: Result<String, std::io::Error>| call_ensures(*read_stdin, (), read) && stdin_outcome(read, r)
            } else {
                exists|read: Result<String, std::io::Error>| call_ensures(*read_file, (p,), read) && file_outcome(p@, read, r)
            },
            None => if stdin_is_terminal {
                r matches Err(InputLoadError::Usage)
            } else {
                exists|read: Result<String, std::io::Error>| call_ensures(*read_stdin, (), read) && stdin_outcome(read, r)
            },
        },
{
    match file_arg {
        Some(p) => {
            if is_dash(p) {
                let read = read_stdin();
                let ghost g = read;
                let r = load_from_stdin(read);
                assert(call_ensures(*read_stdin, (), g) && stdin_outcome(g, r));
                r
            } else {
                let read = read_file(p);
                let ghost g = read;
                let r = match read {
                    Ok(markdown) => {
                        let label = source_label_for_arg(Some(p));
                        Ok(LoadedInput { markdown, source_label: label, reload_path: Some(p.to_owned()) })
                    },
                    Err(e) => Err(InputLoadError::ReadFile(e)),
                };
                assert(call_ensures(*read_file, (p,), g) && file_outcome(p@, g, r));
                r
            }
        },
        None => {
            if stdin_is_terminal {
                return Err(InputLoadError::Usage);
            }
            let read = read_stdin();
            let ghost g = read;
            let r = load_from_stdin(read);
            assert(call_ensures(*read_stdin, (), g) && stdin_outcome(g, r));
            r
        },
    }
}

/// The input loaded from standard input, given what the read returned.
fn load_from_stdin(read: Result<String, std::io::Error>) -> (r: Result<LoadedInput, InputLoadError>)
    ensures
        stdin_outcome(read, r),
{
    match read {
        Ok(markdown) => {
            let label = source_label_for_arg(None);
            Ok(LoadedInput { markdown, source_label: label, reload_path: None })
        },
        Err(e) => Err(InputLoadError::ReadStdin(e)),
    }
}

/// The exit code for input that could not be loaded: 0 after printing the
/// usage, 1 for an unreadable file, 2 for unreadable standard input.
pub fn load_error_exit_code(e: &InputLoadError) -> (r: i32)
    ensures
        r == match e {
            InputLoadError::Usage => 0i32,
            InputLoadError::ReadFile(_) => 1i32,
            InputLoadError::ReadStdin(_) => 2i32,
        },
{
    match e {
        InputLoadError::Usage => 0,
        InputLoadError::ReadFile(_) => 1,
        InputLoadError::ReadStdin(_) => 2,
    }
}

/// A key, as the pager reads it.
#[derive(Debug, Clone, Copy, PartialEq, Eq, Structural)]
pub enum KeyCode {
    /// A character key
    Char(char),
    Enter,
    Esc,
    Backspace,
    Up,
    Down,
    PageUp,
    PageDown,
    Home,
    End,
    /// Any other key
    Other,
}

/// How a key event came about.
#[derive(Debug, Clone, Copy, PartialEq, Eq, Structural)]
pub enum KeyEventKind {
    Press,
    Repeat,
    Release,
}

/// A key event: the key, how it came about, and the modifiers held.
#[derive(Debug, Clone, Copy, PartialEq, Eq, Structural)]
pub struct KeyEvent {
    pub code: KeyCode,
    pub kind: KeyEventKind,
    /// The control key was held
    pub control: bool,
    /// The alt key was held
    pub alt: bool,
}

impl KeyEvent {
    /// A key press with the given modifiers.
    pub fn new(code: KeyCode, control: bool, alt: bool) -> (r: KeyEvent)
        ensures
            r == (KeyEvent { code, kind: KeyEventKind::Press, control, alt }),
    {
        KeyEvent { code, kind: KeyEventKind::Press, control, alt }
    }
}

/// Whether an event is a key press or an auto-repeat, the kinds that act.
pub open spec fn acts(e: KeyEvent) -> bool {
    e.kind == KeyEventKind::Press || e.kind == KeyEventKind::Repeat
}

/// Whether an event is control-C.
pub open spec fn is_interrupt(e: KeyEvent) -> bool {
    e.code == KeyCode::Char('c') && e.control
}

/// What a key does in the pager.
#[derive(Debug, Clone, Copy, PartialEq, Eq, Structural)]
pub enum PagerKeyAction {
    Quit,
    ScrollDown,
    ScrollUp,
    PageDown,
    PageUp,
    GoToBeginning,
    GoToEnd,
    SearchPrompt,
    SearchNext,
    SearchPrevious,
    ShowHelp,
    Reload,
    Noop,
}

/// The key bindings of the pager.
pub open spec fn action_for(code: KeyCode) -> PagerKeyAction {
    match code {
        KeyCode::Char(c) => if c == 'q' || c == 'Q' {
            PagerKeyAction::Quit
        } else if c == 'j' {
            PagerKeyAction::ScrollDown
        } else if c == 'k' {
            PagerKeyAction::ScrollUp
        } else if c == ' ' || c == 'f' {
            PagerKeyAction::PageDown
        } else if c == 'b' {
            PagerKeyAction::PageUp
        } else if c == 'g' {
            PagerKeyAction::GoToBeginning
        } else if c == 'G' {
            PagerKeyAction::GoToEnd
        } else if c == '/' {
            PagerKeyAction::SearchPrompt
        } else if c == 'n' {
            PagerKeyAction::SearchNext
        } else if c == 'N' {
            PagerKeyAction::SearchPrevious
        } else if c == 'h' || c == '?' {
            PagerKeyAction::ShowHelp
        } else if c == 'r' || c == 'R' {
            PagerKeyAction::Reload
        } else {
            PagerKeyAction::Noop
        },
        KeyCode::Down | KeyCode::Enter => PagerKeyAction::ScrollDown,
        KeyCode::Up => PagerKeyAction::ScrollUp,
        KeyCode::PageDown => PagerKeyAction::PageDown,
        KeyCode::PageUp => PagerKeyAction::PageUp,
        KeyCode::Home => PagerKeyAction::GoToBeginning,
        KeyCode::End => PagerKeyAction::GoToEnd,
        _ => PagerKeyAction::Noop,
    }
}

/// The pager action bound to a key.
pub fn key_event_to_action(code: KeyCode) -> (r: PagerKeyAction)
    ensures
        r == action_for(code),
{
    match code {
        KeyCode::Char(c) => {
            if c == 'q' || c == 'Q' {
                PagerKeyAction::Quit
            } else if c == 'j' {
                PagerKeyAction::ScrollDown
            } else if c == 'k' {
                PagerKeyAction::ScrollUp
            } else if c == ' ' || c == 'f' {
                PagerKeyAction::PageDown
            } else if c == 'b' {
                PagerKeyAction::PageUp
            } else if c == 'g' {
                PagerKeyAction::GoToBeginning
            } else if c == 'G' {
                PagerKeyAction::GoToEnd
            } else if c == '/' {
                PagerKeyAction::SearchPrompt
            } else if c == 'n' {
                PagerKeyAction::SearchNext
            } else if c == 'N' {
                PagerKeyAction::SearchPrevious
            } else if c == 'h' || c == '?' {
                PagerKeyAction::ShowHelp
            } else if c == 'r' || c == 'R' {
                PagerKeyAction::Reload
            } else {
                PagerKeyAction::Noop
            }
        },
        KeyCode::Down | KeyCode::Enter => PagerKeyAction::ScrollDown,
        KeyCode::Up => PagerKeyAction::ScrollUp,
        KeyCode::PageDown => PagerKeyAction::PageDown,
        KeyCode::PageUp => PagerKeyAction::PageUp,
        KeyCode::Home => PagerKeyAction::GoToBeginning,
        KeyCode::End => PagerKeyAction::GoToEnd,
        _ => PagerKeyAction::Noop,
    }
}

/// What the search prompt does after a key.
#[derive(Debug, Clone, PartialEq, Eq)]
pub enum PromptAction {
    /// Keep reading keys
    Continue,
    /// Close the prompt with the pattern, or `None` when canceled
    Return(Option<String>),
    /// Control-C
    Interrupt,
}

/// The pattern being typed after a key.
pub open spec fn prompt_pattern(pattern: Seq<char>, e: KeyEvent) -> Seq<char> {
    if !acts(e) || is_interrupt(e) {
        pattern
    } else {
        match e.code {
            KeyCode::Backspace => if pattern.len() > 0 { pattern.drop_last() } else { pattern },
            KeyCode::Char(c) => if !e.control && !e.alt { pattern.push(c) } else { pattern },
            _ => pattern,
        }
    }
}

/// Handles a key in the search prompt: Enter returns the pattern, Esc
/// cancels, Backspace deletes the last character, and a character without
/// control or alt is typed.
pub fn apply_prompt_key(pattern: &mut String, key: KeyEvent) -> (r: PromptAction)
    ensures
        final(pattern)@ == prompt_pattern(old(pattern)@, key),
        !acts(key) ==> r == PromptAction::Continue,
        acts(key) && is_interrupt(key) ==> r == PromptAction::Interrupt,
        acts(key) && !is_interrupt(key) ==> match key.code {
            KeyCode::Enter => r matches PromptAction::Return(Some(p)) && p@ == old(pattern)@,
            KeyCode::Esc => r == PromptAction::Return(None),
            _ => r == PromptAction::Continue,
        },
{
    if !(key.kind == KeyEventKind::Press || key.kind == KeyEventKind::Repeat) {
        return PromptAction::Continue;
    }
    if key.code == KeyCode::Char('c') && key.control {
        return PromptAction::Interrupt;
    }
    match key.code {
        KeyCode::Enter => PromptAction::Return(Some(pattern.clone())),
        KeyCode::Esc => PromptAction::Return(None),
        KeyCode::Backspace => {
            let mut v = chars_of(pattern.as_str());
            if v.len() > 0 {
                let _ = v.pop();
            }
            *pattern = string_of(&v);
            PromptAction::Continue
        },
        KeyCode::Char(ch) => {
            if !key.control && !key.alt {
                let mut v = chars_of(pattern.as_str());
                v.push(ch);
                *pattern = string_of(&v);
            }
            PromptAction::Continue
        },
        _ => PromptAction::Continue,
    }
}

/// Whether an action moves through the document.
pub open spec fn is_navigation(a: PagerKeyAction) -> bool {
    match a {
        PagerKeyAction::ScrollDown | PagerKeyAction::ScrollUp | PagerKeyAction::PageDown
        | PagerKeyAction::PageUp | PagerKeyAction::GoToBeginning | PagerKeyAction::GoToEnd
        | PagerKeyAction::SearchNext | PagerKeyAction::SearchPrevious => true,
        _ => false,
    }
}

/// Something that the navigation keys move through.
pub trait PagerNavigation: Sized {
    /// The state accepts navigation (any state, unless an implementation
    /// says otherwise).
    open spec fn nav_ready(&self) -> bool {
        true
    }

    /// `to` is where `action` leads from this state (any state, unless an
    /// implementation says otherwise).
    open spec fn nav_moved(&self, to: Self, action: PagerKeyAction) -> bool {
        true
    }

    fn scroll_down(&mut self)
        requires
            old(self).nav_ready(),
        ensures
            final(self).nav_ready(),
            old(self).nav_moved(*final(self), PagerKeyAction::ScrollDown),
    ;

    fn scroll_up(&mut self)
        requires
            old(self).nav_ready(),
        ensures
            final(self).nav_ready(),
            old(self).nav_moved(*final(self), PagerKeyAction::ScrollUp),
    ;

    fn page_down(&mut self)
        requires
            old(self).nav_ready(),
        ensures
            final(self).nav_ready(),
            old(self).nav_moved(*final(self), PagerKeyAction::PageDown),
    ;

    fn page_up(&mut self)
        requires
            old(self).nav_ready(),
        ensures
            final(self).nav_ready(),
            old(self).nav_moved(*final(self), PagerKeyAction::PageUp),
    ;

    fn go_to_beginning(&mut self)
        requires
            old(self).nav_ready(),
        ensures
            final(self).nav_ready(),
            old(self).nav_moved(*final(self), PagerKeyAction::GoToBeginning),
    ;

    fn go_to_end(&mut self)
        requires
            old(self).nav_ready(),
        ensures
            final(self).nav_ready(),
            old(self).nav_moved(*final(self), PagerKeyAction::GoToEnd),
    ;

    fn search_next(&mut self)
        requires
            old(self).nav_ready(),
        ensures
            final(self).nav_ready(),
            old(self).nav_moved(*final(self), PagerKeyAction::SearchNext),
    ;

    fn search_previous(&mut self)
        requires
            old(self).nav_ready(),
        ensures
            final(self).nav_ready(),
            old(self).nav_moved(*final(self), PagerKeyAction::SearchPrevious),
    ;
}

/// The scroll position and current match that `action` leads to.
pub open spec fn navigation_target(p: Pager, action: PagerKeyAction) -> (nat, Option<nat>) {
    let n = p.matches().len();
    match action {
        PagerKeyAction::ScrollDown => (
            if p.scroll() + 1 < p.max_scroll_spec() { p.scroll() + 1 } else { p.max_scroll_spec() },
            p.current(),
        ),
        PagerKeyAction::ScrollUp => (if p.scroll() > 0 { (p.scroll() - 1) as nat } else { 0 }, p.current()),
        PagerKeyAction::PageDown => (
            if p.scroll() + p.page() < p.max_scroll_spec() {
                p.scroll() + p.page()
            } else {
                p.max_scroll_spec()
            },
            p.current(),
        ),
        PagerKeyAction::PageUp => (
            if p.scroll() > p.page() { (p.scroll() - p.page()) as nat } else { 0 },
            p.current(),
        ),
        PagerKeyAction::GoToBeginning => (0, p.current()),
        PagerKeyAction::GoToEnd => (p.max_scroll_spec(), p.current()),
        PagerKeyAction::SearchNext => if n == 0 {
            (p.scroll(), p.current())
        } else {
            let next = next_match_index(p.current().unwrap(), n);
            (scroll_to_show(p.scroll(), p.page(), p.lines_view().len(), p.matches()[next as int].0 as nat), Some(next))
        },
        PagerKeyAction::SearchPrevious => if n == 0 {
            (p.scroll(), p.current())
        } else {
            let prev = if p.current().unwrap() == 0 { (n - 1) as nat } else { (p.current().unwrap() - 1) as nat };
            (scroll_to_show(p.scroll(), p.page(), p.lines_view().len(), p.matches()[prev as int].0 as nat), Some(prev))
        },
        _ => (p.scroll(), p.current()),
    }
}

/// The content, page, columns and search stay; the scroll position and
/// current match are those that `action` leads to.
pub open spec fn pager_moved(from: Pager, to: Pager, action: PagerKeyAction) -> bool {
    &&& to.lines_view() == from.lines_view()
    &&& to.page() == from.page()
    &&& to.columns() == from.columns()
    &&& to.pattern() == from.pattern()
    &&& to.matches() == from.matches()
    &&& (to.scroll(), to.current()) == navigation_target(from, action)
}

impl PagerNavigation for Pager {
    open spec fn nav_ready(&self) -> bool {
        self.wf()
    }

    open spec fn nav_moved(&self, to: Pager, action: PagerKeyAction) -> bool {
        pager_moved(*self, to, action)
    }

    fn scroll_down(&mut self) {
        Pager::scroll_down(self);
    }

    fn scroll_up(&mut self) {
        Pager::scroll_up(self);
    }

    fn page_down(&mut self) {
        Pager::page_down(self);
    }

    fn page_up(&mut self) {
        Pager::page_up(self);
    }

    fn go_to_beginning(&mut self) {
        Pager::go_to_beginning(self);
    }

    fn go_to_end(&mut self) {
        Pager::go_to_end(self);
    }

    fn search_next(&mut self) {
        Pager::search_next(self);
    }

    fn search_previous(&mut self) {
        Pager::search_previous(self);
    }
}

/// Applies a navigation action; returns whether `action` was one.
pub fn apply_navigation_action<P: PagerNavigation>(pager: &mut P, action: PagerKeyAction) -> (r: bool)
    requires
        old(pager).nav_ready(),
    ensures
        final(pager).nav_ready(),
        r == is_navigation(action),
        r ==> old(pager).nav_moved(*final(pager), action),
        !r ==> *final(pager) == *old(pager),
{
    match action {
        PagerKeyAction::ScrollDown => pager.scroll_down(),
        PagerKeyAction::ScrollUp => pager.scroll_up(),
        PagerKeyAction::PageDown => pager.page_down(),
        PagerKeyAction::PageUp => pager.page_up(),
        PagerKeyAction::GoToBeginning => pager.go_to_beginning(),
        PagerKeyAction::GoToEnd => pager.go_to_end(),
        PagerKeyAction::SearchNext => pager.search_next(),
        PagerKeyAction::SearchPrevious => pager.search_previous(),
        _ => return false,
    }
    true
}

/// What the interactive pager does after a key event.
#[derive(Debug, Clone, Copy, PartialEq, Eq, Structural)]
pub enum KeyOutcome {
    /// A key release: nothing happens
    Ignore,
    /// Control-C: the pager stops as interrupted
    Interrupt,
    /// The pager closes
    Quit,
    /// The search prompt opens
    PromptSearch,
    /// The help screen shows
    ShowHelp,
    /// The document is read again
    Reload,
    /// The page is drawn again (after a move, or for an unbound key)
    Redraw,
}

/// Whether an event is the `Z` of the `ZZ` quit sequence.
pub open spec fn is_z(e: KeyEvent) -> bool {
    e.code == KeyCode::Char('Z')
}

/// The outcome of a key event, given whether the previous key that acted
/// was a `Z`: a second `Z` quits.
pub open spec fn key_outcome(e: KeyEvent, after_z: bool) -> KeyOutcome {
    if !acts(e) {
        KeyOutcome::Ignore
    } else if is_interrupt(e) {
        KeyOutcome::Interrupt
    } else if is_z(e) && after_z {
        KeyOutcome::Quit
    } else {
        match action_for(e.code) {
            PagerKeyAction::Quit => KeyOutcome::Quit,
            PagerKeyAction::SearchPrompt => KeyOutcome::PromptSearch,
            PagerKeyAction::ShowHelp => KeyOutcome::ShowHelp,
            PagerKeyAction::Reload => KeyOutcome::Reload,
            _ => KeyOutcome::Redraw,
        }
    }
}

/// Whether a `Z` is pending after a key event: a key that acts leaves one
/// pending exactly when it is a first `Z`; other events change nothing.
pub open spec fn z_pending_after(e: KeyEvent, after_z: bool) -> bool {
    if !acts(e) || is_interrupt(e) { after_z } else { is_z(e) && !after_z }
}

/// Handles a key event of the interactive pager: navigation keys move the
/// pager, `after_z` tracks the `ZZ` quit sequence, and the outcome tells the
/// caller what to do next.
pub fn handle_key(pager: &mut Pager, after_z: &mut bool, key: KeyEvent) -> (r: KeyOutcome)
    requires
        old(pager).wf(),
    ensures
        final(pager).wf(),
        r == key_outcome(key, *old(after_z)),
        *final(after_z) == z_pending_after(key, *old(after_z)),
        r == KeyOutcome::Redraw && is_navigation(action_for(key.code)) ==> pager_moved(
            *old(pager),
            *final(pager),
            action_for(key.code),
        ),
        !(r == KeyOutcome::Redraw && is_navigation(action_for(key.code))) ==> *final(pager) == *old(pager),
{
    if !(key.kind == KeyEventKind::Press || key.kind == KeyEventKind::Repeat) {
        return KeyOutcome::Ignore;
    }
    if key.code == KeyCode::Char('c') && key.control {
        return KeyOutcome::Interrupt;
    }
    let is_z = key.code == KeyCode::Char('Z');
    if is_z && *after_z {
        *after_z = false;
        return KeyOutcome::Quit;
    }
    *after_z = is_z;
    let action = key_event_to_action(key.code);
    match action {
        PagerKeyAction::Quit => KeyOutcome::Quit,
        PagerKeyAction::SearchPrompt => KeyOutcome::PromptSearch,
        PagerKeyAction::ShowHelp => KeyOutcome::ShowHelp,
        PagerKeyAction::Reload => KeyOutcome::Reload,
        _ => {
            let _ = apply_navigation_action(pager, action);
            KeyOutcome::Redraw
        },
    }
}

/// The status shown after the search prompt is canceled.
pub open spec fn canceled_text() -> Seq<char> {
    "Search canceled"@
}

/// The status shown after an empty search clears the search.
pub open spec fn cleared_text() -> Seq<char> {
    "Search cleared"@
}

/// `to` is `from` after a search for the non-empty pattern `pat`: the
/// matches are the occurrences of `pat`; the current one, in view, is the
/// first on the first visible line or below, or else the first of all.
pub open spec fn searched(from: Pager, to: Pager, pat: Seq<char>) -> bool {
    let ms = all_matches(from.lines_view(), pat);
    &&& to.lines_view() == from.lines_view()
    &&& to.page() == from.page()
    &&& to.columns() == from.columns()
    &&& to.pattern() == Some(pat)
    &&& to.matches() == ms
    &&& ms.len() == 0 ==> to.current() is None && to.scroll() == from.scroll()
    &&& ms.len() > 0 ==> {
        let k = start_index(ms, from.scroll() as int, 0);
        to.current() == Some(k) && to.scroll() == scroll_to_show(
            from.scroll(),
            from.page(),
            from.lines_view().len(),
            ms[k as int].0 as nat,
        )
    }
}

/// `to` is `from` with the search cleared.
pub open spec fn cleared(from: Pager, to: Pager) -> bool {
    &&& to.lines_view() == from.lines_view()
    &&& to.page() == from.page()
    &&& to.columns() == from.columns()
    &&& to.scroll() == from.scroll()
    &&& to.pattern() is None
    &&& to.current() is None
}

/// Acts on the answer of the search prompt: a pattern is searched for, an
/// empty one clears the search, and no answer cancels. Returns the status
/// to show.
pub fn apply_search_prompt(pager: &mut Pager, answer: Option<String>) -> (status: Option<String>)
    requires
        old(pager).wf(),
    ensures
        final(pager).wf(),
        answer is None ==> *final(pager) == *old(pager) && opt_view(status) == Some(canceled_text()),
        answer matches Some(p) ==> (p@.len() == 0 ==> cleared(*old(pager), *final(pager))
            && opt_view(status) == Some(cleared_text())),
        answer matches Some(p) ==> (p@.len() > 0 ==> searched(*old(pager), *final(pager), p@)
            && status is None),
{
    match answer {
        Some(pattern) => {
            if pattern.as_str().is_empty() {
                pager.clear_search();
                let r = "Search cleared".to_owned();
                proof { reveal_strlit("Search cleared"); }
                Some(r)
            } else {
                proof { reveal_strlit(""); }
                let _ = pager.search(pattern.as_str());
                None
            }
        },
        None => {
            let r = "Search canceled".to_owned();
            proof { reveal_strlit("Search canceled"); }
            Some(r)
        },
    }
}

/// The progress indicator of a pager, as `Pager::progress_indicator` gives it.
pub open spec fn indicator(p: Pager) -> Option<Seq<char>> {
    let total = p.lines_view().len();
    if p.scroll() + p.page() < total {
        Some(more_indicator(p.scroll() + p.page(), total))
    } else {
        None
    }
}

/// The footer: the label in brackets, the progress indicator, then the
/// search status and the status message, each after a bar when not empty.
pub open spec fn footer_text(label: Seq<char>, ind: Option<Seq<char>>, search: Seq<char>, message: Option<Seq<char>>) -> Seq<char> {
    let base = match ind {
        Some(i) => "["@ + label + "] "@ + i,
        None => "["@ + label + "]"@,
    };
    let with_search = if search.len() > 0 { base + " | "@ + search } else { base };
    match message {
        Some(m) => if m.len() > 0 { with_search + " | "@ + m } else { with_search },
        None => with_search,
    }
}

/// How a reload request ended.
pub enum ReloadOutcome {
    /// The document was read again
    Reloaded,
    /// The document came from standard input, which cannot be read again
    FromStdin,
    /// Reading the file failed, with the error's text
    Failed(String),
}

/// The status message shown after a reload.
pub open spec fn reload_message(o: ReloadOutcome) -> Seq<char> {
    match o {
        ReloadOutcome::Reloaded => "Reloaded"@,
        ReloadOutcome::FromStdin => "Reload unavailable for stdin"@,
        ReloadOutcome::Failed(e) => "Reload failed: "@ + e@,
    }
}

/// The status message shown after a reload.
pub fn reload_status(outcome: &ReloadOutcome) -> (r: String)
    ensures
        r@ == reload_message(*outcome),
{
    let mut v: Vec<char> = Vec::new();
    match outcome {
        ReloadOutcome::Reloaded => {
            push_str(&mut v, "Reloaded");
            proof { reveal_strlit("Reloaded"); }
        },
        ReloadOutcome::FromStdin => {
            push_str(&mut v, "Reload unavailable for stdin");
            proof { reveal_strlit("Reload unavailable for stdin"); }
        },
        ReloadOutcome::Failed(e) => {
            push_str(&mut v, "Reload failed: ");
            push_str(&mut v, e.as_str());
            proof { reveal_strlit("Reload failed: "); }
        },
    }
    string_of(&v)
}

/// Builds the footer line shown under the page.
pub fn build_footer_line(pager: &Pager, source_label: &str, status_message: Option<&str>) -> (r: String)
    requires
        pager.wf(),
    ensures
        r@ == footer_text(
            source_label@,
            indicator(*pager),
            search_status(pager.pattern(), pager.matches().len(), pager.current()),
            match status_message { Some(m) => Some(m@), None => None },
        ),
{
    proof {
        reveal_strlit("[");
        reveal_strlit("] ");
        reveal_strlit("]");
        reveal_strlit(" | ");
    }
    let mut footer: Vec<char> = Vec::new();
    footer.push('[');
    push_str(&mut footer, source_label);
    match pager.progress_indicator() {
        Some(ind) => {
            footer.push(']');
            footer.push(' ');
            push_str(&mut footer, ind.as_str());
        },
        None => {
            footer.push(']');
        },
    }
    let search = pager.search_status_message();
    if !search.as_str().is_empty() {
        push_str(&mut footer, " | ");
        push_str(&mut footer, search.as_str());
    }
    match status_message {
        Some(m) => {
            if !m.is_empty() {
                push_str(&mut footer, " | ");
                push_str(&mut footer, m);
            }
        },
        None => {},
    }
    string_of(&footer)
}

/// The help screen: the help lines, a blank line and how to return.
pub open spec fn help_screen(help: Seq<Seq<char>>) -> Seq<Seq<char>> {
    help + seq![Seq::empty(), "Press any key to return"@]
}

/// The lines of the help screen.
pub fn build_help_screen_lines(help_lines: &[String]) -> (r: Vec<String>)
    ensures
        views(r@) == help_screen(views(help_lines@)),
{
    let mut lines: Vec<String> = Vec::new();
    let mut i: usize = 0;
    while i < help_lines.len()
        invariant
            i <= help_lines.len(),
            views(lines@) == views(help_lines@).take(i as int),
        decreases help_lines.len() - i,
    {
        let c = help_lines[i].clone();
        let ghost before = lines@;
        lines.push(c);
        assert(c@ == help_lines@[i as int]@);
        assert(views(lines@) =~= views(before).push(c@));
        assert(views(help_lines@).take(i + 1) =~= views(help_lines@).take(i as int).push(help_lines@[i as int]@));
        i = i + 1;
    }
    lines.push(String::new());
    lines.push("Press any key to return".to_owned());
    proof { reveal_strlit("Press any key to return"); }
    assert(views(help_lines@).take(help_lines.len() as int) =~= views(help_lines@));
    assert(views(lines@) =~= help_screen(views(help_lines@)));
    lines
}

/// The state a document is rendered from.
pub open spec fn render_start(width: nat, strikethrough_fallback: bool, flatten_wide_tables: bool) -> RenderState {
    RenderState { strikethrough_fallback, flatten_wide_tables, ..initial_state(width) }
}

/// The events of a markdown document.
pub open spec fn document_events(markdown: Seq<char>) -> Seq<EventView> {
    parse_events(encode_utf8(markdown), cmark_events(markdown))
}

/// Renders a markdown document to terminal text; `flatten_wide_tables` lays
/// out tables wider than `width` as plain entries.
pub fn render_markdown(markdown: &str, width: usize, strikethrough_fallback: bool, flatten_wide_tables: bool) -> (r: String)
    ensures
        r@ == rendered(render_start(width as nat, strikethrough_fallback, flatten_wide_tables), document_events(markdown@)),
{
    let events = parse_markdown(markdown);
    let mut renderer = Renderer::new(width);
    renderer.set_strikethrough_fallback(strikethrough_fallback);
    renderer.set_flatten_wide_tables(flatten_wide_tables);
    assert(renderer@ == render_start(width as nat, strikethrough_fallback, flatten_wide_tables));
    renderer.render(events.as_slice())
}

/// Renders a markdown document to terminal lines; `flatten_wide_tables` lays
/// out tables wider than `width` as plain entries.
pub fn render_markdown_lines(markdown: &str, width: usize, strikethrough_fallback: bool, flatten_wide_tables: bool) -> (r: Vec<String>)
    ensures
        views(r@) == rendered_lines(render_start(width as nat, strikethrough_fallback, flatten_wide_tables), document_events(markdown@)),
{
    let events = parse_markdown(markdown);
    let mut renderer = Renderer::new(width);
    renderer.set_strikethrough_fallback(strikethrough_fallback);
    renderer.set_flatten_wide_tables(flatten_wide_tables);
    assert(renderer@ == render_start(width as nat, strikethrough_fallback, flatten_wide_tables));
    renderer.render_lines(events.as_slice())
}

/// The lines a pager shows: the rendered lines, or one empty line when there are none.
pub open spec fn pager_lines(lines: Seq<Seq<char>>) -> Seq<Seq<char>> {
    if lines.len() == 0 { seq![Seq::empty()] } else { lines }
}

/// The page size for a terminal of `rows` rows: one row is the footer, and
/// a page has at least one row.
pub open spec fn page_rows(rows: nat) -> nat {
    if rows > 2 { (rows - 1) as nat } else { 1 }
}

/// The render width: the override when given, otherwise the default width
/// for the terminal columns.
pub open spec fn render_width(cols: nat, width_override: Option<usize>) -> nat {
    match width_override {
        Some(w) => w as nat,
        None => default_width(cols),
    }
}

/// Builds the pager for a document shown on a terminal of `rows` by `cols`,
/// scrolled to `scroll_position` (as far as the content allows).
pub fn build_pager(
    markdown: &str,
    rows: usize,
    cols: usize,
    scroll_position: usize,
    width_override: Option<usize>,
    strikethrough_fallback: bool,
    flatten_wide_tables: bool,
) -> (r: Pager)
    ensures
        r.wf(),
        r.lines_view() == pager_lines(
            rendered_lines(
                render_start(render_width(cols as nat, width_override), strikethrough_fallback, flatten_wide_tables),
                document_events(markdown@),
            ),
        ),
        r.page() == page_rows(rows as nat),
        r.columns() == cols,
        r.scroll() == if scroll_position < max_scroll(r.lines_view().len(), r.page()) {
            scroll_position as nat
        } else {
            max_scroll(r.lines_view().len(), r.page())
        },
        r.pattern() is None,
        r.current() is None,
{
    let rows_left = rows.saturating_sub(1);
    let page_size = if rows_left > 1 { rows_left } else { 1 };
    let width = match width_override {
        Some(w) => w,
        None => default_width_for_cols(cols),
    };
    let rendered = render_markdown_lines(markdown, width, strikethrough_fallback, flatten_wide_tables);
    let lines = if rendered.len() == 0 {
        let mut one: Vec<String> = Vec::new();
        one.push(String::new());
        assert(views(one@) =~= seq![Seq::<char>::empty()]);
        one
    } else {
        rendered
    };
    let mut pager = Pager::new(PagerConfig { page_size, cols }, lines);
    pager.go_to_line(scroll_position);
    pager
}

/// Line `k` of the page as shown: with the search pattern highlighted when
/// there is one.
pub open spec fn shown_line(p: Pager, k: int) -> Seq<char> {
    match p.pattern() {
        None => p.visible_window()[k]@,
        Some(pat) => highlighted(p.visible_window()[k]@, pat.len() as int, columns_on_line(p.matches(), p.scroll() + k)),
    }
}

/// The body of the screen: the lines of the page as shown, padded with
/// empty lines to the page size.
pub open spec fn frame_lines(p: Pager) -> Seq<Seq<char>> {
    let n = p.visible_window().len();
    Seq::new(if n > p.page() { n } else { p.page() }, |k: int| if k < n { shown_line(p, k) } else { Seq::empty() })
}

/// The body lines of the screen for the pager's current page.
pub fn frame_body_lines(pager: &Pager) -> (r: Vec<String>)
    requires
        pager.wf(),
    ensures
        views(r@) == frame_lines(*pager),
{
    let mut lines = pager.visible_lines_with_highlight();
    let ghost n = lines@.len();
    assert(n == pager.visible_window().len()) by {
        if pager.pattern() is None {
            assert(views(lines@).len() == views(pager.visible_window()).len());
        }
    }
    assert forall|k: int| 0 <= k < n implies #[trigger] views(lines@)[k] == shown_line(*pager, k) by {
        if pager.pattern() is None {
            assert(views(lines@)[k] == views(pager.visible_window())[k]);
        }
    }
    let page = pager.page_size();
    while lines.len() < page
        invariant
            n <= lines@.len(),
            n == pager.visible_window().len(),
            forall|k: int| 0 <= k < n ==> #[trigger] views(lines@)[k] == shown_line(*pager, k),
            forall|k: int| n <= k < lines@.len() ==> #[trigger] views(lines@)[k] == Seq::<char>::empty(),
            lines@.len() <= if n > page { n } else { page as nat },
        decreases page - lines.len(),
    {
        let ghost before = lines@;
        let e = String::new();
        lines.push(e);
        assert(views(lines@) =~= views(before).push(e@));
    }
    assert(views(lines@) =~= frame_lines(*pager));
    lines
}

/// Whether row `row` differs between two screens, a missing row differing
/// from a present one.
pub open spec fn row_differs(old: Seq<Seq<char>>, new: Seq<Seq<char>>, row: int) -> bool {
    if row < old.len() && row < new.len() {
        old[row] != new[row]
    } else {
        (row < old.len()) != (row < new.len())
    }
}

/// The rows below `n` that differ between two screens, in order.
pub open spec fn differing_rows(old: Seq<Seq<char>>, new: Seq<Seq<char>>, n: nat) -> Seq<usize>
    decreases n,
{
    if n == 0 {
        Seq::empty()
    } else {
        let rest = differing_rows(old, new, (n - 1) as nat);
        if row_differs(old, new, n - 1) { rest.push((n - 1) as usize) } else { rest }
    }
}

/// The rows of a screen of `rows` rows that must be drawn again: those whose
/// line changed since the last drawing.
pub fn rows_to_redraw(drawn: &Vec<String>, fresh: &Vec<String>, rows: usize) -> (r: Vec<usize>)
    ensures
        r@ == differing_rows(views(drawn@), views(fresh@), rows as nat),
{
    let ghost dv = views(drawn@);
    let ghost fv = views(fresh@);
    let mut out: Vec<usize> = Vec::new();
    let mut row: usize = 0;
    while row < rows
        invariant
            row <= rows,
            dv == views(drawn@),
            fv == views(fresh@),
            out@ == differing_rows(dv, fv, row as nat),
        decreases rows - row,
    {
        let differs = if row < drawn.len() && row < fresh.len() {
            assert(dv[row as int] == drawn@[row as int]@);
            assert(fv[row as int] == fresh@[row as int]@);
            !(drawn[row] == fresh[row])
        } else {
            (row < drawn.len()) != (row < fresh.len())
        };
        if differs {
            out.push(row);
        }
        row = row + 1;
    }
    out
}

/// Paging down and then up comes back to the same place and match, unless
/// paging down was stopped by the end of the content.
pub proof fn lemma_page_up_undoes_page_down(p: Pager, q: Pager, r: Pager)
    requires
        p.wf(),
        p.scroll() + p.page() <= p.max_scroll_spec(),
        pager_moved(p, q, PagerKeyAction::PageDown),
        pager_moved(q, r, PagerKeyAction::PageUp),
    ensures
        r.scroll() == p.scroll(),
        r.current() == p.current(),
{
}

/// Scrolling down one line and then up one line comes back to the same
/// place and match, unless scrolling down was stopped by the end of the content.
pub proof fn lemma_scroll_up_undoes_scroll_down(p: Pager, q: Pager, r: Pager)
    requires
        p.wf(),
        p.scroll() < p.max_scroll_spec(),
        pager_moved(p, q, PagerKeyAction::ScrollDown),
        pager_moved(q, r, PagerKeyAction::ScrollUp),
    ensures
        r.scroll() == p.scroll(),
        r.current() == p.current(),
{
}

/// At the end of the content, paging and scrolling down stay where they are.
pub proof fn lemma_moving_down_at_end_stays(p: Pager, q: Pager, action: PagerKeyAction)
    requires
        p.wf(),
        p.scroll() == p.max_scroll_spec(),
        action == PagerKeyAction::PageDown || action == PagerKeyAction::ScrollDown
            || action == PagerKeyAction::GoToEnd,
        pager_moved(p, q, action),
    ensures
        q.scroll() == p.scroll(),
        q.current() == p.current(),
{
}

/// The previous match after the next match is the match one started from.
pub proof fn lemma_previous_undoes_next(p: Pager, q: Pager, r: Pager)
    requires
        p.wf(),
        pager_moved(p, q, PagerKeyAction::SearchNext),
        pager_moved(q, r, PagerKeyAction::SearchPrevious),
    ensures
        r.current() == p.current(),
{
    let n = p.matches().len();
    if n > 0 {
        let c = p.current().unwrap();
        assert(c < n);
        if c + 1 < n {
            assert((c + 1) % n == c + 1) by (nonlinear_arith)
                requires
                    0 <= c + 1 < n,
            ;
        } else {
            assert((c + 1) % n == 0) by (nonlinear_arith)
                requires
                    c + 1 == n,
                    n > 0,
            ;
        }
    }
}

/// Searching wraps: the match after the last one is the first one, and the
/// match before the first one is the last one.
pub proof fn lemma_search_wraps(p: Pager, q: Pager, action: PagerKeyAction)
    requires
        p.wf(),
        p.matches().len() > 0,
        pager_moved(p, q, action),
    ensures
        action == PagerKeyAction::SearchNext && p.current() == Some((p.matches().len() - 1) as nat)
            ==> q.current() == Some(0nat),
        action == PagerKeyAction::SearchPrevious && p.current() == Some(0nat)
            ==> q.current() == Some((p.matches().len() - 1) as nat),
{
    let n = p.matches().len();
    assert(n % n == 0) by (nonlinear_arith)
        requires
            n > 0,
    ;
}

/// In the search prompt, deleting the last character undoes typing it.
pub proof fn lemma_backspace_undoes_typing(pattern: Seq<char>, c: char)
    ensures
        prompt_pattern(
            prompt_pattern(pattern, KeyEvent { code: KeyCode::Char(c), kind: KeyEventKind::Press, control: false, alt: false }),
            KeyEvent { code: KeyCode::Backspace, kind: KeyEventKind::Press, control: false, alt: false },
        ) == pattern,
{
    assert(pattern.push(c).drop_last() =~= pattern);
}

/// Pressing `Z` twice in a row quits, whatever came before.
pub proof fn lemma_zz_quits(after_z: bool)
    ensures
        ({
            let z = KeyEvent { code: KeyCode::Char('Z'), kind: KeyEventKind::Press, control: false, alt: false };
            let pending = z_pending_after(z, after_z);
            key_outcome(z, after_z) == KeyOutcome::Quit || key_outcome(z, pending) == KeyOutcome::Quit
        }),
{
}

/// A width override decides the render width: with `Some(w)` the document
/// is rendered at width `w` whatever the terminal's columns, so the pager
/// holds the document's lines rendered at `w`; without one the width follows
/// the columns.
pub proof fn lemma_width_override_decides(markdown: Seq<char>, cols: nat, w: usize, strikethrough_fallback: bool, flatten_wide_tables: bool)
    ensures
        render_width(cols, Some(w)) == w as nat,
        pager_lines(rendered_lines(
            render_start(render_width(cols, Some(w)), strikethrough_fallback, flatten_wide_tables),
            document_events(markdown),
        )) == pager_lines(rendered_lines(
            render_start(w as nat, strikethrough_fallback, flatten_wide_tables),
            document_events(markdown),
        )),
        render_width(cols, None) == default_width(cols),
{
}

/// The arrow keys scroll by one line, as `j` and `k` do: Down is bound like
/// `j` and moves one line down (stopping at the end), Up is bound like `k`
/// and moves one line up (stopping at the top), so from a position inside
/// the document, Down then Up comes back to it.
pub proof fn lemma_arrow_keys_scroll_one_line(p: Pager)
    ensures
        action_for(KeyCode::Up) == action_for(KeyCode::Char('k')),
        action_for(KeyCode::Down) == action_for(KeyCode::Char('j')),
        navigation_target(p, action_for(KeyCode::Up)) == (
            if p.scroll() > 0 { (p.scroll() - 1) as nat } else { 0nat },
            p.current(),
        ),
        navigation_target(p, action_for(KeyCode::Down)) == (
            if p.scroll() + 1 <= p.max_scroll_spec() { p.scroll() + 1 } else { p.max_scroll_spec() },
            p.current(),
        ),
        p.scroll() + 1 <= p.max_scroll_spec() ==> ({
            let down = navigation_target(p, action_for(KeyCode::Down)).0;
            (if down > 0 { (down - 1) as nat } else { 0nat }) == p.scroll()
        }),
{
}

/// The paging keys move a page, and Home and End go to the ends: PageDown
/// (like space and `f`) moves one page down, stopping at the end; PageUp
/// (like `b`) one page up, stopping at the top; Home (like `g`) goes to the
/// top and End (like `G`) to the last page. None of them changes the current
/// match.
pub proof fn lemma_paging_keys(p: Pager)
    ensures
        action_for(KeyCode::PageDown) == action_for(KeyCode::Char(' ')),
        action_for(KeyCode::PageDown) == action_for(KeyCode::Char('f')),
        action_for(KeyCode::PageUp) == action_for(KeyCode::Char('b')),
        action_for(KeyCode::Home) == action_for(KeyCode::Char('g')),
        action_for(KeyCode::End) == action_for(KeyCode::Char('G')),
        action_for(KeyCode::Enter) == action_for(KeyCode::Down),
        navigation_target(p, action_for(KeyCode::PageDown)) == (
            if p.scroll() + p.page() <= p.max_scroll_spec() { p.scroll() + p.page() } else { p.max_scroll_spec() },
            p.current(),
        ),
        navigation_target(p, action_for(KeyCode::PageUp)) == (
            if p.scroll() >= p.page() { (p.scroll() - p.page()) as nat } else { 0nat },
            p.current(),
        ),
        navigation_target(p, action_for(KeyCode::Home)) == (0nat, p.current()),
        navigation_target(p, action_for(KeyCode::End)) == (p.max_scroll_spec(), p.current()),
{
}

/// The default render width leaves a margin of four columns on a terminal of
/// at least 44 columns, is never under 40, and never shrinks as the terminal
/// widens.
pub proof fn lemma_default_width(cols: nat, wider: nat)
    requires
        cols <= wider,
    ensures
        cols >= 44 ==> default_width(cols) == cols - 4,
        default_width(cols) >= 40,
        cols <= 44 ==> default_width(cols) == 40,
        default_width(cols) <= default_width(wider),
{
}

} // verus!
