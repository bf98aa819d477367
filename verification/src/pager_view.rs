//! What the pager does with keys, on mathematical values.

use vstd::prelude::*;
use crate::config::ConfigView;
use crate::geometry;
use crate::kitty;
use crate::numbers;
use crate::paths;
use crate::search;
use crate::slug;
use crate::state::{DocumentView, HeadingView, ImageMode, ImageView, OptsView, TermTheme};
use crate::strings;
use crate::text::SpanView;
use crate::width;
use vstd::utf8;

verus! {

/// A key, as far as the pager goes by it.
#[derive(Clone, Copy, Debug, PartialEq, Eq, Structural)]
pub enum KeyCode {
    Char(char),
    Up,
    Down,
    Enter,
    PageUp,
    PageDown,
    Home,
    End,
    Backspace,
    Esc,
    F(u8),
    Other,
}

/// A key stroke.
#[derive(Clone, Copy, Debug, PartialEq, Eq, Structural)]
pub struct Key {
    pub code: KeyCode,
    pub ctrl: bool,
}

/// One followable link currently on screen.
#[verifier::ext_equal]
pub struct TargetView {
    pub label: char,
    /// Screen row (0-based, within the content area).
    pub row: u16,
    /// Display column of the link's first cell, before the margin shift.
    pub col: u16,
    pub url: Seq<char>,
}

pub enum ModeView {
    Normal,
    Prompt { backward: bool, buf: Seq<char> },
    Toc { sel: usize },
    Help,
    Follow { targets: Seq<TargetView> },
}

/// A document that was navigated away from.
#[verifier::ext_equal]
pub struct HistoryView {
    pub source: Seq<char>,
    pub title: Seq<char>,
    pub base: Option<Seq<char>>,
    pub resolve_links: bool,
    pub top: nat,
}

/// A search: what was looked for, what was found, and which find is the current
/// one.
#[verifier::ext_equal]
pub struct SearchView {
    pub query: Seq<char>,
    pub matches: Seq<(usize, usize, usize)>,
    pub cur: int,
}

/// Where a new rendering is to be shown.
pub enum ThenView {
    /// Where the old one stood in proportion: at a line, of so many lines.
    Proportion(nat, nat),
    /// At the start, or at the heading that a fragment leads to.
    Start(Option<Seq<char>>),
    /// At a line.
    At(nat),
}

/// What is left to do after a key.
pub enum ActionView {
    Stay,
    /// The document is to be rendered and shown.
    Render(ThenView),
    /// A document is to be loaded from a path, and shown from a fragment on.
    Load(Seq<char>, Option<Seq<char>>),
    /// A file, given by path and URL, is to be opened if it exists.
    OpenFile(Seq<char>, Seq<char>),
    /// A URL is to be opened.
    Open(Seq<char>),
}

/// What a turn of the pager does next.
#[derive(Clone, Copy, Debug, PartialEq, Eq, Structural)]
pub enum Step {
    /// The terminal is to be sent the images.
    Sync,
    /// The pager is to be left.
    Leave,
    /// The screen is to be drawn.
    Draw,
    /// The next event is to be awaited.
    Wait,
}

/// The state of the pager.
#[verifier::ext_equal]
pub struct PagerView {
    pub source: Seq<char>,
    pub title: Seq<char>,
    pub cfg: ConfigView,
    pub base: Option<Seq<char>>,
    pub resolve_links: bool,
    pub theme: TermTheme,
    pub back_stack: Seq<HistoryView>,
    pub image_mode: ImageMode,
    pub transmitted: Set<u32>,
    pub doc: DocumentView,
    pub diagrams: bool,
    pub images_stale: bool,
    pub top: nat,
    pub w: u16,
    pub h: u16,
    pub mode: ModeView,
    pub count: Seq<char>,
    pub search: Option<SearchView>,
    pub message: Option<Seq<char>>,
    pub quit: bool,
}

/// The label of the `i`th link on screen.
pub open spec fn label(i: int) -> char {
    if i < 26 {
        (97 + i) as u8 as char
    } else {
        (65 + i - 26) as u8 as char
    }
}

/// The links of a screen as they are collected: the links so far, the column and
/// the target of the last span, and whether there are more links than labels.
#[verifier::ext_equal]
pub struct Gather {
    pub targets: Seq<TargetView>,
    pub col: nat,
    pub prev: Option<Seq<char>>,
    pub full: bool,
}

/// A span gathered. Adjacent spans with one target are one link; a link beyond
/// the right edge is not on screen.
pub open spec fn gather_span(g: Gather, span: SpanView, row: int, visible: nat) -> Gather {
    if g.full || g.col >= visible {
        g
    } else {
        let fresh = span.style.link is Some && g.prev != span.style.link;
        if fresh && g.targets.len() >= 52 {
            Gather { full: true, ..g }
        } else {
            let targets = if fresh {
                g.targets.push(
                    TargetView {
                        label: label(g.targets.len() as int),
                        row: row as u16,
                        col: g.col as u16,
                        url: span.style.link->0,
                    },
                )
            } else {
                g.targets
            };
            Gather {
                targets,
                col: g.col + width::str_width(span.text) as nat,
                prev: span.style.link,
                ..g
            }
        }
    }
}

pub open spec fn gather_spans(g: Gather, spans: Seq<SpanView>, row: int, visible: nat) -> Gather
    decreases spans.len(),
{
    if spans.len() == 0 {
        g
    } else {
        gather_span(gather_spans(g, spans.drop_last(), row, visible), spans.last(), row, visible)
    }
}

/// The first `n` rows gathered, from line `top` on.
pub open spec fn gather_rows(lines: Seq<Seq<SpanView>>, top: nat, visible: nat, n: nat) -> Gather
    decreases n,
{
    if n == 0 {
        Gather { targets: seq![], col: 0, prev: None, full: false }
    } else {
        let g = gather_rows(lines, top, visible, (n - 1) as nat);
        if g.full || top + n - 1 >= lines.len() {
            g
        } else {
            gather_spans(
                Gather { col: 0, prev: None, ..g },
                lines[top + n - 1],
                n - 1,
                visible,
            )
        }
    }
}

/// The first target with a label, from `from` on.
pub open spec fn target_at(targets: Seq<TargetView>, c: char, from: int) -> Option<Seq<char>>
    decreases targets.len() - from,
{
    if from >= targets.len() {
        None
    } else if targets[from].label == c {
        Some(targets[from].url)
    } else {
        target_at(targets, c, from + 1)
    }
}

/// Whether a fragment leads to a heading: by its slug or by its text.
pub open spec fn leads_to(fragment: Seq<char>, h: HeadingView) -> bool {
    slug::slug(h.text) == strings::lowered(fragment) || strings::lowered(h.text)
        == strings::lowered(fragment)
}

/// The line of the first heading that a fragment leads to, from `from` on.
pub open spec fn fragment_line(
    headings: Seq<HeadingView>,
    fragment: Seq<char>,
    from: int,
) -> Option<nat>
    decreases headings.len() - from,
{
    if from >= headings.len() {
        None
    } else if leads_to(fragment, headings[from]) {
        Some(headings[from].line)
    } else {
        fragment_line(headings, fragment, from + 1)
    }
}

/// The line of the first heading below a line, from `from` on.
pub open spec fn heading_below(headings: Seq<HeadingView>, top: nat, from: int) -> Option<nat>
    decreases headings.len() - from,
{
    if from >= headings.len() {
        None
    } else if headings[from].line > top {
        Some(headings[from].line)
    } else {
        heading_below(headings, top, from + 1)
    }
}

/// The line of the last heading above a line.
pub open spec fn heading_above(headings: Seq<HeadingView>, top: nat) -> Option<nat>
    decreases headings.len(),
{
    if headings.len() == 0 {
        None
    } else if headings.last().line < top {
        Some(headings.last().line)
    } else {
        heading_above(headings.drop_last(), top)
    }
}

/// The last heading at or above a line; the first of all where there is none.
pub open spec fn heading_at(headings: Seq<HeadingView>, top: nat) -> int
    decreases headings.len(),
{
    if headings.len() == 0 {
        0
    } else if headings.last().line <= top {
        headings.len() - 1
    } else {
        heading_at(headings.drop_last(), top)
    }
}

/// The last match above a line; the last of all where there is none.
pub open spec fn match_above(matches: Seq<(usize, usize, usize)>, top: nat, n: int) -> int
    decreases n,
{
    if n <= 0 {
        matches.len() - 1
    } else if matches[n - 1].0 < top {
        n - 1
    } else {
        match_above(matches, top, n - 1)
    }
}

/// The escape sequences that bring the terminal up to date on the first `n`
/// images, and the images it knows then: each is transmitted once, and placed
/// every time.
pub open spec fn synced(images: Seq<ImageView>, known: Set<u32>, n: nat) -> (Seq<u8>, Set<u32>)
    decreases n,
{
    if n == 0 {
        (seq![], known)
    } else {
        let (out, k) = synced(images, known, (n - 1) as nat);
        let i = images[n - 1];
        let sent = if k.contains(i.id) {
            seq![]
        } else {
            kitty::transmission(i.id, kitty::base64_standard(i.png))
        };
        (
            out + sent + utf8::encode_utf8(kitty::placement(i.id, i.cols, i.rows)),
            k.insert(i.id),
        )
    }
}

impl PagerView {
    /// The rows for content: all but the status bar, one at least.
    pub open spec fn content_h(self) -> nat {
        if self.h <= 2 {
            1
        } else {
            (self.h - 1) as nat
        }
    }

    /// The furthest that the document scrolls.
    pub open spec fn max_top(self) -> nat {
        if self.doc.lines.len() <= self.content_h() {
            0
        } else {
            (self.doc.lines.len() - self.content_h()) as nat
        }
    }

    /// A line as the top line, as far as the document scrolls.
    pub open spec fn clip(self, line: int) -> nat {
        if line < 0 {
            0
        } else if line > self.max_top() {
            self.max_top()
        } else {
            line as nat
        }
    }

    pub open spec fn go_to(self, line: int) -> PagerView {
        PagerView { top: self.clip(line), ..self }
    }

    pub open spec fn scroll(self, delta: int) -> PagerView {
        self.go_to(self.top + delta)
    }

    pub open spec fn say(self, message: Seq<char>) -> PagerView {
        PagerView { message: Some(message), ..self }
    }

    pub open spec fn set_mode(self, mode: ModeView) -> PagerView {
        PagerView { mode, ..self }
    }

    /// The count that was typed in front of a command.
    pub open spec fn counted(self) -> Option<nat> {
        numbers::parsed(self.count, 10, usize::MAX as nat)
    }

    /// What shapes a render of the document.
    pub open spec fn render_opts(self) -> OptsView {
        OptsView {
            width: geometry::wrap_columns(self.cfg.wrap_width, self.cfg.left_margin, self.w),
            base: self.base,
            image_mode: self.image_mode,
            diagrams: self.diagrams,
            resolve_links: self.resolve_links,
            theme: self.theme,
        }
    }

    /// The document is to be rendered again, and shown where it stood.
    pub open spec fn again(self) -> ActionView {
        ActionView::Render(
            ThenView::Proportion(
                self.top,
                if self.doc.lines.len() < 1 {
                    1
                } else {
                    self.doc.lines.len()
                },
            ),
        )
    }

    /// Toggles mermaid/latex blocks between rendered diagrams and their source.
    pub open spec fn toggle_diagrams(self) -> (PagerView, ActionView) {
        (
            PagerView { diagrams: !self.diagrams, images_stale: true, ..self }.say(
                if self.diagrams {
                    "diagrams: source"@
                } else {
                    "diagrams: rendered"@
                },
            ),
            self.again(),
        )
    }

    /// A terminal of another size, or one that images are drawn on otherwise.
    pub open spec fn resize(self, w: u16, h: u16, image_mode: ImageMode) -> (
        PagerView,
        ActionView,
    ) {
        (
            PagerView {
                w: if w == 0 {
                    80
                } else {
                    w
                },
                h: if h == 0 {
                    24
                } else {
                    h
                },
                image_mode,
                images_stale: true,
                ..self
            },
            self.again(),
        )
    }

    /// The current search, run again over the lines there are now.
    pub open spec fn research(self) -> PagerView {
        match self.search {
            Some(s) => {
                let matches = search::all_matches(self.doc.lines, s.query);
                PagerView {
                    search: if matches.len() == 0 {
                        None
                    } else {
                        Some(
                            SearchView {
                                query: s.query,
                                matches,
                                cur: search::nearest(matches, self.top),
                            },
                        )
                    },
                    ..self
                }
            },
            None => self,
        }
    }

    /// A new rendering, shown; `guess` is the line that stands where the top line
    /// stood in proportion.
    pub open spec fn show(self, doc: DocumentView, then_: ThenView, guess: nat) -> PagerView {
        let p = PagerView { doc, ..self };
        match then_ {
            ThenView::Proportion(top, len) => p.go_to(guess as int).research(),
            ThenView::Start(fragment) => {
                let q = PagerView { top: 0, search: None, images_stale: true, ..p };
                match fragment {
                    Some(f) => q.jump_fragment(f),
                    None => q,
                }
            },
            ThenView::At(line) => PagerView { search: None, images_stale: true, ..p }.go_to(
                line as int,
            ),
        }
    }

    /// Jumps to the first heading whose slug or text a fragment is.
    pub open spec fn jump_fragment(self, fragment: Seq<char>) -> PagerView {
        match fragment_line(self.doc.headings, fragment, 0) {
            Some(line) => self.go_to(line as int),
            None => self.say("No heading #"@ + fragment),
        }
    }

    pub open spec fn jump_heading(self, forward: bool) -> PagerView {
        let line = if forward {
            heading_below(self.doc.headings, self.top, 0)
        } else {
            heading_above(self.doc.headings, self.top)
        };
        match line {
            Some(l) => self.go_to(l as int),
            None => self.say("No more headings"@),
        }
    }

    /// Shows the current match, at the top unless the document ends before.
    pub open spec fn goto_match(self) -> PagerView {
        match self.search {
            Some(s) => self.go_to(s.matches[s.cur].0 as int),
            None => self,
        }
    }

    pub open spec fn do_search(self, query: Seq<char>, backward: bool) -> PagerView {
        let matches = search::all_matches(self.doc.lines, query);
        if matches.len() == 0 {
            PagerView { search: None, ..self }.say("Pattern not found: "@ + query)
        } else {
            let cur = if backward {
                match_above(matches, self.top, matches.len() as int)
            } else {
                search::nearest(matches, self.top)
            };
            PagerView { search: Some(SearchView { query, matches, cur }), ..self }.goto_match()
        }
    }

    /// Goes on to the next match or back to the one before, around the ends.
    pub open spec fn next_match(self, forward: bool) -> PagerView {
        match self.search {
            None => self.say("No previous search"@),
            Some(s) => {
                let last = s.matches.len() - 1;
                let p = if forward && s.cur >= last {
                    PagerView { search: Some(SearchView { cur: 0, ..s }), ..self }.say(
                        "(search wrapped)"@,
                    )
                } else if forward {
                    PagerView { search: Some(SearchView { cur: s.cur + 1, ..s }), ..self }
                } else if s.cur <= 0 {
                    PagerView { search: Some(SearchView { cur: last, ..s }), ..self }.say(
                        "(search wrapped)"@,
                    )
                } else {
                    PagerView { search: Some(SearchView { cur: s.cur - 1, ..s }), ..self }
                };
                p.goto_match()
            },
        }
    }

    /// The columns there are for content.
    pub open spec fn visible(self) -> nat {
        (self.w - geometry::margin(self.cfg.left_margin, self.w)) as nat
    }

    /// Collects the links visible on screen and overlays selection labels.
    pub open spec fn enter_follow_mode(self) -> PagerView {
        let targets = gather_rows(
            self.doc.lines,
            self.top,
            self.visible(),
            self.content_h(),
        ).targets;
        if targets.len() == 0 {
            self.say("No links on screen"@)
        } else {
            self.set_mode(ModeView::Follow { targets })
        }
    }

    /// Dispatches a followed link by target kind.
    pub open spec fn follow_link(self, url: Seq<char>) -> (PagerView, ActionView) {
        if url.len() > 0 && url[0] == '#' {
            (self.jump_fragment(url.skip(1)), ActionView::Stay)
        } else if strings::stands_at(url, "file://"@, 0) {
            let rest = url.skip("file://"@.len() as int);
            let cut = strings::first_at(rest, '#', 0);
            let path = rest.take(cut);
            let fragment = if cut < rest.len() {
                Some(rest.skip(cut + 1))
            } else {
                None
            };
            if paths::is_markdown_path(path) {
                (self, ActionView::Load(path, fragment))
            } else {
                (self, ActionView::OpenFile(path, url))
            }
        } else {
            (self, ActionView::Open(url))
        }
    }

    /// Another document, loaded; the current one goes onto the back stack.
    pub open spec fn navigate_to(
        self,
        source: Seq<char>,
        title: Seq<char>,
        base: Option<Seq<char>>,
        fragment: Option<Seq<char>>,
    ) -> (PagerView, ActionView) {
        (
            PagerView {
                back_stack: self.back_stack.push(
                    HistoryView {
                        source: self.source,
                        title: self.title,
                        base: self.base,
                        resolve_links: self.resolve_links,
                        top: self.top,
                    },
                ),
                source,
                title,
                base,
                resolve_links: true,
                ..self
            },
            ActionView::Render(ThenView::Start(fragment)),
        )
    }

    /// Pops the back stack, restoring the previous document and position.
    pub open spec fn go_back(self) -> (PagerView, ActionView) {
        if self.back_stack.len() == 0 {
            (self.say("No previous document"@), ActionView::Stay)
        } else {
            let e = self.back_stack.last();
            (
                PagerView {
                    back_stack: self.back_stack.drop_last(),
                    source: e.source,
                    title: e.title,
                    base: e.base,
                    resolve_links: e.resolve_links,
                    ..self
                },
                ActionView::Render(ThenView::At(e.top)),
            )
        }
    }

    pub open spec fn enter_toc(self) -> PagerView {
        if self.doc.headings.len() == 0 {
            self.say("No headings in this document"@)
        } else {
            self.set_mode(
                ModeView::Toc { sel: heading_at(self.doc.headings, self.top) as usize },
            )
        }
    }

    /// A command letter, with the count typed in front of it still there.
    pub open spec fn letter(self, c: char, ctrl: bool) -> (PagerView, ActionView) {
        let page = self.content_h() as int;
        let n = self.counted();
        let stay = |p: PagerView| (p, ActionView::Stay);
        if (c == 'q' || c == 'Q') && !ctrl || c == 'c' && ctrl {
            stay(PagerView { quit: true, ..self })
        } else if c == 'j' {
            stay(
                self.scroll(
                    match n {
                        Some(n) => n as int,
                        None => 1,
                    },
                ),
            )
        } else if c == 'k' {
            stay(
                self.scroll(
                    match n {
                        Some(n) => -(n as int),
                        None => -1,
                    },
                ),
            )
        } else if c == ' ' || c == 'f' || c == 'v' && ctrl {
            stay(self.scroll(page))
        } else if c == 'b' {
            stay(self.scroll(-page))
        } else if c == 'd' {
            stay(self.scroll(page / 2))
        } else if c == 'u' {
            stay(self.scroll(-(page / 2)))
        } else if c == 'g' {
            stay(
                self.go_to(
                    match n {
                        Some(n) => n - 1,
                        None => 0,
                    },
                ),
            )
        } else if c == 'G' {
            stay(
                self.go_to(
                    match n {
                        Some(n) => n - 1,
                        None => self.max_top() as int,
                    },
                ),
            )
        } else if c == 'p' || c == '%' {
            stay(
                match n {
                    Some(n) => self.go_to(
                        self.doc.lines.len() * (if n < 100 {
                            n as int
                        } else {
                            100
                        }) / 100,
                    ),
                    None => self,
                },
            )
        } else if c == 'v' {
            self.toggle_diagrams()
        } else if c == 'o' && ctrl {
            self.go_back()
        } else if c == 'o' {
            stay(self.enter_follow_mode())
        } else if c == '/' || c == '?' {
            stay(self.set_mode(ModeView::Prompt { backward: c == '?', buf: seq![] }))
        } else if c == 'n' || c == 'N' {
            stay(self.next_match(c == 'n'))
        } else if c == ']' || c == '}' {
            stay(self.jump_heading(true))
        } else if c == '[' || c == '{' {
            stay(self.jump_heading(false))
        } else if c == 't' {
            stay(self.enter_toc())
        } else if c == 'h' {
            stay(self.set_mode(ModeView::Help))
        } else {
            stay(self)
        }
    }

    /// A command key, with the count typed in front of it still there.
    pub open spec fn command(self, key: Key) -> (PagerView, ActionView) {
        match key.code {
            KeyCode::Char(c) => self.letter(c, key.ctrl),
            KeyCode::Down => self.letter('j', false),
            KeyCode::Enter => self.letter('j', false),
            KeyCode::Up => self.letter('k', false),
            KeyCode::PageDown => self.letter('f', false),
            KeyCode::PageUp => self.letter('b', false),
            KeyCode::Home => self.letter('g', false),
            KeyCode::End => self.letter('G', false),
            KeyCode::Backspace => self.go_back(),
            KeyCode::F(n) => if n == 1 {
                self.letter('h', false)
            } else {
                (self, ActionView::Stay)
            },
            _ => (self, ActionView::Stay),
        }
    }

    /// A key in normal mode: a digit adds to the count, and a command uses it up.
    pub open spec fn key_normal(self, key: Key) -> (PagerView, ActionView) {
        match key.code {
            KeyCode::Char(c) if strings::is_digit(c) && !key.ctrl => (
                PagerView { count: self.count.push(c), ..self },
                ActionView::Stay,
            ),
            _ => {
                let (p, a) = self.command(key);
                (PagerView { count: seq![], ..p }, a)
            },
        }
    }

    /// A key at the search prompt.
    pub open spec fn key_prompt(self, backward: bool, buf: Seq<char>, key: Key) -> PagerView {
        match key.code {
            KeyCode::Esc => self.set_mode(ModeView::Normal),
            KeyCode::Backspace => if buf.len() == 0 {
                self.set_mode(ModeView::Normal)
            } else {
                self.set_mode(ModeView::Prompt { backward, buf: buf.drop_last() })
            },
            KeyCode::Enter => {
                let p = self.set_mode(ModeView::Normal);
                if buf.len() == 0 {
                    p
                } else {
                    p.do_search(buf, backward)
                }
            },
            KeyCode::Char(c) => if c == 'c' && key.ctrl {
                self.set_mode(ModeView::Normal)
            } else {
                self.set_mode(ModeView::Prompt { backward, buf: buf.push(c) })
            },
            _ => self,
        }
    }

    /// A key in the table of contents.
    pub open spec fn key_toc(self, sel: usize, key: Key) -> PagerView {
        let last = if self.doc.headings.len() == 0 {
            0
        } else {
            (self.doc.headings.len() - 1) as usize
        };
        let pick = |i: usize| self.set_mode(ModeView::Toc { sel: i });
        let code = key.code;
        if code == KeyCode::Char('j') || code == KeyCode::Down {
            pick(
                if sel >= last {
                    last
                } else {
                    (sel + 1) as usize
                },
            )
        } else if code == KeyCode::Char('k') || code == KeyCode::Up {
            pick(
                if sel == 0 {
                    0
                } else {
                    (sel - 1) as usize
                },
            )
        } else if code == KeyCode::Char('g') || code == KeyCode::Home {
            pick(0)
        } else if code == KeyCode::Char('G') || code == KeyCode::End {
            pick(last)
        } else if code == KeyCode::Enter {
            let p = self.set_mode(ModeView::Normal);
            if sel < self.doc.headings.len() {
                p.go_to(self.doc.headings[sel as int].line as int)
            } else {
                p
            }
        } else if code == KeyCode::Esc || code == KeyCode::Char('q') || code == KeyCode::Char(
            't',
        ) {
            self.set_mode(ModeView::Normal)
        } else {
            self
        }
    }

    /// A key that picks a link.
    pub open spec fn key_follow(self, targets: Seq<TargetView>, key: Key) -> (
        PagerView,
        ActionView,
    ) {
        let p = self.set_mode(ModeView::Normal);
        match key.code {
            KeyCode::Char(c) => match target_at(targets, c, 0) {
                Some(url) => p.follow_link(url),
                None => (p, ActionView::Stay),
            },
            _ => (p, ActionView::Stay),
        }
    }

    /// A key, in whatever mode.
    pub open spec fn key(self, key: Key) -> (PagerView, ActionView) {
        let p = PagerView { message: None, ..self };
        match self.mode {
            ModeView::Normal => p.key_normal(key),
            ModeView::Prompt { backward, buf } => (
                p.key_prompt(backward, buf, key),
                ActionView::Stay,
            ),
            ModeView::Toc { sel } => (p.key_toc(sel, key), ActionView::Stay),
            ModeView::Help => (p.set_mode(ModeView::Normal), ActionView::Stay),
            ModeView::Follow { targets } => p.key_follow(targets, key),
        }
    }

    /// What to do next, after events that may have changed what is shown.
    pub open spec fn step(self, changed: bool) -> Step {
        if self.images_stale {
            Step::Sync
        } else if self.quit {
            Step::Leave
        } else if changed {
            Step::Draw
        } else {
            Step::Wait
        }
    }

    /// The images of the document brought to the terminal.
    pub open spec fn sync_images(self) -> (PagerView, Seq<u8>) {
        let (out, known) = synced(self.doc.images, self.transmitted, self.doc.images.len());
        (PagerView { transmitted: known, images_stale: false, ..self }, out)
    }
}

} // verus!
