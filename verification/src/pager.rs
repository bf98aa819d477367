//! The pager: what is shown, and what keys do.

use vstd::prelude::*;
use std::collections::HashSet;
use crate::config::Config;
use crate::geometry;
use crate::geometry::wrap_width;
use crate::kitty;
use crate::pager_view;
use crate::pager_view::{
    ActionView, HistoryView, ModeView, PagerView, SearchView, TargetView, ThenView,
};
use crate::render;
use crate::render::{Document, RenderOpts};
use crate::search;
use crate::search::nearest_match;
use crate::slug::slugify;
use crate::state::{DocumentView, ImageMode, TermTheme};
use crate::strings;
use crate::strings::str_eq;
use crate::text;

pub use crate::pager_view::{Key, KeyCode, Step};
pub use crate::search::{find_matches, segment};

pub mod draw;
pub mod keys;

verus! {

broadcast use {strings::group_views, vstd::std_specs::hash::group_hash_axioms};

/// One followable link currently on screen.
pub struct LinkTarget {
    pub label: char,
    /// Screen row (0-based, within the content area).
    pub row: u16,
    /// Display column of the link's first cell, before the margin shift.
    pub col: u16,
    pub url: String,
}

impl View for LinkTarget {
    type V = TargetView;

    open spec fn view(&self) -> TargetView {
        TargetView { label: self.label, row: self.row, col: self.col, url: self.url@ }
    }
}

/// What keys mean at the moment.
pub enum Mode {
    Normal,
    Prompt { backward: bool, buf: String },
    Toc { sel: usize },
    Help,
    /// Link-follow: labels overlaid on the visible links; next key picks one.
    Follow { targets: Vec<LinkTarget> },
}

impl View for Mode {
    type V = ModeView;

    open spec fn view(&self) -> ModeView {
        match self {
            Mode::Normal => ModeView::Normal,
            Mode::Prompt { backward, buf } => ModeView::Prompt { backward: *backward, buf: buf@ },
            Mode::Toc { sel } => ModeView::Toc { sel: *sel },
            Mode::Help => ModeView::Help,
            Mode::Follow { targets } => ModeView::Follow { targets: strings::views(targets@) },
        }
    }
}

/// A document the user navigated away from, for the back stack.
pub struct HistoryEntry {
    pub source: String,
    pub title: String,
    pub base: Option<String>,
    pub resolve_links: bool,
    pub top: usize,
}

impl View for HistoryEntry {
    type V = HistoryView;

    open spec fn view(&self) -> HistoryView {
        HistoryView {
            source: self.source@,
            title: self.title@,
            base: text::opt_view(self.base),
            resolve_links: self.resolve_links,
            top: self.top as nat,
        }
    }
}

/// A search that found something.
pub struct Search {
    query: String,
    /// (line index, byte start, byte end) into each line's plain text.
    matches: Vec<(usize, usize, usize)>,
    cur: usize,
}

impl View for Search {
    type V = SearchView;

    closed spec fn view(&self) -> SearchView {
        SearchView { query: self.query@, matches: self.matches@, cur: self.cur as int }
    }
}

impl Search {
    #[verifier::type_invariant]
    spec fn is_at_a_match(self) -> bool {
        self.cur < self.matches@.len() && search::sorted(self.matches@)
    }
}

/// Where a new rendering is to be shown.
pub enum Then {
    /// Where the old one stood in proportion: at a line, of so many lines.
    Proportion(usize, usize),
    /// At the start, or at the heading that a fragment leads to.
    Start(Option<String>),
    /// At a line.
    At(usize),
}

impl View for Then {
    type V = ThenView;

    open spec fn view(&self) -> ThenView {
        match self {
            Then::Proportion(top, len) => ThenView::Proportion(*top as nat, *len as nat),
            Then::Start(f) => ThenView::Start(text::opt_view(*f)),
            Then::At(line) => ThenView::At(*line as nat),
        }
    }
}

/// What is left to do after a key.
pub enum Action {
    Stay,
    /// The document is to be rendered and shown.
    Render(Then),
    /// A document is to be loaded from a path, and shown from a fragment on.
    Load(String, Option<String>),
    /// A file, given by path and URL, is to be opened if it exists.
    OpenFile(String, String),
    /// A URL is to be opened.
    Open(String),
}

impl View for Action {
    type V = ActionView;

    open spec fn view(&self) -> ActionView {
        match self {
            Action::Stay => ActionView::Stay,
            Action::Render(t) => ActionView::Render(t@),
            Action::Load(path, f) => ActionView::Load(path@, text::opt_view(*f)),
            Action::OpenFile(path, url) => ActionView::OpenFile(path@, url@),
            Action::Open(url) => ActionView::Open(url@),
        }
    }
}

/// The pager's state. Rendering, loading and opening are done elsewhere, as the
/// actions that keys return ask for.
pub struct Pager {
    source: String,
    title: String,
    cfg: Config,
    base: Option<String>,
    resolve_links: bool,
    theme: TermTheme,
    back_stack: Vec<HistoryEntry>,
    image_mode: ImageMode,
    /// Image ids already transmitted to the terminal this session.
    transmitted: HashSet<u32>,
    doc: Document,
    /// When false, mermaid/latex blocks show their source instead.
    diagrams: bool,
    /// Set when a re-render may have introduced images the terminal has not
    /// been sent yet; syncing clears it.
    images_stale: bool,
    top: usize,
    w: u16,
    h: u16,
    mode: Mode,
    count: String,
    search: Option<Search>,
    message: Option<String>,
    quit: bool,
}

impl View for Pager {
    type V = PagerView;

    closed spec fn view(&self) -> PagerView {
        PagerView {
            source: self.source@,
            title: self.title@,
            cfg: self.cfg@,
            base: text::opt_view(self.base),
            resolve_links: self.resolve_links,
            theme: self.theme,
            back_stack: strings::views(self.back_stack@),
            image_mode: self.image_mode,
            transmitted: self.transmitted@,
            doc: self.doc@,
            diagrams: self.diagrams,
            images_stale: self.images_stale,
            top: self.top as nat,
            w: self.w,
            h: self.h,
            mode: self.mode@,
            count: self.count@,
            search: render::opt(self.search),
            message: text::opt_view(self.message),
            quit: self.quit,
        }
    }
}

fn clone_opt(s: &Option<String>) -> (r: Option<String>)
    ensures
        text::opt_view(r) == text::opt_view(*s),
{
    match s {
        Some(t) => Some(t.clone()),
        None => None,
    }
}

/// The pager of a document that was not rendered yet, on a terminal of a size.
pub open spec fn opened(
    source: Seq<char>,
    title: Seq<char>,
    cfg: crate::config::ConfigView,
    base: Option<Seq<char>>,
    resolve_links: bool,
    theme: TermTheme,
    size: (u16, u16),
    image_mode: ImageMode,
) -> PagerView {
    PagerView {
        source,
        title,
        cfg,
        base,
        resolve_links,
        theme,
        back_stack: seq![],
        image_mode,
        transmitted: Set::empty(),
        doc: DocumentView { lines: seq![], headings: seq![], images: seq![] },
        diagrams: cfg.default_view != "text"@,
        images_stale: false,
        top: 0,
        w: if size.0 == 0 {
            80
        } else {
            size.0
        },
        h: if size.1 == 0 {
            24
        } else {
            size.1
        },
        mode: ModeView::Normal,
        count: seq![],
        search: None,
        message: None,
        quit: false,
    }
}

impl Pager {
    /// The pager of a document that was not rendered yet.
    pub fn new(
        source: &str,
        title: &str,
        cfg: Config,
        base: Option<String>,
        resolve_links: bool,
        theme: TermTheme,
        size: (u16, u16),
        image_mode: ImageMode,
    ) -> (r: Pager)
        ensures
            r@ == opened(
                source@,
                title@,
                cfg@,
                text::opt_view(base),
                resolve_links,
                theme,
                size,
                image_mode,
            ),
    {
        let (w, h) = geometry::known_size(size.0, size.1);
        let diagrams = !str_eq(cfg.default_view.as_str(), "text");
        let r = Pager {
            source: source.to_owned(),
            title: title.to_owned(),
            cfg,
            base,
            resolve_links,
            theme,
            back_stack: Vec::new(),
            image_mode,
            transmitted: HashSet::new(),
            doc: Document { lines: Vec::new(), headings: Vec::new(), images: Vec::new() },
            diagrams,
            images_stale: false,
            top: 0,
            w,
            h,
            mode: Mode::Normal,
            count: String::new(),
            search: None,
            message: None,
            quit: false,
        };
        assert(r@ =~= opened(
            source@,
            title@,
            cfg@,
            text::opt_view(base),
            resolve_links,
            theme,
            size,
            image_mode,
        ));
        r
    }

    /// The markdown source of the document at hand.
    pub fn source(&self) -> (r: &str)
        ensures
            r@ == self@.source,
    {
        self.source.as_str()
    }

    /// Whether the user asked to leave.
    pub fn quits(&self) -> (r: bool)
        ensures
            r == self@.quit,
    {
        self.quit
    }

    /// Whether the terminal may not have been sent all images.
    pub fn images_are_stale(&self) -> (r: bool)
        ensures
            r == self@.images_stale,
    {
        self.images_stale
    }

    /// What to do next, after events that may have changed what is shown: images
    /// are sent before anything is drawn, and nothing is drawn for a user who asked
    /// to leave.
    pub fn step(&self, changed: bool) -> (r: Step)
        ensures
            r == self@.step(changed),
    {
        if self.images_stale {
            Step::Sync
        } else if self.quit {
            Step::Leave
        } else if changed {
            Step::Draw
        } else {
            Step::Wait
        }
    }

    /// The size of the terminal.
    pub fn size(&self) -> (r: (u16, u16))
        ensures
            r == (self@.w, self@.h),
    {
        (self.w, self.h)
    }

    /// The number of lines of the document.
    pub fn line_count(&self) -> (r: usize)
        ensures
            r == self@.doc.lines.len(),
    {
        self.doc.lines.len()
    }

    /// What shapes a render of the document at hand.
    pub fn render_opts(&self) -> (r: RenderOpts)
        ensures
            r@ == self@.render_opts(),
    {
        RenderOpts {
            width: wrap_width(&self.cfg, self.w),
            base: clone_opt(&self.base),
            image_mode: self.image_mode,
            diagrams: self.diagrams,
            resolve_links: self.resolve_links,
            theme: self.theme,
        }
    }

    pub(crate) fn content_h(&self) -> (r: usize)
        ensures
            r == self@.content_h(),
            1 <= r <= 65534,
    {
        if self.h <= 2 {
            1
        } else {
            (self.h - 1) as usize
        }
    }

    pub(crate) fn max_top(&self) -> (r: usize)
        ensures
            r == self@.max_top(),
    {
        let n: usize = self.doc.lines.len();
        let h: usize = self.content_h();
        if n <= h {
            0
        } else {
            n - h
        }
    }

    /// Makes a line the top line, as far as the document scrolls.
    pub(crate) fn go_to(&mut self, line: usize)
        ensures
            final(self)@ == old(self)@.go_to(line as int),
    {
        let max: usize = self.max_top();
        self.top = if line > max {
            max
        } else {
            line
        };
        assert(self@ =~= old(self)@.go_to(line as int));
    }

    pub(crate) fn scroll_down(&mut self, n: usize)
        ensures
            final(self)@ == old(self)@.scroll(n as int),
    {
        let max: usize = self.max_top();
        self.top = if self.top > max || n > max - self.top {
            max
        } else {
            self.top + n
        };
        assert(self@ =~= old(self)@.scroll(n as int));
    }

    pub(crate) fn scroll_up(&mut self, n: usize)
        ensures
            final(self)@ == old(self)@.scroll(-(n as int)),
    {
        let line: usize = if n > self.top {
            0
        } else {
            self.top - n
        };
        self.go_to(line);
        assert(self@ =~= old(self)@.scroll(-(n as int)));
    }

    pub(crate) fn say(&mut self, message: String)
        ensures
            final(self)@ == old(self)@.say(message@),
    {
        self.message = Some(message);
        assert(self@ =~= old(self)@.say(message@));
    }

    pub(crate) fn set_mode(&mut self, mode: Mode)
        ensures
            final(self)@ == old(self)@.set_mode(mode@),
    {
        self.mode = mode;
        assert(self@ =~= old(self)@.set_mode(mode@));
    }

    fn again(&self) -> (r: Action)
        ensures
            r@ == self@.again(),
    {
        let n: usize = self.doc.lines.len();
        Action::Render(
            Then::Proportion(
                self.top,
                if n < 1 {
                    1
                } else {
                    n
                },
            ),
        )
    }

    /// Toggles mermaid/latex blocks between rendered diagrams and their
    /// source, keeping the viewport position proportionally.
    pub(crate) fn toggle_diagrams(&mut self) -> (r: Action)
        ensures
            (final(self)@, r@) == old(self)@.toggle_diagrams(),
    {
        let action = self.again();
        self.diagrams = !self.diagrams;
        self.images_stale = true;
        assert(self@ =~= PagerView {
            diagrams: !old(self)@.diagrams,
            images_stale: true,
            ..old(self)@
        });
        self.say(
            if self.diagrams {
                "diagrams: rendered".to_owned()
            } else {
                "diagrams: source".to_owned()
            },
        );
        action
    }

    /// Takes in the size of the terminal and how images are drawn on it. The
    /// document is then to be rendered anew.
    pub fn resize(&mut self, w: u16, h: u16, image_mode: ImageMode) -> (r: Action)
        ensures
            (final(self)@, r@) == old(self)@.resize(w, h, image_mode),
    {
        let action = self.again();
        let (w, h) = geometry::known_size(w, h);
        self.w = w;
        self.h = h;
        self.image_mode = image_mode;
        self.images_stale = true;
        assert(self@ =~= old(self)@.resize(w, h, image_mode).0);
        action
    }

    /// Re-runs the current search against the active view's lines.
    fn research(&mut self)
        ensures
            final(self)@ == old(self)@.research(),
    {
        match self.search.take() {
            Some(s) => {
                let matches = find_matches(self.doc.lines.as_slice(), s.query.as_str());
                proof {
                    assert(self.doc.lines.len() <= usize::MAX);
                    search::matches_are_sorted(self.doc@.lines, s.query@);
                }
                if matches.len() > 0 {
                    let cur: usize = nearest_match(matches.as_slice(), self.top);
                    self.search = Some(Search { query: s.query, matches, cur });
                }
            },
            None => {},
        }
        assert(self@ =~= old(self)@.research());
    }

    /// Shows a new rendering. `guess` is the line that stands where the top line
    /// stood, in proportion, where that was asked for.
    pub fn show(&mut self, doc: Document, then_: Then, guess: usize)
        ensures
            final(self)@ == old(self)@.show(doc@, then_@, guess as nat),
    {
        let ghost was = self@;
        self.doc = doc;
        assert(self@ =~= PagerView { doc: doc@, ..was });
        match then_ {
            Then::Proportion(_, _) => {
                self.go_to(guess);
                self.research();
            },
            Then::Start(fragment) => {
                self.top = 0;
                self.search = None;
                self.images_stale = true;
                assert(self@ =~= PagerView {
                    doc: doc@,
                    top: 0,
                    search: None,
                    images_stale: true,
                    ..was
                });
                if let Some(f) = fragment {
                    self.jump_fragment(f.as_str());
                }
            },
            Then::At(line) => {
                self.search = None;
                self.images_stale = true;
                assert(self@ =~= PagerView {
                    doc: doc@,
                    search: None,
                    images_stale: true,
                    ..was
                });
                self.go_to(line);
            },
        }
    }

    /// Jumps to the heading whose GitHub-style slug (or text) matches.
    pub(crate) fn jump_fragment(&mut self, fragment: &str)
        ensures
            final(self)@ == old(self)@.jump_fragment(fragment@),
    {
        let want = strings::to_lower(fragment);
        let ghost hs = self@.doc.headings;
        let mut i: usize = 0;
        while i < self.doc.headings.len()
            invariant
                i <= self.doc.headings@.len(),
                hs == strings::views(self.doc.headings@),
                self@ == old(self)@,
                want@ == strings::lowered(fragment@),
                pager_view::fragment_line(hs, fragment@, 0) == pager_view::fragment_line(
                    hs,
                    fragment@,
                    i as int,
                ),
            decreases self.doc.headings@.len() - i,
        {
            let title = self.doc.headings[i].text.as_str();
            assert(hs[i as int] == self.doc.headings@[i as int]@);
            if slugify(title) == want || strings::to_lower(title) == want {
                let line: usize = self.doc.headings[i].line;
                self.go_to(line);
                return ;
            }
            i = i + 1;
        }
        let mut m: String = "No heading #".to_owned();
        m.push_str(fragment);
        self.say(m);
    }

    /// The line of the first heading below the top line.
    fn heading_below(&self) -> (r: Option<usize>)
        ensures
            (match r {
                Some(l) => Some(l as nat),
                None => None,
            }) == pager_view::heading_below(self@.doc.headings, self@.top, 0),
    {
        let ghost hs = self@.doc.headings;
        let mut i: usize = 0;
        while i < self.doc.headings.len()
            invariant
                i <= self.doc.headings@.len(),
                hs == strings::views(self.doc.headings@),
                pager_view::heading_below(hs, self.top as nat, 0) == pager_view::heading_below(
                    hs,
                    self.top as nat,
                    i as int,
                ),
            decreases self.doc.headings@.len() - i,
        {
            assert(hs[i as int] == self.doc.headings@[i as int]@);
            if self.doc.headings[i].line > self.top {
                return Some(self.doc.headings[i].line);
            }
            i = i + 1;
        }
        None
    }

    /// The line of the last heading above the top line.
    fn heading_above(&self) -> (r: Option<usize>)
        ensures
            (match r {
                Some(l) => Some(l as nat),
                None => None,
            }) == pager_view::heading_above(self@.doc.headings, self@.top),
    {
        let ghost hs = self@.doc.headings;
        let mut n: usize = self.doc.headings.len();
        assert(hs.take(n as int) =~= hs);
        while n > 0
            invariant
                n <= self.doc.headings@.len(),
                hs == strings::views(self.doc.headings@),
                pager_view::heading_above(hs, self.top as nat) == pager_view::heading_above(
                    hs.take(n as int),
                    self.top as nat,
                ),
            decreases n,
        {
            assert(hs.take(n as int).last() == self.doc.headings@[n - 1]@);
            assert(hs.take(n as int).drop_last() =~= hs.take(n - 1));
            if self.doc.headings[n - 1].line < self.top {
                return Some(self.doc.headings[n - 1].line);
            }
            n = n - 1;
        }
        None
    }

    pub(crate) fn jump_heading(&mut self, forward: bool)
        ensures
            final(self)@ == old(self)@.jump_heading(forward),
    {
        let target = if forward {
            self.heading_below()
        } else {
            self.heading_above()
        };
        match target {
            Some(line) => self.go_to(line),
            None => self.say("No more headings".to_owned()),
        }
    }

    /// Opens the table of contents.
    pub(crate) fn enter_toc(&mut self)
        ensures
            final(self)@ == old(self)@.enter_toc(),
    {
        let ghost hs = self@.doc.headings;
        let mut n: usize = self.doc.headings.len();
        if n == 0 {
            self.say("No headings in this document".to_owned());
            return ;
        }
        assert(hs.take(n as int) =~= hs);
        while n > 0 && self.doc.headings[n - 1].line > self.top
            invariant
                n <= self.doc.headings@.len(),
                hs == strings::views(self.doc.headings@),
                self@ == old(self)@,
                pager_view::heading_at(hs, self.top as nat) == pager_view::heading_at(
                    hs.take(n as int),
                    self.top as nat,
                ),
            decreases n,
        {
            assert(hs.take(n as int).last() == self.doc.headings@[n - 1]@);
            assert(hs.take(n as int).drop_last() =~= hs.take(n - 1));
            n = n - 1;
        }
        assert(n > 0 ==> hs.take(n as int).last() == self.doc.headings@[n - 1]@);
        let sel: usize = if n > 0 {
            n - 1
        } else {
            0
        };
        self.set_mode(Mode::Toc { sel });
    }

    /// Shows the current match, at the top like less does, unless we're near
    /// the end of the document.
    fn goto_match(&mut self)
        ensures
            final(self)@ == old(self)@.goto_match(),
    {
        let line: usize = match &self.search {
            Some(s) => {
                proof {
                    use_type_invariant(s);
                }
                s.matches[s.cur].0
            },
            None => {
                return ;
            },
        };
        self.go_to(line);
    }

    pub(crate) fn do_search(&mut self, query: String, backward: bool)
        ensures
            final(self)@ == old(self)@.do_search(query@, backward),
    {
        let matches = find_matches(self.doc.lines.as_slice(), query.as_str());
        proof {
            assert(self.doc.lines.len() <= usize::MAX);
            search::matches_are_sorted(self.doc@.lines, query@);
        }
        let n: usize = matches.len();
        if n == 0 {
            let mut m: String = "Pattern not found: ".to_owned();
            m.push_str(query.as_str());
            self.search = None;
            assert(self@ =~= PagerView { search: None, ..old(self)@ });
            self.say(m);
            return ;
        }
        let cur: usize = if backward {
            last_above(&matches, self.top)
        } else {
            nearest_match(matches.as_slice(), self.top)
        };
        let s = Search { query, matches, cur };
        let ghost sv = s@;
        self.search = Some(s);
        assert(self@ =~= PagerView { search: Some(sv), ..old(self)@ });
        self.goto_match();
    }

    pub(crate) fn next_match(&mut self, forward: bool)
        ensures
            final(self)@ == old(self)@.next_match(forward),
    {
        let s = match self.search.take() {
            Some(s) => s,
            None => {
                self.say("No previous search".to_owned());
                return ;
            },
        };
        proof {
            use_type_invariant(&s);
        }
        let ghost was = s@;
        let last: usize = s.matches.len() - 1;
        let (cur, wrapped) = if forward && s.cur >= last {
            (0, true)
        } else if forward {
            (s.cur + 1, false)
        } else if s.cur == 0 {
            (last, true)
        } else {
            (s.cur - 1, false)
        };
        self.search = Some(Search { query: s.query, matches: s.matches, cur });
        assert(self@ =~= PagerView {
            search: Some(SearchView { cur: cur as int, ..was }),
            ..old(self)@
        });
        if wrapped {
            self.say("(search wrapped)".to_owned());
        }
        self.goto_match();
    }

    /// Takes in a document that was loaded; the current one goes onto the back
    /// stack. The new one is then to be rendered.
    pub fn navigate_to(
        &mut self,
        source: String,
        title: String,
        base: Option<String>,
        fragment: Option<String>,
    ) -> (r: Action)
        ensures
            (final(self)@, r@) == old(self)@.navigate_to(
                source@,
                title@,
                text::opt_view(base),
                text::opt_view(fragment),
            ),
    {
        let entry = HistoryEntry {
            source: self.source.clone(),
            title: self.title.clone(),
            base: clone_opt(&self.base),
            resolve_links: self.resolve_links,
            top: self.top,
        };
        self.back_stack.push(entry);
        self.source = source;
        self.title = title;
        self.base = base;
        self.resolve_links = true; // navigated docs always have a real base
        assert(self@ =~= old(self)@.navigate_to(
            source@,
            title@,
            text::opt_view(base),
            text::opt_view(fragment),
        ).0);
        Action::Render(Then::Start(fragment))
    }

    /// Pops the back stack, restoring the previous document and position.
    pub(crate) fn go_back(&mut self) -> (r: Action)
        ensures
            (final(self)@, r@) == old(self)@.go_back(),
    {
        let ghost before = self.back_stack@;
        match self.back_stack.pop() {
            Some(prev) => {
                assert(strings::views(self.back_stack@) =~= strings::views(before).drop_last());
                assert(strings::views(before).last() == prev@);
                let top: usize = prev.top;
                self.source = prev.source;
                self.title = prev.title;
                self.base = prev.base;
                self.resolve_links = prev.resolve_links;
                assert(self@ =~= old(self)@.go_back().0);
                Action::Render(Then::At(top))
            },
            None => {
                self.say("No previous document".to_owned());
                Action::Stay
            },
        }
    }

    /// Tells that a document could not be loaded, and why.
    pub fn load_failed(&mut self, path: &str, error: &str)
        ensures
            final(self)@ == old(self)@.say(path@ + ": "@ + error@),
    {
        let mut m: String = path.to_owned();
        m.push_str(": ");
        m.push_str(error);
        self.say(m);
    }

    /// Tells that a file does not exist.
    pub fn not_found(&mut self, path: &str)
        ensures
            final(self)@ == old(self)@.say("Not found: "@ + path@),
    {
        let mut m: String = "Not found: ".to_owned();
        m.push_str(path);
        self.say(m);
    }

    /// Tells that a URL was handed to the opener.
    pub fn opened(&mut self, url: &str)
        ensures
            final(self)@ == old(self)@.say("Opened "@ + url@),
    {
        let mut m: String = "Opened ".to_owned();
        m.push_str(url);
        self.say(m);
    }

    /// Transmits any images the terminal hasn't seen and (re)creates their
    /// virtual placements. Placeholder cells in the document do the rest.
    pub fn sync_images(&mut self, out: &mut Vec<u8>)
        ensures
            final(self)@ == old(self)@.sync_images().0,
            final(out)@ == old(out)@ + old(self)@.sync_images().1,
    {
        let ghost ims = self@.doc.images;
        let ghost known = self@.transmitted;
        let ghost start = out@;
        let mut i: usize = 0;
        assert(start + Seq::<u8>::empty() =~= start);
        while i < self.doc.images.len()
            invariant
                i <= self.doc.images@.len(),
                ims == strings::views(self.doc.images@),
                start == old(out)@,
                known == old(self)@.transmitted,
                ims == old(self)@.doc.images,
                self@ == (PagerView { transmitted: self.transmitted@, ..old(self)@ }),
                self.transmitted@ == pager_view::synced(ims, known, i as nat).1,
                out@ == start + pager_view::synced(ims, known, i as nat).0,
            decreases self.doc.images@.len() - i,
        {
            let id: u32 = self.doc.images[i].id;
            assert(ims[i as int] == self.doc.images@[i as int]@);
            let ghost prior = pager_view::synced(ims, known, i as nat).0;
            let ghost sent = if self.transmitted@.contains(id) {
                seq![]
            } else {
                kitty::transmission(id, kitty::base64_standard(ims[i as int].png))
            };
            let ghost was = self.transmitted@;
            if self.transmitted.insert(id) {
                kitty::transmit(out, id, self.doc.images[i].png.as_slice());
            }
            assert(self.transmitted@ == was.insert(id));
            assert(out@ =~= start + prior + sent);
            kitty::place(out, id, self.doc.images[i].cols, self.doc.images[i].rows);
            proof {
                let placed = vstd::utf8::encode_utf8(
                    kitty::placement(id, ims[i as int].cols, ims[i as int].rows),
                );
                assert(start + prior + sent + placed =~= start + (prior + sent + placed));
            }
            i = i + 1;
        }
        self.images_stale = false;
        assert(self@ =~= old(self)@.sync_images().0);
    }
}

/// The last match above a line; the last of all where there is none.
fn last_above(matches: &Vec<(usize, usize, usize)>, top: usize) -> (r: usize)
    requires
        matches@.len() > 0,
    ensures
        r == pager_view::match_above(matches@, top as nat, matches@.len() as int),
        r < matches@.len(),
{
    let mut n: usize = matches.len();
    while n > 0
        invariant
            n <= matches@.len(),
            pager_view::match_above(matches@, top as nat, matches@.len() as int)
                == pager_view::match_above(matches@, top as nat, n as int),
        decreases n,
    {
        if matches[n - 1].0 < top {
            return n - 1;
        }
        n = n - 1;
    }
    matches.len() - 1
}

} // verus!
