//! What keys do.

use vstd::prelude::*;
use super::{Action, LinkTarget, Mode, Pager};
use crate::geometry::effective_margin;
use crate::numbers;
use crate::pager_view;
use crate::pager_view::{ActionView, Gather, Key, KeyCode, ModeView, PagerView};
use crate::paths;
use crate::strings;
use crate::strings::{find_from, from_chars, str_eq, to_chars};
use crate::text;
use crate::text::{Line, SpanView};

verus! {

broadcast use strings::group_views;

fn label(i: usize) -> (r: char)
    requires
        i < 52,
    ensures
        r == pager_view::label(i as int),
{
    if i < 26 {
        (97 + i as u8) as char
    } else {
        (65 + (i - 26) as u8) as char
    }
}

/// Whether a link differs from the one before it.
fn is_fresh(link: &Option<String>, prev: &Option<String>) -> (r: bool)
    ensures
        r == (text::opt_view(*link) is Some && text::opt_view(*prev) != text::opt_view(*link)),
{
    match link {
        Some(url) => match prev {
            Some(p) => !str_eq(url.as_str(), p.as_str()),
            None => true,
        },
        None => false,
    }
}

proof fn full_stays(g: Gather, spans: Seq<SpanView>, row: int, visible: nat, n: int)
    requires
        0 <= n <= spans.len(),
        ({
            let h = pager_view::gather_spans(g, spans.take(n), row, visible);
            h.full || h.col >= visible
        }),
    ensures
        pager_view::gather_spans(g, spans, row, visible) == pager_view::gather_spans(
            g,
            spans.take(n),
            row,
            visible,
        ),
    decreases spans.len(),
{
    if n == spans.len() {
        assert(spans.take(n) =~= spans);
    } else {
        assert(spans.drop_last().take(n) =~= spans.take(n));
        full_stays(g, spans.drop_last(), row, visible, n);
    }
}

/// Adds the links of a line to those on screen; returns whether there are more
/// links than labels.
fn gather_line(targets: &mut Vec<LinkTarget>, line: &Line, row: u16, visible: u16) -> (full: bool)
    requires
        old(targets)@.len() <= 52,
    ensures
        final(targets)@.len() <= 52,
        ({
            let g = Gather {
                targets: strings::views(old(targets)@),
                col: 0,
                prev: None,
                full: false,
            };
            let h = pager_view::gather_spans(g, line@, row as int, visible as nat);
            strings::views(final(targets)@) == h.targets && full == h.full
        }),
{
    let ghost vs = line@;
    let ghost g = Gather {
        targets: strings::views(targets@),
        col: 0,
        prev: None,
        full: false,
    };
    let mut col: u128 = 0;
    let mut prev: Option<String> = None;
    let mut i: usize = 0;
    let n: usize = line.spans.len();
    assert(vs.take(0) =~= seq![]);
    while i < n
        invariant
            i <= n,
            n == line.spans@.len(),
            vs == line@,
            targets@.len() <= 52,
            col <= i * 0xffff_ffff_ffff_ffff,
            g.targets == strings::views(old(targets)@),
            g == (Gather { targets: g.targets, col: 0, prev: None, full: false }),
            ({
                let h = pager_view::gather_spans(
                    g,
                    vs.take(i as int),
                    row as int,
                    visible as nat,
                );
                h == (Gather {
                    targets: strings::views(targets@),
                    col: col as nat,
                    prev: text::opt_view(prev),
                    full: false,
                })
            }),
        decreases n - i,
    {
        if col >= visible as u128 {
            proof {
                full_stays(g, vs, row as int, visible as nat, i as int);
            }
            return false;
        }
        assert(vs.take(i + 1).drop_last() =~= vs.take(i as int));
        let span = &line.spans[i];
        assert(vs[i as int] == span@);
        if is_fresh(&span.style.link, &prev) {
            if targets.len() >= 52 {
                proof {
                    full_stays(g, vs, row as int, visible as nat, i + 1);
                }
                return true;
            }
            if let Some(url) = &span.style.link {
                let target = LinkTarget {
                    label: label(targets.len()),
                    row,
                    col: col as u16,
                    url: url.clone(),
                };
                targets.push(target);
            }
        }
        prev = super::clone_opt(&span.style.link);
        let w: usize = span.width();
        col = col + w as u128;
        i = i + 1;
    }
    assert(vs.take(i as int) =~= vs);
    false
}

proof fn rows_stay(lines: Seq<Seq<SpanView>>, top: nat, visible: nat, n: nat, m: nat)
    requires
        n <= m,
        pager_view::gather_rows(lines, top, visible, n).full || top + n >= lines.len(),
    ensures
        pager_view::gather_rows(lines, top, visible, m) == pager_view::gather_rows(
            lines,
            top,
            visible,
            n,
        ),
    decreases m,
{
    if n < m {
        rows_stay(lines, top, visible, n, (m - 1) as nat);
    }
}

impl Pager {
    /// The links visible on screen.
    fn visible_links(&self) -> (r: Vec<LinkTarget>)
        ensures
            strings::views(r@) == pager_view::gather_rows(
                self@.doc.lines,
                self@.top,
                self@.visible(),
                self@.content_h(),
            ).targets,
    {
        let visible: u16 = self.w - effective_margin(&self.cfg, self.w);
        let rows: usize = self.content_h();
        let n: usize = self.doc.lines.len();
        let ghost ls = self@.doc.lines;
        let mut targets: Vec<LinkTarget> = Vec::new();
        let mut row: usize = 0;
        while row < rows
            invariant
                row <= rows <= 65534,
                rows == self@.content_h(),
                visible == self@.visible(),
                n == self.doc.lines@.len(),
                ls == self@.doc.lines,
                ls == strings::views(self.doc.lines@),
                targets@.len() <= 52,
                ({
                    let g = pager_view::gather_rows(ls, self.top as nat, visible as nat, row as nat);
                    g.targets == strings::views(targets@) && !g.full
                }),
            decreases rows - row,
        {
            if self.top >= n || row >= n - self.top {
                proof {
                    rows_stay(ls, self.top as nat, visible as nat, row as nat, rows as nat);
                }
                return targets;
            }
            let line = &self.doc.lines[self.top + row];
            assert(ls[self.top + row] == line@);
            let ghost g = pager_view::gather_rows(ls, self.top as nat, visible as nat, row as nat);
            assert((Gather { col: 0, prev: None, ..g }) =~= Gather {
                targets: strings::views(targets@),
                col: 0,
                prev: None,
                full: false,
            });
            let full = gather_line(&mut targets, line, row as u16, visible);
            if full {
                proof {
                    rows_stay(ls, self.top as nat, visible as nat, (row + 1) as nat, rows as nat);
                }
                return targets;
            }
            row = row + 1;
        }
        targets
    }

    /// Collects the links visible on screen and overlays selection labels.
    pub(crate) fn enter_follow_mode(&mut self)
        ensures
            final(self)@ == old(self)@.enter_follow_mode(),
    {
        let targets = self.visible_links();
        if targets.len() == 0 {
            self.say("No links on screen".to_owned());
        } else {
            self.set_mode(Mode::Follow { targets });
        }
    }

    /// Dispatches a followed link by target kind.
    pub(crate) fn follow_link(&mut self, url: &str) -> (r: Action)
        ensures
            (final(self)@, r@) == old(self)@.follow_link(url@),
    {
        let chars = to_chars(url);
        let n: usize = chars.len();
        if n > 0 && chars[0] == '#' {
            let fragment = from_chars(&chars, 1, n);
            assert(fragment@ =~= url@.skip(1));
            self.jump_fragment(fragment.as_str());
            return Action::Stay;
        }
        if strings::starts_with(url, "file://") {
            proof {
                reveal_strlit("file://");
            }
            let rest = from_chars(&chars, 7, n);
            assert(rest@ =~= url@.skip(7));
            let rest_chars = to_chars(rest.as_str());
            let m: usize = rest_chars.len();
            let cut: usize = find_from(&rest_chars, '#', 0);
            let path = from_chars(&rest_chars, 0, cut);
            assert(path@ =~= rest@.take(cut as int));
            if paths::is_markdown(path.as_str()) {
                let fragment = if cut < m {
                    let f = from_chars(&rest_chars, cut + 1, m);
                    assert(f@ =~= rest@.skip(cut + 1));
                    Some(f)
                } else {
                    None
                };
                return Action::Load(path, fragment);
            }
            return Action::OpenFile(path, url.to_owned());
        }
        Action::Open(url.to_owned())
    }

    /// The count that was typed in front of a command.
    fn counted(&self) -> (r: Option<usize>)
        ensures
            (match r {
                Some(n) => Some(n as nat),
                None => None,
            }) == self@.counted(),
    {
        match numbers::parse(self.count.as_str(), 10, usize::MAX as u64) {
            Some(n) => Some(n as usize),
            None => None,
        }
    }

    /// Goes to a percentage of the document.
    fn go_to_percent(&mut self, n: usize)
        ensures
            final(self)@ == old(self)@.go_to(
                old(self)@.doc.lines.len() * (if n < 100 {
                    n as int
                } else {
                    100
                }) / 100,
            ),
    {
        let percent: u128 = if n < 100 {
            n as u128
        } else {
            100
        };
        let len: usize = self.doc.lines.len();
        assert(len * percent <= len * 100) by (nonlinear_arith)
            requires
                percent <= 100,
        ;
        let line: u128 = len as u128 * percent / 100;
        assert(line <= len);
        self.go_to(line as usize);
    }

    fn key_scroll(&mut self, c: char, ctrl: bool) -> (done: bool)
        ensures
            done ==> (final(self)@, ActionView::Stay) == old(self)@.letter(c, ctrl),
            !done ==> *final(self) == *old(self),
            !done ==> c != 'j' && c != 'k' && c != ' ' && c != 'f' && c != 'b' && c != 'd' && c
                != 'u' && c != 'g' && c != 'G' && c != 'p' && c != '%' && !(c == 'v' && ctrl),
    {
        let page: usize = self.content_h();
        let n = self.counted();
        if c == 'j' {
            self.scroll_down(
                match n {
                    Some(n) => n,
                    None => 1,
                },
            );
        } else if c == 'k' {
            self.scroll_up(
                match n {
                    Some(n) => n,
                    None => 1,
                },
            );
        } else if c == ' ' || c == 'f' || (c == 'v' && ctrl) {
            self.scroll_down(page);
        } else if c == 'b' {
            self.scroll_up(page);
        } else if c == 'd' {
            self.scroll_down(page / 2);
        } else if c == 'u' {
            self.scroll_up(page / 2);
        } else if c == 'g' {
            self.go_to(
                match n {
                    Some(n) => if n > 0 {
                        n - 1
                    } else {
                        0
                    },
                    None => 0,
                },
            );
        } else if c == 'G' {
            let line: usize = match n {
                Some(n) => if n > 0 {
                    n - 1
                } else {
                    0
                },
                None => self.max_top(),
            };
            self.go_to(line);
        } else if c == 'p' || c == '%' {
            if let Some(n) = n {
                self.go_to_percent(n);
            }
        } else {
            return false;
        }
        true
    }

    fn letter(&mut self, c: char, ctrl: bool) -> (r: Action)
        ensures
            (final(self)@, r@) == old(self)@.letter(c, ctrl),
    {
        if ((c == 'q' || c == 'Q') && !ctrl) || (c == 'c' && ctrl) {
            self.quit = true;
            assert(self@ =~= PagerView { quit: true, ..old(self)@ });
            return Action::Stay;
        }
        if self.key_scroll(c, ctrl) {
            return Action::Stay;
        }
        if c == 'v' {
            return self.toggle_diagrams();
        }
        if c == 'o' && ctrl {
            return self.go_back();
        }
        if c == 'o' {
            self.enter_follow_mode();
        } else if c == '/' || c == '?' {
            let buf = String::new();
            assert(buf@ =~= seq![]);
            self.set_mode(Mode::Prompt { backward: c == '?', buf });
        } else if c == 'n' || c == 'N' {
            self.next_match(c == 'n');
        } else if c == ']' || c == '}' {
            self.jump_heading(true);
        } else if c == '[' || c == '{' {
            self.jump_heading(false);
        } else if c == 't' {
            self.enter_toc();
        } else if c == 'h' {
            self.set_mode(Mode::Help);
        }
        Action::Stay
    }

    fn command(&mut self, key: Key) -> (r: Action)
        ensures
            (final(self)@, r@) == old(self)@.command(key),
    {
        match key.code {
            KeyCode::Char(c) => self.letter(c, key.ctrl),
            KeyCode::Down => self.letter('j', false),
            KeyCode::Enter => self.letter('j', false),
            KeyCode::Up => self.letter('k', false),
            KeyCode::PageDown => self.letter('f', false),
            KeyCode::PageUp => self.letter('b', false),
            KeyCode::Home => self.letter('g', false),
            KeyCode::End => self.letter('G', false),
            KeyCode::Backspace => self.go_back(),
            KeyCode::F(n) => {
                if n == 1 {
                    self.letter('h', false)
                } else {
                    Action::Stay
                }
            },
            _ => Action::Stay,
        }
    }

    fn key_normal(&mut self, key: Key) -> (r: Action)
        ensures
            (final(self)@, r@) == old(self)@.key_normal(key),
    {
        if let KeyCode::Char(c) = key.code {
            if '0' <= c && c <= '9' && !key.ctrl {
                self.count.push(c);
                assert(self@ =~= PagerView { count: old(self)@.count.push(c), ..old(self)@ });
                return Action::Stay;
            }
        }
        let action = self.command(key);
        let ghost done = self@;
        self.count = String::new();
        assert(self.count@ =~= seq![]);
        assert(self@ =~= PagerView { count: seq![], ..done });
        action
    }

    fn key_prompt(&mut self, backward: bool, buf: String, key: Key)
        requires
            old(self)@.mode == (ModeView::Prompt { backward, buf: buf@ }),
        ensures
            final(self)@ == old(self)@.key_prompt(backward, buf@, key),
    {
        let mut buf = buf;
        match key.code {
            KeyCode::Esc => self.set_mode(Mode::Normal),
            KeyCode::Backspace => {
                match buf.pop() {
                    None => self.set_mode(Mode::Normal),
                    Some(_) => self.set_mode(Mode::Prompt { backward, buf }),
                }
            },
            KeyCode::Enter => {
                self.set_mode(Mode::Normal);
                if !buf.as_str().is_empty() {
                    self.do_search(buf, backward);
                }
            },
            KeyCode::Char(c) => {
                if c == 'c' && key.ctrl {
                    self.set_mode(Mode::Normal);
                } else {
                    buf.push(c);
                    self.set_mode(Mode::Prompt { backward, buf });
                }
            },
            _ => {},
        }
    }

    fn key_toc(&mut self, sel: usize, key: Key)
        ensures
            final(self)@ == old(self)@.key_toc(sel, key),
    {
        let n: usize = self.doc.headings.len();
        let last: usize = if n == 0 {
            0
        } else {
            n - 1
        };
        let code = key.code;
        if code == KeyCode::Char('j') || code == KeyCode::Down {
            self.set_mode(
                Mode::Toc {
                    sel: if sel >= last {
                        last
                    } else {
                        sel + 1
                    },
                },
            );
        } else if code == KeyCode::Char('k') || code == KeyCode::Up {
            self.set_mode(
                Mode::Toc {
                    sel: if sel == 0 {
                        0
                    } else {
                        sel - 1
                    },
                },
            );
        } else if code == KeyCode::Char('g') || code == KeyCode::Home {
            self.set_mode(Mode::Toc { sel: 0 });
        } else if code == KeyCode::Char('G') || code == KeyCode::End {
            self.set_mode(Mode::Toc { sel: last });
        } else if code == KeyCode::Enter {
            self.set_mode(Mode::Normal);
            if sel < self.doc.headings.len() {
                let line: usize = self.doc.headings[sel].line;
                assert(self@.doc.headings[sel as int] == self.doc.headings@[sel as int]@);
                self.go_to(line);
            }
        } else if code == KeyCode::Esc || code == KeyCode::Char('q') || code == KeyCode::Char('t') {
            self.set_mode(Mode::Normal);
        }
    }

    fn key_follow(&mut self, targets: Vec<LinkTarget>, key: Key) -> (r: Action)
        ensures
            (final(self)@, r@) == old(self)@.key_follow(strings::views(targets@), key),
    {
        self.set_mode(Mode::Normal);
        let ghost ts = strings::views(targets@);
        if let KeyCode::Char(c) = key.code {
            let mut i: usize = 0;
            while i < targets.len()
                invariant
                    i <= targets@.len(),
                    ts == strings::views(targets@),
                    key.code == KeyCode::Char(c),
                    self@ == old(self)@.set_mode(ModeView::Normal),
                    pager_view::target_at(ts, c, 0) == pager_view::target_at(ts, c, i as int),
                decreases targets@.len() - i,
            {
                assert(ts[i as int] == targets@[i as int]@);
                if targets[i].label == c {
                    return self.follow_link(targets[i].url.as_str());
                }
                i = i + 1;
            }
        }
        Action::Stay
    }

    /// Takes in a key. What is left to do is returned.
    pub fn key(&mut self, key: Key) -> (r: Action)
        ensures
            (final(self)@, r@) == old(self)@.key(key),
    {
        self.message = None;
        let ghost fresh = PagerView { message: None, ..old(self)@ };
        assert(self@ =~= fresh);
        let mut mode = Mode::Normal;
        std::mem::swap(&mut mode, &mut self.mode);
        match mode {
            Mode::Normal => {
                assert(self@ =~= fresh);
                self.key_normal(key)
            },
            Mode::Prompt { backward, buf } => {
                let kept = buf.clone();
                self.mode = Mode::Prompt { backward, buf };
                assert(self@ =~= fresh);
                self.key_prompt(backward, kept, key);
                Action::Stay
            },
            Mode::Toc { sel } => {
                self.mode = Mode::Toc { sel };
                assert(self@ =~= fresh);
                self.key_toc(sel, key);
                Action::Stay
            },
            Mode::Help => {
                assert(self@ =~= fresh.set_mode(ModeView::Normal));
                Action::Stay
            },
            Mode::Follow { targets } => {
                assert(self@ =~= fresh.set_mode(ModeView::Normal));
                let ghost ts = strings::views(targets@);
                assert(self@.set_mode(ModeView::Normal) =~= fresh.set_mode(ModeView::Normal));
                self.key_follow(targets, key)
            },
        }
    }
}

} // verus!
