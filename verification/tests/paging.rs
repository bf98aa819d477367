use mdview::config::Config;
use mdview::pager::draw::status_bar;
use mdview::pager::{find_matches, segment, Action, Key, KeyCode, Pager, Step, Then};
use mdview::render::{render, Document, Highlighter, ImageMode, KittyImage, TermTheme};
use mdview::screen::{emit_span, fit, Attr, Op};
use mdview::search::nearest_match;
use mdview::slug::slugify;
use mdview::text::{Color, Line, Span, Style};

fn line(s: &str) -> Line {
    let mut l = Line::default();
    l.push(Span::plain(s));
    l
}

#[test]
fn smartcase_search() {
    let lines = vec![line("Hello World"), line("hello again")];
    let m = find_matches(&lines, "hello");
    assert_eq!(m.len(), 2);
    let m = find_matches(&lines, "Hello");
    assert_eq!(m.len(), 1);
    assert_eq!(m[0].0, 0);
}

#[test]
fn match_offsets_are_byte_ranges() {
    let lines = vec![line("héllo héllo")];
    let m = find_matches(&lines, "héllo");
    assert_eq!(m.len(), 2);
    assert_eq!(&lines[0].plain()[m[0].1..m[0].2], "héllo");
}

#[test]
fn matches_do_not_overlap_and_fold_case() {
    let lines = vec![line("aaaa"), line("ÄÖ äö")];
    assert_eq!(find_matches(&lines, "aa"), vec![(0, 0, 2), (0, 2, 4)]);
    assert_eq!(find_matches(&lines, "äö"), vec![(1, 0, 4), (1, 5, 9)]);
    assert_eq!(find_matches(&lines, "Ä"), vec![(1, 0, 2)]);
    assert!(find_matches(&lines, "").is_empty());
    assert_eq!(nearest_match(&[(2, 0, 1), (5, 0, 1)], 3), 1);
    assert_eq!(nearest_match(&[(2, 0, 1), (5, 0, 1)], 6), 0);
}

#[test]
fn matches_end_before_the_next_starts() {
    let lines = vec![line("aaaaa é aa"), line("b"), line("aa")];
    let m = find_matches(&lines, "aa");
    assert_eq!(m, vec![(0, 0, 2), (0, 2, 4), (0, 9, 11), (2, 0, 2)]);
    for w in m.windows(2) {
        assert!(w[0].0 < w[1].0 || w[0].2 <= w[1].1);
    }
}

fn segs(text: &str, offset: usize, ranges: &[(usize, usize)]) -> Vec<(String, bool)> {
    segment(text, offset, ranges)
}

fn want(parts: &[(&str, bool)]) -> Vec<(String, bool)> {
    parts.iter().map(|(s, b)| (s.to_string(), *b)).collect()
}

#[test]
fn segment_splits_on_ranges() {
    let segs = segs("abcdef", 0, &[(2, 4)]);
    assert_eq!(segs, want(&[("ab", false), ("cd", true), ("ef", false)]));
}

#[test]
fn segment_with_offset() {
    // Span starts at byte 10; range covers bytes 8..12 -> first 2 bytes lit.
    let segs = segs("abcdef", 10, &[(8, 12)]);
    assert_eq!(segs, want(&[("ab", true), ("cdef", false)]));
}

#[test]
fn segments_join_to_the_text() {
    assert_eq!(segs("abc", 0, &[]), want(&[("abc", false)]));
    assert_eq!(segs("", 0, &[(0, 1)]), want(&[]));
    assert_eq!(segs("äbc", 0, &[(0, 2), (2, 3)]), want(&[("ä", true), ("b", true), ("c", false)]));
}

#[test]
fn slugs_are_github_style() {
    assert_eq!(slugify("Hello, World_of-Rust 2!"), "hello-world_of-rust-2");
    assert_eq!(slugify("ÄÖ"), "äö");
}

#[test]
fn fitting_cuts_at_columns() {
    assert_eq!(fit("漢字x", 3), "漢");
    assert_eq!(fit("abc", 10), "abc");
    assert_eq!(fit("abc", 0), "");
}

#[test]
fn status_bar_is_as_wide_as_the_terminal() {
    assert_eq!(status_bar(" left ", " right ", 20), " left         right ");
    assert_eq!(status_bar("too long a text", " end ", 10), "too l end ");
}

fn prints(ops: &[Op]) -> Vec<String> {
    ops.iter()
        .filter_map(|o| match o {
            Op::Print(s) => Some(s.clone()),
            _ => None,
        })
        .collect()
}

#[test]
fn spans_are_cut_and_links_told() {
    let mut out = Vec::new();
    let style = Style { link: Some("https://x".to_string()), ..Style::default().bold() };
    assert_eq!(emit_span(&mut out, "abcdef", &style, 4), (4, false));
    assert_eq!(prints(&out), vec!["\x1b]8;;https://x\x1b\\", "abcd", "\x1b]8;;\x1b\\"]);
    assert!(out.iter().any(|o| matches!(o, Op::Put(Attr::Bold))));
    let mut out = Vec::new();
    let inner = Style { link: Some("#x".to_string()), ..Style::default().fg(Color::Red) };
    assert_eq!(emit_span(&mut out, "ab", &inner, 4), (2, true));
    assert_eq!(prints(&out), vec!["ab"]);
    assert!(out.iter().any(|o| matches!(o, Op::Fg(Color::Red))));
    let mut out = Vec::new();
    assert_eq!(emit_span(&mut out, "漢", &inner, 1), (0, false));
    assert!(out.is_empty());
}

fn key(c: char) -> Key {
    Key { code: KeyCode::Char(c), ctrl: false }
}

fn ctrl(c: char) -> Key {
    Key { code: KeyCode::Char(c), ctrl: true }
}

fn code(code: KeyCode) -> Key {
    Key { code, ctrl: false }
}

struct Session {
    hl: Highlighter,
    pager: Pager,
}

impl Session {
    fn open(source: &str, size: (u16, u16)) -> Session {
        let hl = Highlighter::new("base16-ocean.dark");
        let pager = Pager::new(
            source,
            "doc.md",
            Config::default(),
            Some("/d".to_string()),
            true,
            TermTheme::Dark,
            size,
            ImageMode::Off,
        );
        let mut s = Session { hl, pager };
        s.rerender(Then::Start(None));
        s
    }

    fn rerender(&mut self, then_: Then) {
        let doc = render(self.pager.source(), &self.hl, &self.pager.render_opts());
        self.pager.show(doc, then_, 0);
    }

    fn press(&mut self, keys: &str) -> Action {
        let mut last = Action::Stay;
        for c in keys.chars() {
            last = self.pager.key(key(c));
        }
        last
    }

    fn status(&self) -> String {
        let ops = self.pager.draw();
        let at = ops.iter().position(|o| matches!(o, Op::ClearLine)).unwrap();
        assert!(at > 0);
        prints(&ops).pop().unwrap()
    }

    /// The rows of content on screen, without styling.
    fn rows(&self) -> Vec<String> {
        let mut rows: Vec<String> = Vec::new();
        let ops = self.pager.draw();
        let mut margin = false;
        for o in &ops {
            match o {
                Op::MoveTo(0, _) => margin = true,
                Op::MoveTo(_, _) if margin => {
                    rows.push(String::new());
                    margin = false;
                }
                Op::Print(s) if !rows.is_empty() && !margin && !s.starts_with('\x1b') => {
                    rows.last_mut().unwrap().push_str(s)
                }
                _ => {}
            }
        }
        rows
    }
}

fn paragraphs(n: usize) -> String {
    (1..=n).map(|i| format!("p{i}\n\n")).collect()
}

#[test]
fn scrolling_stays_in_the_document() {
    // 19 lines of text and blanks, 5 rows of content.
    let mut s = Session::open(&paragraphs(10), (40, 6));
    assert_eq!(s.pager.line_count(), 19);
    assert_eq!(s.rows()[0], "p1");
    s.press("j");
    assert_eq!(s.rows()[1], "p2");
    s.press("k");
    s.press("k");
    assert_eq!(s.rows()[0], "p1");
    s.press("4j");
    assert_eq!(s.rows()[0], "p3");
    s.press("G");
    assert_eq!(s.rows(), vec!["p8", "", "p9", "", "p10"]);
    s.press("99j");
    assert_eq!(s.rows()[0], "p8");
    s.press("g");
    assert_eq!(s.rows()[0], "p1");
    s.press("3g");
    assert_eq!(s.rows()[0], "p2");
    s.press("50p");
    assert_eq!(s.rows()[1], "p6");
    s.press("b");
    assert_eq!(s.rows()[0], "p3");
    s.press("d");
    assert_eq!(s.rows()[0], "p4");
    s.press("u");
    assert_eq!(s.rows()[0], "p3");
    s.press(" ");
    assert_eq!(s.rows()[1], "p6");
    s.pager.key(code(KeyCode::Home));
    assert_eq!(s.rows()[0], "p1");
    s.pager.key(code(KeyCode::PageDown));
    assert_eq!(s.rows()[1], "p4");
    s.pager.key(code(KeyCode::End));
    assert_eq!(s.rows()[0], "p8");
    s.pager.key(ctrl('v'));
    assert_eq!(s.rows()[0], "p8");
}

#[test]
fn rows_beyond_the_end_are_marked() {
    let s = Session::open("one\n", (40, 5));
    assert_eq!(s.rows(), vec!["one", "~", "~", "~"]);
}

#[test]
fn status_tells_the_position() {
    let mut s = Session::open(&paragraphs(10), (40, 6));
    let bar = s.status();
    assert!(bar.starts_with(" doc.md "), "{bar:?}");
    assert!(bar.ends_with(" 1-5/19 26% "), "{bar:?}");
    assert_eq!(bar.chars().count(), 40);
    s.press("G");
    assert!(s.status().ends_with(" 15-19/19 END "));
    s.press("12");
    assert!(s.status().contains("[12]"));
    s.press("x");
    assert!(!s.status().contains('['));
}

#[test]
fn quitting() {
    let mut s = Session::open("x\n", (40, 6));
    s.pager.key(ctrl('q'));
    assert!(!s.pager.quits());
    s.press("c");
    assert!(!s.pager.quits());
    s.pager.key(ctrl('c'));
    assert!(s.pager.quits());
    let mut s = Session::open("x\n", (40, 6));
    s.press("q");
    assert!(s.pager.quits());
}

#[test]
fn searching_goes_round() {
    let mut s = Session::open(&paragraphs(10), (40, 6));
    s.press("/p1");
    assert_eq!(s.status(), "/p1");
    s.pager.key(code(KeyCode::Enter));
    assert_eq!(s.rows()[0], "p1");
    s.press("n");
    // The second match is on the last line; the document ends before the top.
    assert_eq!(s.rows()[4], "p10");
    assert!(!s.status().contains("wrapped"));
    s.press("n");
    assert!(s.status().contains("(search wrapped)"));
    assert_eq!(s.rows()[0], "p1");
    s.press("N");
    assert!(s.status().contains("(search wrapped)"));
    s.press("N");
    assert_eq!(s.rows()[0], "p1");
    s.press("/nothing");
    s.pager.key(code(KeyCode::Enter));
    assert!(s.status().contains("Pattern not found: nothing"));
    s.press("n");
    assert!(s.status().contains("No previous search"));
}

#[test]
fn searching_backward_starts_above() {
    let mut s = Session::open(&paragraphs(10), (40, 6));
    s.press("9g");
    s.press("?p");
    s.pager.key(code(KeyCode::Enter));
    assert_eq!(s.rows()[0], "p4");
}

#[test]
fn matches_are_reversed_on_screen() {
    let mut s = Session::open("say hello there\n", (40, 6));
    s.press("/hello");
    s.pager.key(code(KeyCode::Enter));
    let ops = s.pager.draw();
    let at = ops
        .iter()
        .position(|o| matches!(o, Op::Print(s) if s == "hello"))
        .unwrap();
    assert!(matches!(ops[at - 1], Op::Put(Attr::Reverse)));
    assert_eq!(s.rows()[0], "say hello there");
}

#[test]
fn prompt_is_edited_and_left() {
    let mut s = Session::open("x\n", (40, 6));
    s.press("/ab");
    s.pager.key(code(KeyCode::Backspace));
    assert_eq!(s.status(), "/a");
    s.pager.key(code(KeyCode::Backspace));
    s.pager.key(code(KeyCode::Backspace));
    assert!(s.status().starts_with(" doc.md "));
    s.press("?ab");
    assert_eq!(s.status(), "?ab");
    s.pager.key(code(KeyCode::Esc));
    assert!(s.status().starts_with(" doc.md "));
    s.press("/x");
    s.pager.key(ctrl('c'));
    assert!(!s.pager.quits());
    assert!(s.status().starts_with(" doc.md "));
}

const HEADED: &str = "# One\n\na\n\nb\n\n## Two Words\n\nc\n\nd\n\n## Three\n\ne\n\nf\n";

#[test]
fn headings_are_jumped_to() {
    let mut s = Session::open(HEADED, (40, 4));
    s.press("]");
    assert_eq!(s.rows()[0], "Two Words");
    s.press("}");
    assert_eq!(s.rows()[0], "Three");
    s.press("]");
    assert!(s.status().contains("No more headings"));
    s.press("[");
    assert_eq!(s.rows()[0], "Two Words");
    s.press("{");
    assert_eq!(s.rows()[0], "One");
}

#[test]
fn contents_are_picked_from() {
    let mut s = Session::open(HEADED, (40, 12));
    s.press("t");
    let text = prints(&s.pager.draw());
    assert!(text.iter().any(|l| l.contains(" Contents ")), "{text:?}");
    assert!(text.iter().any(|l| l == "  Two Words"), "{text:?}");
    s.press("j");
    s.pager.key(code(KeyCode::Enter));
    assert_eq!(s.rows()[0], "Two Words");
    s.press("t");
    s.press("G");
    s.press("k");
    s.press("g");
    s.pager.key(code(KeyCode::Enter));
    assert_eq!(s.rows()[0], "One");
    s.press("tq");
    assert!(!s.pager.quits());
    let mut s = Session::open("no headings\n", (40, 12));
    s.press("t");
    assert!(s.status().contains("No headings in this document"));
}

#[test]
fn help_is_shown_until_a_key() {
    let mut s = Session::open("x\n", (80, 30));
    s.press("h");
    let text = prints(&s.pager.draw());
    assert!(text.iter().any(|l| l.contains(" Keys ")), "{text:?}");
    assert!(text.iter().any(|l| l == "t             "), "{text:?}");
    assert!(text.iter().any(|l| l == "table of contents"), "{text:?}");
    s.press("j");
    let text = prints(&s.pager.draw());
    assert!(!text.iter().any(|l| l.contains(" Keys ")));
    s.pager.key(code(KeyCode::F(1)));
    assert!(prints(&s.pager.draw()).iter().any(|l| l.contains(" Keys ")));
}

#[test]
fn links_are_labelled_and_followed() {
    let md = "[a](#two-words) [b](other.md#sec) [c](pic.png) [d](https://x.dev)\n\n## Two Words\n";
    let mut s = Session::open(md, (60, 10));
    s.press("o");
    let ops = s.pager.draw();
    let labels: Vec<String> = prints(&ops).into_iter().filter(|l| l.len() == 1).collect();
    assert!(labels.ends_with(&["a".into(), "b".into(), "c".into(), "d".into()]), "{labels:?}");
    match s.press("b") {
        Action::Load(path, fragment) => {
            assert_eq!(path, "/d/other.md");
            assert_eq!(fragment.as_deref(), Some("sec"));
        }
        _ => panic!("a document"),
    }
    match s.press("oc") {
        Action::OpenFile(path, url) => {
            assert_eq!(path, "/d/pic.png");
            assert_eq!(url, "file:///d/pic.png");
        }
        _ => panic!("a file"),
    }
    match s.press("od") {
        Action::Open(url) => assert_eq!(url, "https://x.dev"),
        _ => panic!("a URL"),
    }
    assert!(matches!(s.press("oz"), Action::Stay));
    s.press("oa");
    assert!(!s.status().contains("No heading"));
    let mut s = Session::open("[a](#nowhere)\n", (60, 10));
    s.press("oa");
    assert!(s.status().contains("No heading #nowhere"));
    let mut s = Session::open("text\n", (60, 10));
    s.press("o");
    assert!(s.status().contains("No links on screen"));
}

#[test]
fn fragments_lead_to_headings() {
    let mut s = Session::open(&format!("[x](#two-words) [y](#THREE)\n\n{HEADED}"), (40, 4));
    s.press("oa");
    assert_eq!(s.rows()[0], "Two Words");
    s.press("g");
    s.press("ob");
    assert_eq!(s.rows()[0], "Three");
}

#[test]
fn going_back_restores_the_document() {
    let mut s = Session::open(&paragraphs(10), (40, 6));
    s.press("4j");
    match s.pager.navigate_to("# Other\n".into(), "other.md".into(), None, None) {
        Action::Render(then_) => s.rerender(then_),
        _ => panic!("to be rendered"),
    }
    assert_eq!(s.rows()[0], "Other");
    assert!(s.status().starts_with(" other.md "));
    match s.pager.key(ctrl('o')) {
        Action::Render(then_) => {
            assert!(matches!(then_, Then::At(4)));
            s.rerender(then_);
        }
        _ => panic!("to be rendered"),
    }
    assert_eq!(s.rows()[0], "p3");
    assert!(s.status().starts_with(" doc.md "));
    assert_eq!(s.pager.render_opts().base.as_deref(), Some("/d"));
    assert!(matches!(s.pager.key(code(KeyCode::Backspace)), Action::Stay));
    assert!(s.status().contains("No previous document"));
}

#[test]
fn unresolved_links_stay_so_after_going_back() {
    let mut pager = Pager::new(
        "x\n",
        "(stdin)",
        Config::default(),
        Some("/cwd".to_string()),
        false,
        TermTheme::Light,
        (0, 0),
        ImageMode::Off,
    );
    assert_eq!(pager.size(), (80, 24));
    let _ = pager.navigate_to("y\n".into(), "y".into(), Some("/y".into()), None);
    assert!(pager.render_opts().resolve_links);
    let _ = pager.key(ctrl('o'));
    assert!(!pager.render_opts().resolve_links);
    assert_eq!(pager.render_opts().theme, TermTheme::Light);
}

#[test]
fn diagrams_are_toggled() {
    let mut s = Session::open(&paragraphs(3), (40, 6));
    assert!(s.pager.render_opts().diagrams);
    match s.press("v") {
        Action::Render(Then::Proportion(0, 5)) => {}
        _ => panic!("to be rendered where it stood"),
    }
    assert!(!s.pager.render_opts().diagrams);
    assert!(s.status().contains("diagrams: source"));
    s.press("v");
    assert!(s.pager.render_opts().diagrams);
    assert!(s.status().contains("diagrams: rendered"));
    let text_first = Config { default_view: "text".to_string(), ..Config::default() };
    let pager =
        Pager::new("", "t", text_first, None, true, TermTheme::Dark, (9, 9), ImageMode::Off);
    assert!(!pager.render_opts().diagrams);
}

#[test]
fn resizing_rewraps_and_searches_again() {
    let mut s = Session::open("aaaa bbbb cccc dddd eeee ffff gggg\n", (80, 6));
    s.press("/gggg");
    s.pager.key(code(KeyCode::Enter));
    let action = s.pager.resize(24, 0, ImageMode::Off);
    assert_eq!(s.pager.size(), (24, 24));
    assert!(s.pager.images_are_stale());
    match action {
        Action::Render(then_) => s.rerender(then_),
        _ => panic!("to be rendered"),
    }
    assert_eq!(s.pager.line_count(), 2);
    let ops = s.pager.draw();
    let at = ops.iter().position(|o| matches!(o, Op::Print(s) if s == "gggg")).unwrap();
    assert!(matches!(ops[at - 1], Op::Put(Attr::Reverse)));
}

#[test]
fn messages_are_said_and_cleared() {
    let mut s = Session::open("x\n", (60, 6));
    s.pager.load_failed("/a.md", "no such file");
    assert!(s.status().starts_with(" /a.md: no such file"));
    s.press("j");
    assert!(s.status().starts_with(" doc.md "));
    s.pager.not_found("/b");
    assert!(s.status().starts_with(" Not found: /b"));
    s.pager.opened("https://x");
    assert!(s.status().starts_with(" Opened https://x"));
}

#[test]
fn images_are_transmitted_once() {
    let mut s = Session::open("x\n", (60, 6));
    let image = || KittyImage { id: 9, png: b"12345".to_vec(), cols: 2, rows: 1 };
    let doc = || Document { lines: vec![], headings: vec![], images: vec![image(), image()] };
    s.pager.show(doc(), Then::At(0), 0);
    assert!(s.pager.images_are_stale());
    let mut out = Vec::new();
    s.pager.sync_images(&mut out);
    assert!(!s.pager.images_are_stale());
    let placed = "\x1b_Ga=p,U=1,i=9,p=1,c=2,r=1,q=2\x1b\\";
    let sent = "\x1b_Ga=t,i=9,f=100,t=d,q=2,m=0;MTIzNDU=\x1b\\";
    assert_eq!(String::from_utf8(out).unwrap(), format!("{sent}{placed}{placed}"));
    let mut out = Vec::new();
    s.pager.sync_images(&mut out);
    assert_eq!(String::from_utf8(out).unwrap(), format!("{placed}{placed}"));
}

#[test]
fn turns_send_images_then_leave_or_draw() {
    let mut s = Session::open("x\n", (60, 6));
    let mut out = Vec::new();
    s.pager.sync_images(&mut out);
    assert_eq!(s.pager.step(false), Step::Wait);
    assert_eq!(s.pager.step(true), Step::Draw);
    s.pager.resize(40, 6, ImageMode::Off);
    assert_eq!(s.pager.step(false), Step::Sync);
    s.press("q");
    assert_eq!(s.pager.step(true), Step::Sync);
    s.pager.sync_images(&mut out);
    assert_eq!(s.pager.step(true), Step::Leave);
    assert_eq!(s.pager.step(false), Step::Leave);
}
