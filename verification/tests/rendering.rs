use mdview::event::parse;
use mdview::images::{image_size, plan, prepare, to_png, Plan};
use mdview::kitty::PLACEHOLDER;
use mdview::prose::{clean_inline, present};
use mdview::render::emit::fit_grid;
use mdview::render::{
    content_id, has_scheme, render, replace_shortcodes, wrap_spans, Document, Highlighter,
    ImageMode, Picture, RenderOpts, Renderer, TermTheme, Want, QUOTE_BAR,
};
use mdview::table::{lay_out, Align, Table};
use mdview::text::{total_width, Color, Line, Span, Style};
use mdview::width::char_cols;

fn topts(width: usize) -> RenderOpts {
    RenderOpts {
        width,
        base: None,
        image_mode: ImageMode::Off,
        diagrams: true,
        resolve_links: true,
        theme: TermTheme::Dark,
    }
}

fn plain(lines: &[Vec<Span>]) -> Vec<String> {
    lines
        .iter()
        .map(|l| l.iter().map(|s| s.text.as_str()).collect())
        .collect()
}

fn texts(doc: &Document) -> Vec<String> {
    doc.lines.iter().map(|l| l.plain()).collect()
}

#[test]
fn wraps_at_width() {
    let spans = [Span::plain("the quick brown fox jumps over the lazy dog")];
    let wrapped = wrap_spans(&spans, 10);
    for line in plain(&wrapped) {
        assert!(line.len() <= 10, "line too long: {line:?}");
    }
    assert_eq!(plain(&wrapped).join(" "), "the quick brown fox jumps over the lazy dog");
}

#[test]
fn keeps_styled_word_together() {
    let bold = Style::default().bold();
    let spans = [Span::plain("aaa bb"), Span::new("old", bold), Span::plain(" cc")];
    let wrapped = wrap_spans(&spans, 6);
    let lines = plain(&wrapped);
    assert_eq!(lines, vec!["aaa", "bbold", "cc"]);
}

#[test]
fn hard_breaks_long_words() {
    let spans = [Span::plain("abcdefghij")];
    let wrapped = wrap_spans(&spans, 4);
    assert_eq!(plain(&wrapped), vec!["abcd", "efgh", "ij"]);
}

#[test]
fn wrapping_keeps_styles_and_hard_breaks() {
    let bold = Style::default().bold();
    let spans = [Span::plain("one\ntwo "), Span::new("three", bold)];
    let wrapped = wrap_spans(&spans, 20);
    assert_eq!(plain(&wrapped), vec!["one", "two three"]);
    let last = wrapped[1].last().unwrap();
    assert_eq!(last.text, "three");
    assert!(last.style.bold);
}

#[test]
fn wrapping_nothing_gives_one_empty_line() {
    let wrapped = wrap_spans(&[], 10);
    assert_eq!(wrapped.len(), 1);
    assert!(wrapped[0].is_empty());
}

#[test]
fn wrapping_counts_wide_characters() {
    let spans = [Span::plain("漢字漢字")];
    assert_eq!(plain(&wrap_spans(&spans, 4)), vec!["漢字", "漢字"]);
    assert_eq!(plain(&wrap_spans(&spans, 0)), vec!["漢", "字", "漢", "字"]);
}

#[test]
fn wrapped_lines_end_in_no_space() {
    let spans = [Span::plain("ab cd "), Span::new("ef", Style::default().dim())];
    for line in plain(&wrap_spans(&spans, 5)) {
        assert!(!line.ends_with(' '), "{line:?}");
    }
}

#[test]
fn pushing_joins_equal_styles() {
    let mut line = Line::default();
    line.push(Span::plain("a"));
    line.push(Span::plain(""));
    line.push(Span::plain("b"));
    line.push(Span::new("c", Style::default().bold()));
    assert_eq!(line.spans.len(), 2);
    assert_eq!(line.plain(), "abc");
    assert_eq!(line.width(), 3);
    assert_eq!(line.checked_width(), Some(3));
    assert_eq!(Span::plain("漢").width(), 2);
}

#[test]
fn style_builders_set_one_thing_each() {
    let s = Style::default().fg(Color::Red).bold().dim();
    assert_eq!(s.fg, Some(Color::Red));
    assert!(s.bold && s.dim && !s.italic && s.link.is_none());
}

#[test]
fn renders_headings_into_index() {
    let hl = Highlighter::new("base16-ocean.dark");
    let doc = render("# One\n\ntext\n\n## Two\n", &hl, &topts(80));
    assert_eq!(doc.headings.len(), 2);
    assert_eq!(doc.headings[0].text, "One");
    assert_eq!(doc.headings[1].level, 2);
}

#[test]
fn headings_stand_on_their_lines_with_rules_below() {
    let hl = Highlighter::new("base16-ocean.dark");
    let doc = render("# One\n\ntext\n\n## Two\n\n### Three\n", &hl, &topts(80));
    assert_eq!(
        texts(&doc),
        vec!["One", "━━━", "", "text", "", "Two", "───", "", "Three"]
    );
    let lines: Vec<usize> = doc.headings.iter().map(|h| h.line).collect();
    assert_eq!(lines, vec![0, 5, 8]);
    assert_eq!(doc.lines[0].spans[0].style.fg, Some(Color::Magenta));
    assert!(doc.lines[6].spans[0].style.dim);
}

#[test]
fn sixth_level_follows_the_theme() {
    let hl = Highlighter::new("base16-ocean.dark");
    let doc = render("###### six\n", &hl, &topts(80));
    assert_eq!(doc.lines[0].spans[0].style.fg, Some(Color::White));
    let light = RenderOpts { theme: TermTheme::Light, ..topts(80) };
    let doc = render("###### six\n", &hl, &light);
    assert_eq!(doc.lines[0].spans[0].style.fg, Some(Color::Black));
}

#[test]
fn expands_tabs_in_inline_text() {
    let hl = Highlighter::new("base16-ocean.dark");
    let doc = render("a\tb and `c\td`\n", &hl, &topts(80));
    for line in &doc.lines {
        assert!(!line.plain().contains('\t'), "raw tab in {:?}", line.plain());
    }
}

#[test]
fn cleaning_strips_returns_and_expands_tabs() {
    assert_eq!(clean_inline("a\r\n\tb"), "a\n    b");
    assert_eq!(clean_inline("plain"), "plain");
}

#[test]
fn no_double_blank_between_nested_quote_paragraphs() {
    let hl = Highlighter::new("base16-ocean.dark");
    let doc = render("> > one\n> >\n> > two\n", &hl, &topts(80));
    let blanks = doc
        .lines
        .iter()
        .filter(|l| l.plain().chars().all(|c| c.is_whitespace() || c == QUOTE_BAR))
        .count();
    assert_eq!(blanks, 1, "{:?}", doc.lines.iter().map(|l| l.plain()).collect::<Vec<_>>());
}

#[test]
fn expands_emoji_shortcodes_in_prose_but_not_code() {
    assert_eq!(replace_shortcodes("I :book: it :tada:"), "I 📖 it 🎉");
    // BMP symbols get VS16 appended to force emoji presentation.
    assert_eq!(replace_shortcodes(":zap:"), "\u{26A1}\u{FE0F}");
    assert_eq!(replace_shortcodes(":sparkles:"), "\u{2728}\u{FE0F}");
    assert_eq!(replace_shortcodes(":notarealemoji: stays"), ":notarealemoji: stays");
    assert_eq!(replace_shortcodes("meet at 12:30:45"), "meet at 12:30:45");
    assert_eq!(replace_shortcodes("a : b :tada:"), "a : b 🎉");
    assert_eq!(replace_shortcodes("+1: :+1:"), "+1: 👍");

    let hl = Highlighter::new("base16-ocean.dark");
    let doc = render(
        "prose :book: and `code :book:`\n\n```\nblock :book:\n```\n",
        &hl,
        &topts(80),
    );
    let text: Vec<String> = doc.lines.iter().map(|l| l.plain()).collect();
    assert!(text.iter().any(|l| l.contains("prose 📖")), "{text:?}");
    assert!(text.iter().any(|l| l.contains("code :book:")), "{text:?}");
    assert!(text.iter().any(|l| l.contains("block :book:")), "{text:?}");
}

#[test]
fn presentation_selector_goes_to_lone_symbols_only() {
    assert_eq!(present("\u{26A1}"), "\u{26A1}\u{FE0F}");
    assert_eq!(present("📖"), "📖");
    assert_eq!(present("\u{FE0F}"), "\u{FE0F}");
    assert_eq!(present("\u{2764}\u{FE0F}"), "\u{2764}\u{FE0F}");
}

#[test]
fn schemes_are_told_from_paths() {
    assert!(has_scheme("https://x"));
    assert!(has_scheme("mailto:a@b"));
    assert!(has_scheme("a+b.c-d:x"));
    assert!(!has_scheme("1a:x"));
    assert!(!has_scheme("docs/x.md"));
    assert!(!has_scheme("a b:c"));
    assert!(!has_scheme(""));
    assert!(!has_scheme("abc"));
}

fn links_of(doc: &Document) -> Vec<String> {
    doc.lines
        .iter()
        .flat_map(|l| l.spans.iter())
        .filter_map(|s| s.style.link.clone())
        .collect::<std::collections::BTreeSet<_>>()
        .into_iter()
        .collect()
}

#[test]
fn resolves_relative_links_against_base() {
    let hl = Highlighter::new("base16-ocean.dark");
    let base = "/repo/docs".to_string();
    let md = "\
[rel](guide/setup.md) [abs](/etc/motd) [frag](#usage) [web](https://x.dev) \
<https://auto.link> [mail](mailto:a@b.c) [rf][1]\n\n[1]: sub/ref.md\n\n\
| [in table](t.md) |\n|---|\n| x |\n\n> [!NOTE]\n> [in note](n.md)\n";
    let doc = render(md, &hl, &RenderOpts { base: Some(base), ..topts(120) });
    let links = links_of(&doc);
    assert!(links.contains(&"file:///repo/docs/guide/setup.md".into()), "{links:?}");
    assert!(links.contains(&"file:///etc/motd".into()), "{links:?}");
    assert!(links.contains(&"#usage".into()), "{links:?}");
    assert!(links.contains(&"https://x.dev".into()), "{links:?}");
    assert!(links.contains(&"https://auto.link".into()), "{links:?}");
    assert!(links.contains(&"mailto:a@b.c".into()), "{links:?}");
    assert!(links.contains(&"file:///repo/docs/sub/ref.md".into()), "{links:?}");
    assert!(links.contains(&"file:///repo/docs/t.md".into()), "{links:?}");
    assert!(links.contains(&"file:///repo/docs/n.md".into()), "{links:?}");
}

#[test]
fn relative_links_stay_verbatim_without_trusted_base() {
    let hl = Highlighter::new("base16-ocean.dark");
    // stdin: resolve_links off even though a cwd base exists
    let opts = RenderOpts {
        base: Some("/somewhere".to_string()),
        resolve_links: false,
        ..topts(80)
    };
    let doc = render("[rel](docs/x.md) with a fragment [f](#top)\n", &hl, &opts);
    let links = links_of(&doc);
    assert!(links.contains(&"docs/x.md".into()), "{links:?}");
    assert!(links.contains(&"#top".into()), "{links:?}");
    // no base at all: also verbatim
    let doc = render("[rel](docs/x.md)\n", &hl, &topts(80));
    assert!(links_of(&doc).contains(&"docs/x.md".into()));
}

#[test]
fn resolved_link_keeps_fragment() {
    let hl = Highlighter::new("base16-ocean.dark");
    let doc = render(
        "[s](other.md#install)\n",
        &hl,
        &RenderOpts { base: Some("/d".to_string()), ..topts(80) },
    );
    assert!(links_of(&doc).contains(&"file:///d/other.md#install".into()));
}

#[test]
fn renders_admonition_title() {
    let hl = Highlighter::new("base16-ocean.dark");
    let doc = render("> [!WARNING]\n> Careful here.\n", &hl, &topts(80));
    let text: Vec<String> = doc.lines.iter().map(|l| l.plain()).collect();
    assert!(text.iter().any(|l| l.contains("Warning")), "{text:?}");
    assert!(text.iter().any(|l| l.contains("Careful here.")), "{text:?}");
    // Title line and body both carry the quote bar.
    assert!(text.iter().filter(|l| l.contains(QUOTE_BAR)).count() >= 2);
}

#[test]
fn lists_carry_markers_and_hang() {
    let hl = Highlighter::new("base16-ocean.dark");
    let doc = render("3. one\n4. two\n\n- a\n  - b\n    - c\n", &hl, &topts(80));
    assert_eq!(
        texts(&doc),
        vec!["3. one", "4. two", "", "• a", "  ◦ b", "    ▪ c"]
    );
    let doc = render("- aaaa bbbb cccc dddd eeee\n", &hl, &topts(20));
    assert_eq!(texts(&doc), vec!["• aaaa bbbb cccc", "  dddd eeee"]);
}

#[test]
fn tasks_rules_footnotes_and_html() {
    let hl = Highlighter::new("base16-ocean.dark");
    let doc = render("- [x] done\n- [ ] open\n\n---\n\nsee[^1]\n\n[^1]: note\n", &hl, &topts(20));
    let text = texts(&doc);
    assert_eq!(text[0], "• ☑ done");
    assert_eq!(text[1], "• ☐ open");
    assert!(text.contains(&"─".repeat(20)), "{text:?}");
    assert!(text.contains(&"see[^1]".to_string()), "{text:?}");
    assert!(text.contains(&"[^1] note".to_string()), "{text:?}");
    let doc = render("a <b>c</b>\n", &hl, &topts(20));
    assert!(doc.lines[0].spans.iter().any(|s| s.text == "<b>" && s.style.dim));
}

#[test]
fn emphasis_nests() {
    let hl = Highlighter::new("base16-ocean.dark");
    let doc = render("*a **b** ~~c~~*\n", &hl, &topts(80));
    let spans = &doc.lines[0].spans;
    let b = spans.iter().find(|s| s.text == "b").unwrap();
    assert!(b.style.bold && b.style.italic);
    let c = spans.iter().find(|s| s.text == "c").unwrap();
    assert!(c.style.strikethrough && c.style.italic && !c.style.bold);
}

#[test]
fn tables_are_drawn_and_aligned() {
    let hl = Highlighter::new("base16-ocean.dark");
    let doc = render("| a | bb |\n|--:|:-:|\n| xyz | 1 |\n", &hl, &topts(80));
    assert_eq!(
        texts(&doc),
        vec![
            "┌─────┬────┐",
            "│   a │ bb │",
            "├─────┼────┤",
            "│ xyz │ 1  │",
            "└─────┴────┘",
        ]
    );
    let head = doc.lines[1].spans.iter().find(|s| s.text == "bb").unwrap();
    assert!(head.style.bold);
}

#[test]
fn wide_tables_shrink_and_cells_are_cut() {
    let hl = Highlighter::new("base16-ocean.dark");
    let md = "| aaaaaaaaaaaaaaaaaaaa | b |\n|---|---|\n| c | d |\n";
    let doc = render(md, &hl, &topts(20));
    for line in &doc.lines {
        assert!(line.width() <= 20, "{:?}", line.plain());
    }
    assert_eq!(doc.lines[1].plain(), "│ aaaaaaaaaaa… │ b │");
    let long = format!("| {} |\n|---|\n| x |\n", "a".repeat(60));
    let doc = render(&long, &hl, &topts(120));
    assert_eq!(doc.lines[1].plain(), format!("│ {}… │", "a".repeat(39)));
}

#[test]
fn code_is_indented_and_highlighted() {
    let hl = Highlighter::new("base16-ocean.dark");
    let doc = render("```rust ignore\nfn f() {}\n\tx\n```\n", &hl, &topts(80));
    assert_eq!(texts(&doc), vec!["  fn f() {}", "      x"]);
    assert!(doc.lines[0].spans.iter().any(|s| matches!(s.style.fg, Some(Color::Rgb { .. }))));
    let plain_doc = render("    indented\n", &hl, &topts(80));
    assert_eq!(texts(&plain_doc), vec!["  indented"]);
}

#[test]
fn code_themes_differ_and_unknown_ones_fall_back() {
    let md = "```rust\nfn f() {}\n```\n";
    let color = |name: &str| {
        let hl = Highlighter::new(name);
        let doc = render(md, &hl, &topts(80));
        let span = doc.lines[0].spans.iter().find(|s| s.text.contains("fn")).unwrap();
        span.style.fg
    };
    assert_ne!(color("base16-ocean.dark"), color("InspiredGitHub"));
    assert_eq!(color("base16-ocean.dark"), color("no such theme"));
}

#[test]
fn code_keeps_bold_and_italic_faces() {
    let hl = Highlighter::new("base16-ocean.dark");
    let doc = render("```markdown\n**bold** and *it*\n```\n", &hl, &topts(80));
    let spans = &doc.lines[0].spans;
    assert!(spans.iter().any(|s| s.text.contains("bold") && s.style.bold), "{spans:?}");
    assert!(spans.iter().any(|s| s.text.contains("it") && s.style.italic), "{spans:?}");
}

#[test]
fn mermaid_block_stays_code_without_graphics() {
    let hl = Highlighter::new("base16-ocean.dark");
    let doc = render("```mermaid\nflowchart LR\n  A --> B\n```\n", &hl, &topts(80));
    assert!(doc.images.is_empty());
    assert!(doc.lines.iter().any(|l| l.plain().contains("A --> B")));
}

#[test]
fn reflows_paragraph_to_width() {
    let hl = Highlighter::new("base16-ocean.dark");
    let text = "words ".repeat(40);
    let doc = render(&text, &hl, &topts(30));
    for line in &doc.lines {
        assert!(line.width() <= 30, "too wide: {:?}", line.plain());
    }
}

#[test]
fn documents_end_in_no_blank_line() {
    let hl = Highlighter::new("base16-ocean.dark");
    let doc = render("text\n\n> \n", &hl, &topts(30));
    assert_eq!(texts(&doc), vec!["text"]);
}

fn red_png() -> Vec<u8> {
    let img = image::RgbaImage::from_pixel(32, 64, image::Rgba([255, 0, 0, 255]));
    let mut buf = std::io::Cursor::new(Vec::new());
    img.write_to(&mut buf, image::ImageFormat::Png).unwrap();
    buf.into_inner()
}

fn kitty_opts() -> RenderOpts {
    RenderOpts {
        base: Some("/pictures".to_string()),
        image_mode: ImageMode::Kitty { cell_w: 8, cell_h: 16 },
        ..topts(80)
    }
}

/// Renders with every picture answered by `png`, in a grid that is larger than the
/// picture; returns what was asked for too.
fn render_pictures(md: &str, opts: &RenderOpts, png: Option<Vec<u8>>) -> (Document, Vec<String>) {
    let hl = Highlighter::new("base16-ocean.dark");
    let mut r = Renderer::new(&hl, opts);
    let mut asked = Vec::new();
    for e in parse(md) {
        match r.event(e) {
            Some(Want::File(path, avail)) => {
                asked.push(format!("{path} {avail}"));
                r.answer(png.clone().map(|png| Picture { png, cols: 99, rows: 99 }));
            }
            Some(Want::Diagram(request, avail)) => {
                asked.push(format!("{} {avail}", request.url));
                r.answer(png.clone().map(|png| Picture { png, cols: 99, rows: 99 }));
            }
            None => {}
        }
    }
    (r.finish(), asked)
}

#[test]
fn kitty_mode_emits_placeholders_and_queues_image() {
    // 32x64 px at 8x16 cells -> a 4x4 placeholder grid, however large a grid is
    // asked for.
    let png = red_png();
    let kitty = kitty_opts();
    let (doc, asked) = render_pictures("![a red square](red.png)\n", &kitty, Some(png.clone()));
    assert_eq!(asked, vec!["/pictures/red.png 80"]);
    assert_eq!(doc.images.len(), 1);
    let img = &doc.images[0];
    assert_eq!((img.cols, img.rows), (4, 4));
    // Content-derived id: 24-bit, nonzero, stable across renders.
    assert!(img.id > 0 && img.id <= 0xFF_FFFF);
    let (again, _) = render_pictures("![a red square](red.png)\n", &kitty, Some(png));
    assert_eq!(again.images[0].id, img.id);
    assert!(!img.png.is_empty());
    let placeholder_rows = doc
        .lines
        .iter()
        .filter(|l| l.plain().contains(PLACEHOLDER))
        .count();
    assert_eq!(placeholder_rows, 4);
    let text: Vec<String> = doc.lines.iter().map(|l| l.plain()).collect();
    assert!(text.iter().any(|l| l.contains("a red square")), "{text:?}");

    // Remote URLs and terminals without graphics fall back to a link.
    let hl = Highlighter::new("base16-ocean.dark");
    let doc = render("![remote](https://example.com/x.png)\n", &hl, &kitty);
    assert!(doc.images.is_empty());
    assert!(doc.lines.iter().any(|l| l.plain().contains("🖼 remote")));
    let off = RenderOpts { base: Some("/pictures".to_string()), ..topts(80) };
    let doc = render("![local](red.png)\n", &hl, &off);
    assert!(doc.images.is_empty());
    assert!(doc.lines.iter().any(|l| l.plain().contains("🖼 local")));
}

#[test]
fn one_picture_twice_is_queued_once() {
    let (doc, asked) =
        render_pictures("![a](a.png)\n\n![b](/b.png)\n", &kitty_opts(), Some(red_png()));
    assert_eq!(asked, vec!["/pictures/a.png 80", "/b.png 80"]);
    assert_eq!(doc.images.len(), 1);
    let rows = doc.lines.iter().filter(|l| l.plain().contains(PLACEHOLDER)).count();
    assert_eq!(rows, 8);
}

#[test]
fn pictures_that_cannot_be_had_are_links() {
    let (doc, asked) = render_pictures("![a *b* `c`](x.png)\n", &kitty_opts(), None);
    assert_eq!(asked.len(), 1);
    assert_eq!(texts(&doc), vec!["🖼 a b c"]);
    assert_eq!(links_of(&doc), vec!["x.png"]);
}

#[test]
fn what_is_no_picture_is_a_link() {
    let (doc, _) = render_pictures("![a](x.png)\n", &kitty_opts(), Some(b"no picture".to_vec()));
    assert!(doc.images.is_empty());
    assert_eq!(texts(&doc), vec!["🖼 a"]);
    let md = "```mermaid\nA\n```\n";
    let (doc, _) = render_pictures(md, &kitty_opts(), Some(b"no picture".to_vec()));
    assert_eq!(texts(&doc), vec!["  A"]);
}

#[test]
fn grids_stay_within_columns_rows_and_pixels() {
    // As asked for, where that fits.
    assert_eq!(fit_grid((3, 2), (100, 100), (10, 10), 80), (3, 2));
    assert_eq!(fit_grid((0, 0), (100, 100), (10, 10), 80), (1, 1));
    // The picture's own size, rounded up to cells.
    assert_eq!(fit_grid((99, 99), (101, 95), (10, 10), 80), (11, 10));
    // The columns there are, and the height cap.
    assert_eq!(fit_grid((99, 99), (5000, 5000), (10, 10), 80), (80, 24));
    assert_eq!(fit_grid((9, 9), (5, 5), (0, 0), 80), (5, 5));
}

#[test]
fn wrapped_lines_wrap_to_themselves() {
    let spans = [Span::plain("one two "), Span::new("threefour", Style::default().bold())];
    for line in wrap_spans(&spans, 5) {
        let again = wrap_spans(&line, 5);
        assert_eq!(again.len(), 1);
        assert_eq!(plain(&again), plain(&[line]));
    }
}

#[test]
fn ascii_takes_a_column_a_character() {
    assert_eq!(char_cols('~'), 1);
    assert_eq!(char_cols(' '), 1);
    assert_eq!(Span::plain("a b!").width(), 4);
    assert_eq!(total_width(&vec![Span::plain("a b!"), Span::plain("cd")]), 6);
    let spans = [Span::plain("a abcdefghij "), Span::new("klm nopqr", Style::default().bold())];
    let lines = wrap_spans(&spans, 4);
    assert_eq!(plain(&lines), vec!["a", "abcd", "efgh", "ij", "klm", "nopq", "r"]);
    for line in lines {
        assert!(total_width(&line) <= 4);
        let again = wrap_spans(&line, 4);
        assert_eq!(plain(&again), plain(&[line]));
    }
}

#[test]
fn table_lines_are_equally_long() {
    let cell = |s: &str| Line { spans: vec![Span::plain(s)] };
    let table = || Table {
        aligns: vec![Align::Right, Align::Center],
        head: vec![cell("a"), cell("long head")],
        rows: vec![vec![cell("some longer text"), cell("x")], vec![], vec![cell("y")]],
        cur_row: vec![],
        in_head: false,
    };
    for avail in [0, 20, 24, 80] {
        let lines = plain(&lay_out(&table(), avail));
        assert_eq!(lines.len(), 7);
        for line in &lines {
            assert_eq!(line.chars().count(), lines[0].chars().count(), "{lines:?}");
        }
    }
    assert_eq!(lay_out(&table(), 20)[0][0].text, "┌─────────┬────────┐");
    assert_eq!(plain(&lay_out(&table(), 20))[3], "│ some l… │   x    │");
}

#[test]
fn syntaxes_are_the_same_on_every_load() {
    let source = "```rust\nfn main() {}\n```\n";
    let shown = || {
        let doc = render(source, &Highlighter::new("base16-ocean.dark"), &topts(40));
        format!("{:?}", doc.lines)
    };
    assert_eq!(shown(), shown());
    assert!(shown().contains("Rgb"));
}

#[test]
fn unanswered_pictures_are_links() {
    let hl = Highlighter::new("base16-ocean.dark");
    let doc = render("![a](x.png) text\n", &hl, &kitty_opts());
    assert_eq!(texts(&doc), vec!["🖼 a text"]);
}

#[test]
fn images_without_alt_text_get_a_caption() {
    let (doc, _) = render_pictures("![](x.png)\n", &kitty_opts(), Some(red_png()));
    assert!(texts(&doc).contains(&"🖼 image".to_string()));
}

#[test]
fn diagrams_are_asked_for_by_language() {
    let (doc, asked) =
        render_pictures("```mermaid\nflowchart LR\n```\n", &kitty_opts(), Some(red_png()));
    assert!(asked[0].starts_with("https://mermaid.ink/img/base64:"), "{asked:?}");
    assert_eq!(doc.lines.len(), 4);
    let (_, asked) = render_pictures("```katex\nx\n```\n", &kitty_opts(), Some(red_png()));
    assert!(asked[0].starts_with("https://latex.codecogs.com/png.image?"), "{asked:?}");
    let (_, asked) = render_pictures("```rust\nx\n```\n", &kitty_opts(), Some(red_png()));
    assert!(asked.is_empty());
    let source = RenderOpts { diagrams: false, ..kitty_opts() };
    let (doc, asked) = render_pictures("```mermaid\nA\n```\n", &source, Some(red_png()));
    assert!(asked.is_empty());
    assert_eq!(texts(&doc), vec!["  A"]);
}

#[test]
fn placeholder_color_carries_the_id() {
    let png = red_png();
    let id = content_id(&png);
    let (doc, _) = render_pictures("![a](a.png)\n", &kitty_opts(), Some(png));
    let want = Color::Rgb {
        r: ((id >> 16) & 0xff) as u8,
        g: ((id >> 8) & 0xff) as u8,
        b: (id & 0xff) as u8,
    };
    let line = doc.lines.iter().find(|l| l.plain().contains(PLACEHOLDER)).unwrap();
    assert_eq!(line.spans[0].style.fg, Some(want));
    assert_eq!(line.plain().chars().count(), 12);
}

#[test]
fn pictures_are_measured_and_converted() {
    let png = red_png();
    assert_eq!(image_size(&png), Some((32, 64)));
    assert_eq!(image_size(b"no image"), None);
    assert_eq!(to_png(png.clone()), Some(png.clone()));
    assert_eq!(to_png(b"no image".to_vec()), None);
    let img = image::RgbImage::from_pixel(3, 2, image::Rgb([1, 2, 3]));
    let mut buf = std::io::Cursor::new(Vec::new());
    img.write_to(&mut buf, image::ImageFormat::Bmp).unwrap();
    let bmp = buf.into_inner();
    let converted = to_png(bmp.clone()).unwrap();
    assert!(converted.starts_with(b"\x89PNG\r\n\x1a\n"));
    assert_eq!(image_size(&converted), Some((3, 2)));

    // A PNG that fits is untouched; what does not fit is resized.
    let same = prepare(png.clone(), 32, 64, (1, 1)).unwrap();
    assert_eq!((same.png, same.width, same.height), (png.clone(), 32, 64));
    let small = prepare(png, 16, 16, (8, 16)).unwrap();
    assert_eq!((small.width, small.height), (8, 16));
    assert_eq!(image_size(&small.png), Some((8, 16)));
    let recoded = prepare(bmp, 10, 10, (1, 1)).unwrap();
    assert_eq!((recoded.width, recoded.height), (3, 2));
    assert!(recoded.png.starts_with(b"\x89PNG"));
    assert!(prepare(b"no image".to_vec(), 10, 10, (1, 1)).is_none());
}

#[test]
fn plans_never_scale_up() {
    assert_eq!(plan(true, (10, 10), 10, 10, (5, 5)), Plan::Keep(10, 10));
    assert_eq!(plan(false, (10, 10), 10, 10, (5, 5)), Plan::Encode(10, 10));
    assert_eq!(plan(true, (10, 20), 10, 10, (5, 10)), Plan::Resize(5, 10));
    assert_eq!(plan(true, (10, 20), 10, 10, (0, 99)), Plan::Resize(1, 10));
    assert_eq!(plan(true, (100, 100), 10, 10, (100, 100)), Plan::Resize(10, 10));
    assert_eq!(plan(true, (3, 9), 0, 0, (3, 9)), Plan::Resize(1, 1));
}
