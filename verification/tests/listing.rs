use mdview::args::{
    complaint, editor_words, links_resolve, parse_args, parse_width, words, Args, Command, USAGE,
};
use mdview::config::{
    check, code_theme_name, config_path, dump_width, term_theme, with_width, Config, ConfigError,
    TEMPLATE,
};
use mdview::dump::{dump_line, line_ansi, style_codes};
use mdview::highlight::theme_names;
use mdview::index::{first_heading, scan, tree, Child, DirEntry, DirIndex, Step, Walk};
use mdview::order::{order_by, ordered};
use mdview::paths::{absolute, extension_of, is_markdown, join, title_of};
use mdview::render::TermTheme;
use mdview::text::{Color, Line, Span, Style};

/// A directory tree in memory: paths below the root, files with their content.
struct Disk {
    files: Vec<(&'static str, &'static str)>,
}

impl Disk {
    fn children(&self, dir: &str) -> Vec<Child> {
        let prefix = format!("{dir}/");
        let mut names: std::collections::BTreeMap<String, bool> = Default::default();
        for (path, _) in &self.files {
            if let Some(rest) = path.strip_prefix(prefix.as_str()) {
                match rest.split_once('/') {
                    Some((name, _)) => names.insert(name.to_string(), true),
                    None => names.insert(rest.to_string(), false),
                };
            }
        }
        // In no particular order.
        names.into_iter().rev().map(|(name, is_dir)| Child { name, is_dir }).collect()
    }

    fn content(&self, path: &str) -> Option<&[u8]> {
        self.files.iter().find(|f| f.0 == path).map(|f| f.1.as_bytes())
    }

    fn index(&self, root: &str) -> DirIndex {
        let mut walk = Walk::new(root);
        walk.listed(self.children(root));
        loop {
            match walk.step() {
                Step::List(dir) => walk.listed(self.children(&dir)),
                Step::Read(path) => walk.opened(self.content(&path)),
                Step::Done => break,
            }
        }
        scan(root, walk.found())
    }
}

#[test]
fn scans_markdown_recursively_with_titles() {
    let disk = Disk {
        files: vec![
            ("/dir/b.md", "# Bravo\n\ntext\n"),
            ("/dir/A.markdown", "no heading here\n"),
            ("/dir/sub/c.md", "---\nfront: matter\n---\n# Charlie\n"),
            ("/dir/sub/.hidden/d.md", "# Hidden\n"),
            ("/dir/node_modules/pkg/README.md", "# Dep\n"),
            ("/dir/notes.txt", "# Not markdown\n"),
        ],
    };
    let idx = disk.index("/dir");
    let rels: Vec<&str> = idx.entries.iter().map(|e| e.rel.as_str()).collect();
    assert_eq!(rels, ["A.markdown", "b.md", "sub/c.md"]);
    assert_eq!(idx.entries[0].title, None);
    assert_eq!(idx.entries[1].title.as_deref(), Some("Bravo"));
    assert_eq!(idx.entries[2].title.as_deref(), Some("Charlie"));
    assert_eq!(idx.entries[2].path, "/dir/sub/c.md");
    assert_eq!(idx.root, "/dir");
}

#[test]
fn walks_stop_at_the_depth_limit() {
    let disk = Disk {
        files: vec![
            ("/r/1/2/3/4/5/6/7/8/in.md", "# In\n"),
            ("/r/1/2/3/4/5/6/7/8/9/out.md", "# Out\n"),
        ],
    };
    let idx = disk.index("/r");
    assert_eq!(idx.entries.len(), 1);
    assert_eq!(idx.entries[0].rel, "1/2/3/4/5/6/7/8/in.md");
}

#[test]
fn walks_stop_at_the_entry_limit() {
    let mut walk = Walk::new("/r");
    walk.listed((0..5001).map(|i| Child { name: format!("{i}.md"), is_dir: false }).collect());
    let mut reads = 0;
    while let Step::Read(_) = walk.step() {
        reads += 1;
        walk.opened(None);
    }
    assert_eq!(reads, 5000);
    assert_eq!(walk.found().len(), 5000);
}

#[test]
fn titles_are_first_level_headings_near_the_top() {
    assert_eq!(first_heading(b"  #  Spaced  \n"), Some("Spaced".to_string()));
    assert_eq!(first_heading(b"## Two\n# One\n"), Some("One".to_string()));
    assert_eq!(first_heading(b"# \n"), None);
    assert_eq!(first_heading(b"\xff\n# T\xff\n"), Some("T\u{fffd}".to_string()));
    let late = format!("{}# Late\n", "x\n".repeat(30));
    assert_eq!(first_heading(late.as_bytes()), None);
    let near = format!("{}# Near\n", "x\n".repeat(29));
    assert_eq!(first_heading(near.as_bytes()), Some("Near".to_string()));
}

fn entry(rel: &str) -> DirEntry {
    DirEntry { rel: rel.to_string(), title: None, path: rel.to_string() }
}

#[test]
fn folders_first_then_files_with_depth_and_counts() {
    let entries = [entry("zeta.md"), entry("docs/b.md"), entry("docs/api/x.md"), entry("Alpha.md")];
    let t = tree(&entries);
    let shape: Vec<(String, usize, bool)> =
        t.iter().map(|n| (n.rel.clone(), n.depth, n.is_dir)).collect();
    assert_eq!(
        shape,
        [
            ("docs".to_string(), 0, true),
            ("docs/api".to_string(), 1, true),
            ("docs/api/x.md".to_string(), 2, false),
            ("docs/b.md".to_string(), 1, false),
            ("Alpha.md".to_string(), 0, false),
            ("zeta.md".to_string(), 0, false),
        ]
    );
    assert_eq!(t[0].doc_count, 2);
    assert_eq!(t[1].doc_count, 1);
    assert_eq!(t[2].parent, Some(1));
    assert_eq!(t[3].parent, Some(0));
    assert_eq!(t[4].parent, None);
}

#[test]
fn folders_count_and_order_what_is_below_them() {
    let rels = ["b/z.md", "B/x/q.md", "a/k.md", "b/Y.md", "c.md", "b/x/p.md", "A.md", "b/a/n.md"];
    let entries = rels.map(entry);
    let t = tree(&entries);
    for (i, n) in t.iter().enumerate() {
        let below = t[i + 1..].iter().take_while(|m| m.depth > n.depth);
        let docs = below.filter(|m| !m.is_dir).count();
        assert_eq!(n.doc_count, if n.is_dir { docs } else { 1 }, "{}", n.rel);
        if let Some(p) = n.parent {
            assert!(t[p].is_dir && t[p].depth + 1 == n.depth);
            assert!(t[p + 1..i].iter().all(|m| m.depth > t[p].depth));
        }
        for m in t[i + 1..].iter().filter(|m| m.parent == n.parent) {
            assert!(n.is_dir || !m.is_dir);
            if n.is_dir == m.is_dir {
                let key = |s: &str| (s.to_lowercase(), s.to_string());
                assert!(key(&n.name) < key(&m.name));
            }
        }
    }
    let shown: Vec<&str> = t.iter().map(|n| n.rel.as_str()).collect();
    assert_eq!(
        shown,
        [
            "a", "a/k.md", "B", "B/x", "B/x/q.md", "b", "b/a", "b/a/n.md", "b/x", "b/x/p.md",
            "b/Y.md", "b/z.md", "A.md", "c.md"
        ]
    );
}

#[test]
fn folders_that_differ_in_case_stay_apart() {
    let entries =
        [entry("Docs/a.md"), entry("docs/b.md"), entry("api/c.md"), entry("Docs/d/e.md")];
    let t = tree(&entries);
    let rels: Vec<&str> = t.iter().map(|n| n.rel.as_str()).collect();
    assert_eq!(
        rels,
        ["api", "api/c.md", "Docs", "Docs/d", "Docs/d/e.md", "Docs/a.md", "docs", "docs/b.md"]
    );
    assert_eq!((t[2].doc_count, t[6].doc_count), (2, 1));
    for n in t.iter().filter(|n| !n.is_dir) {
        assert_eq!(n.rel, entries[n.entry.unwrap()].rel);
    }
    assert!(tree(&[]).is_empty());
}

#[test]
fn names_are_ordered_without_case_first() {
    let names: Vec<String> = ["b", "B", "a", "Ä", "C"].iter().map(|s| s.to_string()).collect();
    assert_eq!(ordered(&names), vec![2, 1, 0, 4, 3]);
    let chars = |list: &[&str]| -> Vec<Vec<char>> {
        list.iter().map(|s| s.chars().collect()).collect()
    };
    assert_eq!(order_by(&chars(&["b", "a", "c"]), &chars(&["1", "1", "0"])), vec![2, 1, 0]);
}

#[test]
fn paths_are_joined_and_named() {
    assert_eq!(join("/a", "b"), "/a/b");
    assert_eq!(join("/a/", "b"), "/a/b");
    assert_eq!(join("/a", "/b"), "/b");
    assert_eq!(join("", "b"), "b");
    assert_eq!(join("/a", ""), "/a/");
    assert!(absolute("/x") && !absolute("x") && !absolute(""));
    assert_eq!(title_of("/x/readme.md"), "readme.md");
    assert_eq!(title_of("/x/readme.md/"), "readme.md");
    assert_eq!(title_of(".."), "..");
    assert_eq!(extension_of("a.b.md"), Some("md".to_string()));
    assert_eq!(extension_of(".md"), None);
    assert_eq!(extension_of("md"), None);
    assert_eq!(extension_of("a."), Some(String::new()));
    assert!(is_markdown("/x/A.MD") && is_markdown("b.Markdown"));
    assert!(!is_markdown("/x/.md") && !is_markdown("a.txt") && !is_markdown("/"));
}

fn args(list: &[&str]) -> Command {
    let list: Vec<String> = list.iter().map(|s| s.to_string()).collect();
    parse_args(&list)
}

fn run(list: &[&str]) -> Args {
    match args(list) {
        Command::Run(a) => a,
        c => panic!("{:?}", complaint(&c)),
    }
}

#[test]
fn command_lines_are_read() {
    let a = run(&[]);
    assert!(a.file.is_none() && a.width.is_none() && !a.dump && !a.config && !a.clear_cache);
    assert!(!links_resolve(&a));
    let a = run(&["-d", "-w", "100", "x.md"]);
    assert_eq!((a.file.as_deref(), a.width, a.dump), (Some("x.md"), Some(100), true));
    assert!(links_resolve(&a));
    let a = run(&["--width=auto", "--config", "--clear-cache", "-"]);
    assert_eq!((a.file.as_deref(), a.width), (Some("-"), Some(0)));
    assert!(a.config && a.clear_cache && !links_resolve(&a));
    assert!(matches!(args(&["x", "-h", "y"]), Command::Help));
    assert!(matches!(args(&["--version"]), Command::Version));
}

#[test]
fn bad_command_lines_are_complained_of() {
    assert_eq!(complaint(&args(&["-w"])).unwrap(), "--width requires a value");
    assert_eq!(complaint(&args(&["-w", "x"])).unwrap(), "--width must be a number or `auto`");
    assert_eq!(complaint(&args(&["--width=-1"])).unwrap(), "--width must be a number or `auto`");
    assert_eq!(complaint(&args(&["-x"])).unwrap(), format!("unknown option: -x\n\n{USAGE}"));
    assert_eq!(
        complaint(&args(&["a", "b"])).unwrap(),
        format!("only one file may be given\n\n{USAGE}")
    );
    assert_eq!(complaint(&args(&["a"])), None);
    assert!(USAGE.starts_with("mdview - a less-style pager"));
}

#[test]
fn widths_are_numbers_or_auto() {
    assert_eq!(parse_width("AUTO"), Some(0));
    assert_eq!(parse_width("80"), Some(80));
    assert_eq!(parse_width("+80"), Some(80));
    assert_eq!(parse_width(""), None);
    assert_eq!(parse_width("99999999999999999999999"), None);
}

#[test]
fn editors_may_carry_arguments() {
    assert_eq!(editor_words(Some("code  -w"), Some("vim")), vec!["code", "-w"]);
    assert_eq!(editor_words(None, Some("vim")), vec!["vim"]);
    assert_eq!(editor_words(None, None), vec!["vi"]);
    assert!(words(" \t ").is_empty());
}

#[test]
fn configuration_is_looked_for_in_the_usual_places() {
    assert_eq!(
        config_path(Some("/xdg"), Some("/home/u")).unwrap(),
        "/xdg/mdview/config.toml"
    );
    assert_eq!(
        config_path(Some("relative"), Some("/home/u")).unwrap(),
        "/home/u/.config/mdview/config.toml"
    );
    assert_eq!(
        config_path(None, Some("/home/u")).unwrap(),
        "/home/u/.config/mdview/config.toml"
    );
    assert_eq!(config_path(Some("relative"), None), None);
    assert!(TEMPLATE.contains("wrap_width = 80\n"));
}

#[test]
fn configurations_are_checked() {
    let c = check(Config::default()).ok().unwrap();
    assert_eq!((c.wrap_width, c.left_margin), (80, 2));
    assert_eq!((c.theme.as_str(), c.default_view.as_str()), ("auto", "rendered"));
    let fail = |c: Config| check(c).err().unwrap();
    let e = fail(Config { wrap_width: 19, ..Config::default() });
    assert!(matches!(e, ConfigError::WrapWidth));
    assert_eq!(e.message(), "wrap_width must be at least 20");
    let e = fail(Config { left_margin: 17, ..Config::default() });
    assert_eq!(e.message(), "left_margin must be at most 16");
    let e = fail(Config { default_view: "x".into(), ..Config::default() });
    assert_eq!(e.message(), "default_view must be \"rendered\" or \"text\"");
    let e = fail(Config { theme: "x".into(), ..Config::default() });
    assert_eq!(e.message(), "theme must be \"auto\", \"dark\", or \"light\"");
    let e = fail(Config { code_theme: Some("x".into()), ..Config::default() });
    assert_eq!(
        e.message(),
        "unknown code_theme `x`; available: InspiredGitHub, Solarized (dark), Solarized (light), \
         base16-eighties.dark, base16-mocha.dark, base16-ocean.dark, base16-ocean.light"
    );
    assert!(check(Config { code_theme: Some("InspiredGitHub".into()), ..Config::default() }).is_ok());
    assert_eq!(theme_names().len(), 7);
}

#[test]
fn themes_follow_configuration_and_background() {
    let cfg = |t: &str| Config { theme: t.to_string(), ..Config::default() };
    assert_eq!(term_theme(&cfg("dark"), Some(true)), TermTheme::Dark);
    assert_eq!(term_theme(&cfg("light"), None), TermTheme::Light);
    assert_eq!(term_theme(&cfg("auto"), Some(true)), TermTheme::Light);
    assert_eq!(term_theme(&cfg("auto"), Some(false)), TermTheme::Dark);
    assert_eq!(term_theme(&cfg("auto"), None), TermTheme::Dark);
    assert_eq!(code_theme_name(&cfg("auto"), TermTheme::Dark), "base16-ocean.dark");
    assert_eq!(code_theme_name(&cfg("auto"), TermTheme::Light), "InspiredGitHub");
    let own = Config { code_theme: Some("x".into()), ..Config::default() };
    assert_eq!(code_theme_name(&own, TermTheme::Light), "x");
}

#[test]
fn dumps_are_as_wide_as_asked() {
    let cfg = with_width(Config::default(), Some(5));
    assert_eq!(cfg.wrap_width, 20);
    assert_eq!(dump_width(&cfg, Some(100)), 20);
    let auto = with_width(Config::default(), Some(0));
    assert_eq!(dump_width(&auto, Some(100)), 98);
    assert_eq!(dump_width(&auto, None), 78);
    assert_eq!(dump_width(&auto, Some(10)), 20);
    assert_eq!(with_width(Config::default(), None).wrap_width, 80);
    assert_eq!(with_width(Config::default(), Some(120)).wrap_width, 120);
}

#[test]
fn styles_become_codes() {
    let mut s = Style::default().bold().dim().fg(Color::Rgb { r: 1, g: 20, b: 255 });
    s.italic = true;
    s.underline = true;
    s.reverse = true;
    s.strikethrough = true;
    assert_eq!(style_codes(&s), vec!["1", "2", "3", "4", "7", "9", "38;2;1;20;255"]);
    let code = |c: Color| style_codes(&Style::default().fg(c));
    assert_eq!(code(Color::Black), vec!["30"]);
    assert_eq!(code(Color::DarkGrey), vec!["90"]);
    assert_eq!(code(Color::White), vec!["97"]);
    assert!(code(Color::Reset).is_empty());
    assert!(code(Color::AnsiValue(3)).is_empty());
}

#[test]
fn lines_are_dumped_behind_the_margin() {
    let mut l = Line::default();
    l.push(Span::plain("a "));
    l.push(Span::new("b", Style { link: Some("https://x".into()), ..Style::default().bold() }));
    l.push(Span::new("c", Style { link: Some("#x".into()), ..Style::default() }));
    let want = "a \x1b]8;;https://x\x1b\\\x1b[1mb\x1b[0m\x1b]8;;\x1b\\c";
    assert_eq!(line_ansi(&l), want);
    let cfg = Config::default();
    assert_eq!(dump_line(&l, &cfg), format!("  {want}"));
    assert_eq!(dump_line(&Line::default(), &cfg), "");
    let wide = Config { left_margin: 99, ..Config::default() };
    assert_eq!(dump_line(&l, &wide), format!("{}{want}", " ".repeat(16)));
}
