use mdview::diagram::{
    accept_body, cache_dir, cache_key, cache_path, is_png, latex_png, latex_request, lookup,
    mermaid_png, mermaid_request, offer_cached, percent_encode, take_dirty, Diagrams, Lookup,
    MAX_PNG_BYTES,
};
use mdview::geometry::{
    detect_image_mode, effective_margin, known_size, wrap_width, Window,
};
use mdview::images;
use mdview::kitty::{
    da1_answered, delete_all, env_hint, find, non_response_bytes, parse_probe, parse_x_color,
    place, placeholder_cell, transmit, Probe, PLACEHOLDER, PROBE_QUERY,
};
use mdview::config::Config;
use mdview::render::ImageMode;
use std::hash::{Hash, Hasher};

#[test]
fn percent_encodes_reserved_bytes() {
    assert_eq!(percent_encode("a b\\c{1}"), "a%20b%5Cc%7B1%7D");
}

#[test]
fn percent_encodes_bytes_not_characters() {
    assert_eq!(percent_encode("é-_.~"), "%C3%A9-_.~");
}

#[test]
fn cache_keys_differ_by_kind_and_source() {
    let a = cache_key("mermaid", "graph LR");
    let b = cache_key("latex", "graph LR");
    let c = cache_key("mermaid", "graph TD");
    assert_ne!(a, b);
    assert_ne!(a, c);
    assert_eq!(a, cache_key("mermaid", "graph LR"));
}

#[test]
fn cache_keys_hash_what_std_hashes() {
    let mut h = std::collections::hash_map::DefaultHasher::new();
    "mermaid".hash(&mut h);
    "graph LR".hash(&mut h);
    let a = h.finish();
    "graph LR".len().hash(&mut h);
    let want = format!("mermaid-{a:016x}{:016x}", h.finish());
    assert_eq!(cache_key("mermaid", "graph LR"), want);
}

#[test]
fn png_sniffing() {
    assert!(is_png(&[0x89, b'P', b'N', b'G', 1, 2]));
    assert!(!is_png(b"<html>error</html>"));
}

#[test]
fn bodies_over_the_cap_are_refused() {
    let mut body = vec![0x89, b'P', b'N', b'G'];
    assert_eq!(accept_body(body.clone()), Some(body.clone()));
    assert_eq!(accept_body(b"<html>".to_vec()), None);
    body.resize(MAX_PNG_BYTES, 0);
    assert!(accept_body(body.clone()).is_some());
    body.push(0);
    assert!(accept_body(body).is_none());
}

#[test]
fn cache_paths_are_below_the_cache_directory() {
    assert_eq!(cache_dir(Some("/c")), Some("/c/mdview".to_string()));
    assert_eq!(cache_dir(None), None);
    assert_eq!(cache_path(Some("/c"), "k"), Some("/c/mdview/k.png".to_string()));
    assert_eq!(cache_path(None, "k"), None);
}

#[test]
fn latex_urls_carry_the_trimmed_formula() {
    let r = latex_request(" x^2\n", true);
    assert_eq!(
        r.url,
        "https://latex.codecogs.com/png.image?%5Cdpi%7B200%7D%5Cbg%7Btransparent%7D%5Ccolor%7Bwhite%7Dx%5E2"
    );
    assert_eq!(r.key, cache_key("latex-dark", " x^2\n"));
    let r = latex_request("x", false);
    assert!(r.url.ends_with("%5Ccolor%7Bblack%7Dx"));
    assert!(r.key.starts_with("latex-light-"));
}

#[test]
fn mermaid_urls_carry_the_state_in_base64() {
    let r = mermaid_request("a\"b", true);
    // {"code":"a\"b","mermaid":{"theme":"dark"}}
    assert_eq!(
        r.url,
        "https://mermaid.ink/img/base64:eyJjb2RlIjoiYVwiYiIsIm1lcm1haWQiOnsidGhlbWUiOiJkYXJrIn19?type=png&bgColor=!2b303b"
    );
    assert!(r.key.starts_with("mermaid-dark-"));
    let r = mermaid_request("x", false);
    assert!(r.url.ends_with("?type=png&bgColor=!ffffff"));
}

#[test]
fn diagrams_are_fetched_once() {
    let mut memo = Diagrams::new();
    let png = vec![0x89, b'P', b'N', b'G'];
    let req = match latex_png(&memo, "x", true) {
        Lookup::Unknown(req) => req,
        _ => panic!("not asked for yet"),
    };
    assert_eq!(req.url, latex_request("x", true).url);
    // Nothing on disk, or something else: it is being fetched.
    assert_eq!(offer_cached(&mut memo, &req.key, Some(b"<html>".to_vec())), None);
    assert!(matches!(latex_png(&memo, "x", true), Lookup::Unavailable));
    assert!(!take_dirty(&mut memo));
    memo.finish(req.key.clone(), Some(png.clone()));
    assert!(take_dirty(&mut memo));
    assert!(!take_dirty(&mut memo));
    match latex_png(&memo, "x", true) {
        Lookup::Ready(bytes) => assert_eq!(bytes, png),
        _ => panic!("fetched"),
    }
    // Another one fails for good.
    let req = match mermaid_png(&memo, "y", false) {
        Lookup::Unknown(req) => req,
        _ => panic!("not asked for yet"),
    };
    assert_eq!(offer_cached(&mut memo, &req.key, None), None);
    memo.finish(req.key.clone(), None);
    assert!(matches!(lookup(&memo, req), Lookup::Unavailable));
    // What the disk has is there at once.
    assert_eq!(offer_cached(&mut memo, "k", Some(png.clone())), Some(png));
}

#[test]
fn images_are_prepared_once() {
    let mut memo = images::Images::new();
    let key = match images::request(&mut memo, "/a.png", Some(7), 0, 20) {
        images::Answer::Start(key) => key,
        _ => panic!("not asked for yet"),
    };
    assert_eq!((key.path.as_str(), key.changed, key.max_w, key.max_h), ("/a.png", Some(7), 1, 20));
    assert!(matches!(
        images::request(&mut memo, "/a.png", Some(7), 1, 20),
        images::Answer::Unavailable
    ));
    assert!(matches!(
        images::request(&mut memo, "/a.png", Some(8), 1, 20),
        images::Answer::Start(_)
    ));
    memo.finish(key, Some(images::Prepared { png: vec![1, 2], width: 3, height: 4 }));
    assert!(images::take_dirty(&mut memo));
    assert!(!images::take_dirty(&mut memo));
    match images::request(&mut memo, "/a.png", Some(7), 1, 20) {
        images::Answer::Ready(p) => assert_eq!((p.png.as_slice(), p.width), (&[1u8, 2][..], 3)),
        _ => panic!("prepared"),
    }
}

#[test]
fn parses_x_color_replies() {
    assert_eq!(parse_x_color("rgb:2b2b/3030/3b3b"), Some((0x2b, 0x30, 0x3b)));
    assert_eq!(parse_x_color("rgb:ff/ff/ff"), Some((255, 255, 255)));
    assert_eq!(parse_x_color("rgb:f/0/8"), Some((255, 0, 0x88)));
    assert_eq!(parse_x_color("nonsense"), None);
}

#[test]
fn color_replies_are_read_strictly() {
    assert_eq!(parse_x_color(" rgb:fff/000/800\n"), Some((255, 0, 128)));
    assert_eq!(parse_x_color("rgb:ff/ff"), None);
    assert_eq!(parse_x_color("rgb:fffff/0/0"), None);
    assert_eq!(parse_x_color("rgb:/0/0"), None);
    assert_eq!(parse_x_color("rgb:g/0/0"), None);
    assert_eq!(parse_x_color("rgb:+f/0/0"), None);
    assert_eq!(parse_x_color("rgb:1/2/3/4"), Some((0x11, 0x22, 0x33)));
}

#[test]
fn probe_replies_are_never_reinjected() {
    let buf = b"\x1b_Gi=31;OK\x1b\\\x1b]11;rgb:ffff/ffff/ffff\x07\x1b[6;20;10t\x1b[?64cq";
    assert_eq!(non_response_bytes(buf), b"q");
}

#[test]
fn keystrokes_are_kept_around_replies() {
    assert_eq!(non_response_bytes(b"jk"), b"jk");
    assert_eq!(non_response_bytes(b"\x1b[A\x1b[?1cx\x1b[5~"), b"\x1b[Ax\x1b[5~");
    assert_eq!(non_response_bytes(b"a\x1b"), b"a\x1b");
    assert_eq!(non_response_bytes(b"\x1bOP"), b"\x1bOP");
    // A reply that ends in ESC \ does not reach for a later BEL.
    assert_eq!(non_response_bytes(b"\x1b]11;rgb:0/0/0\x1b\\q\x07"), b"q\x07");
    assert_eq!(non_response_bytes(b"\x1b_Gunfinished"), b"");
    assert_eq!(non_response_bytes(b"\x1b[12"), b"\x1b[12");
}

#[test]
fn probe_replies_are_parsed() {
    let buf = b"\x1b_Gi=31;OK\x1b\\\x1b]11;rgb:ffff/0000/8080\x07\x1b[6;20;10t\x1b[?64c";
    let mut probe = Probe::default();
    parse_probe(buf, &mut probe);
    assert!(probe.graphics);
    assert_eq!(probe.bg, Some((255, 0, 128)));
    assert_eq!(probe.cell, Some((10, 20)));
    assert!(da1_answered(buf));

    let mut probe = Probe::default();
    parse_probe(b"\x1b_Gi=31;ENOENT\x1b\\OK\x1b[6;0;10t", &mut probe);
    assert!(!probe.graphics);
    assert_eq!(probe.bg, None);
    assert_eq!(probe.cell, None);
    assert!(!da1_answered(b"\x1b[?64"));
    assert!(!da1_answered(b"c"));
}

#[test]
fn keys_before_the_cell_size_do_not_hide_it() {
    let mut probe = Probe::default();
    parse_probe(b"\x1b[6;2~\x1b[6;20;10t", &mut probe);
    assert_eq!(probe.cell, Some((10, 20)));
    let mut probe = Probe::default();
    parse_probe(b"\x1b[6;20;10\x1b[6;xt\x1b[6;8;4t\x1b[6;9;9t", &mut probe);
    assert_eq!(probe.cell, Some((4, 8)));
    let mut probe = Probe::default();
    parse_probe(b"\x1b[6;2~t", &mut probe);
    assert_eq!(probe.cell, None);
}

#[test]
fn bytes_that_are_no_text_are_no_color() {
    let mut probe = Probe::default();
    parse_probe(b"\x1b]11;rgb:\xff/0/0\x07", &mut probe);
    assert_eq!(probe.bg, None);
}

#[test]
fn find_gives_the_first_place() {
    assert_eq!(find(b"abcabc", b"ca"), Some(2));
    assert_eq!(find(b"abc", b"abcd"), None);
    assert_eq!(find(b"aab", b"ab"), Some(1));
}

#[test]
fn kitty_escape_sequences_are_well_formed() {
    let mut buf = Vec::new();
    transmit(&mut buf, 3, b"12345");
    let s = String::from_utf8(buf).unwrap();
    assert!(s.starts_with("\x1b_Ga=t,i=3,f=100,t=d,q=2,m=0;"), "{s:?}");
    assert!(s.ends_with("\x1b\\"));

    let mut buf = Vec::new();
    place(&mut buf, 3, 10, 5);
    assert_eq!(
        String::from_utf8(buf).unwrap(),
        "\x1b_Ga=p,U=1,i=3,p=1,c=10,r=5,q=2\x1b\\"
    );

    let cell = placeholder_cell(0, 1).unwrap();
    let chars: Vec<char> = cell.chars().collect();
    assert_eq!(chars[0], PLACEHOLDER);
    assert_eq!(chars[1], '\u{0305}'); // row 0
    assert_eq!(chars[2], '\u{030D}'); // col 1
}

#[test]
fn transmission_is_chunked() {
    let mut buf = b"x".to_vec();
    transmit(&mut buf, 7, &[0u8; 3073]);
    let s = String::from_utf8(buf).unwrap();
    let first = format!("x\x1b_Ga=t,i=7,f=100,t=d,q=2,m=1;{}\x1b\\", "A".repeat(4096));
    assert!(s.starts_with(&first));
    assert_eq!(&s[first.len()..], "\x1b_Gm=0;AA==\x1b\\");
    let mut buf = Vec::new();
    transmit(&mut buf, 7, b"");
    assert!(buf.is_empty());
    transmit(&mut buf, 7, b"12345");
    assert_eq!(
        String::from_utf8(buf).unwrap(),
        "\x1b_Ga=t,i=7,f=100,t=d,q=2,m=0;MTIzNDU=\x1b\\"
    );
}

#[test]
fn deleting_and_probing_are_fixed_sequences() {
    let mut buf = Vec::new();
    delete_all(&mut buf);
    assert_eq!(buf, b"\x1b_Ga=d,d=A,q=2\x1b\\");
    assert_eq!(
        PROBE_QUERY.as_bytes(),
        b"\x1b_Gi=31,s=1,v=1,a=q,t=d,f=24;AAAA\x1b\\\x1b]11;?\x1b\\\x1b[16t\x1b[c"
    );
}

#[test]
fn cells_end_where_diacritics_do() {
    assert!(placeholder_cell(296, 296).is_some());
    assert!(placeholder_cell(297, 0).is_none());
    assert!(placeholder_cell(0, 297).is_none());
}

#[test]
fn environment_hints() {
    assert!(env_hint(true, "", ""));
    assert!(env_hint(false, "xterm-kitty", ""));
    assert!(env_hint(false, "xterm-ghostty", ""));
    assert!(env_hint(false, "", "Ghostty"));
    assert!(!env_hint(false, "xterm-256color", "iTerm.app"));
}

#[test]
fn image_mode_needs_support_and_a_cell_size() {
    let ws = Some(Window { columns: 80, rows: 24, width: 800, height: 480 });
    let none = Probe::default();
    let yes = Probe { graphics: true, cell: Some((7, 15)), bg: None };
    let kitty = ImageMode::Kitty { cell_w: 10, cell_h: 20 };
    assert_eq!(detect_image_mode(false, "xterm", "", &yes, ws), kitty);
    assert_eq!(detect_image_mode(true, "xterm", "", &none, ws), kitty);
    assert_eq!(detect_image_mode(false, "xterm", "", &none, ws), ImageMode::Off);
    assert_eq!(detect_image_mode(false, "xterm", "WezTerm", &yes, ws), ImageMode::Off);
    assert_eq!(detect_image_mode(false, "wezterm", "", &yes, ws), ImageMode::Off);
    assert_eq!(
        detect_image_mode(false, "xterm", "", &yes, None),
        ImageMode::Kitty { cell_w: 7, cell_h: 15 }
    );
    assert_eq!(detect_image_mode(true, "xterm", "", &none, None), ImageMode::Off);
    let tiny = Some(Window { columns: 80, rows: 24, width: 40, height: 12 });
    assert_eq!(
        detect_image_mode(false, "", "", &yes, tiny),
        ImageMode::Kitty { cell_w: 1, cell_h: 1 }
    );
}

#[test]
fn margins_and_widths_follow_the_terminal() {
    let cfg = Config::default();
    assert_eq!(effective_margin(&cfg, 100), 2);
    assert_eq!(effective_margin(&cfg, 21), 1);
    assert_eq!(effective_margin(&cfg, 10), 0);
    assert_eq!(wrap_width(&cfg, 200), 80);
    assert_eq!(wrap_width(&cfg, 60), 58);
    assert_eq!(wrap_width(&cfg, 10), 20);
    let auto = Config { wrap_width: 0, ..Config::default() };
    assert_eq!(wrap_width(&auto, 200), 198);
    assert_eq!(known_size(0, 0), (80, 24));
    assert_eq!(known_size(5, 6), (5, 6));
}
