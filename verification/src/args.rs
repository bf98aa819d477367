//! The command line.

use vstd::prelude::*;
use crate::numbers;
use crate::strings;
use crate::strings::{from_chars, str_eq, to_chars};
use crate::text;

verus! {

broadcast use strings::group_views;

/// What `--version` shows.
pub const VERSION: &'static str = "0.1.0";

/// What `--help` shows.
pub const USAGE: &'static str = "mdview - a less-style pager for markdown files

Usage: mdview [OPTIONS] [FILE]
       command | mdview

Options:
  -w, --width <N>       Reflow paragraphs to at most N columns (default 120,
                        or `wrap_width` in the config file); 0 or `auto`
                        wraps at the terminal width and re-wraps on resize
  -d, --dump            Print the rendered document to stdout and exit
  -c, --config          Open the config file in $EDITOR (creating it with
                        defaults first if needed)
      --clear-cache     Delete the rendered-diagram cache (mermaid/LaTeX)
  -h, --help            Show this help
  -V, --version         Show version

Config file: ~/.config/mdview/config.toml
  wrap_width = 120
  code_theme = \"base16-ocean.dark\"
  default_view = \"rendered\"   # or \"text\": show diagram blocks as source

Press h inside the pager for key bindings.";

/// What a run was asked to do.
pub struct Args {
    pub file: Option<String>,
    pub width: Option<usize>,
    pub dump: bool,
    pub config: bool,
    pub clear_cache: bool,
}

#[verifier::ext_equal]
pub struct ArgsView {
    pub file: Option<Seq<char>>,
    pub width: Option<usize>,
    pub dump: bool,
    pub config: bool,
    pub clear_cache: bool,
}

impl View for Args {
    type V = ArgsView;

    open spec fn view(&self) -> ArgsView {
        ArgsView {
            file: text::opt_view(self.file),
            width: self.width,
            dump: self.dump,
            config: self.config,
            clear_cache: self.clear_cache,
        }
    }
}

/// What a command line comes to.
pub enum Command {
    Help,
    Version,
    Run(Args),
    /// `--width` at the end.
    WidthMissing,
    /// A width that is neither a number nor `auto`.
    WidthBad,
    Unknown(String),
    /// More than one file.
    TwoFiles,
}

pub enum CommandView {
    Help,
    Version,
    Run(ArgsView),
    WidthMissing,
    WidthBad,
    Unknown(Seq<char>),
    TwoFiles,
}

impl View for Command {
    type V = CommandView;

    open spec fn view(&self) -> CommandView {
        match self {
            Command::Help => CommandView::Help,
            Command::Version => CommandView::Version,
            Command::Run(a) => CommandView::Run(a@),
            Command::WidthMissing => CommandView::WidthMissing,
            Command::WidthBad => CommandView::WidthBad,
            Command::Unknown(s) => CommandView::Unknown(s@),
            Command::TwoFiles => CommandView::TwoFiles,
        }
    }
}

/// The width that `--width` asks for: a column count, or zero for `auto`.
pub open spec fn width_of(v: Seq<char>) -> Option<usize> {
    if strings::lowered(v) == strings::lowered("auto"@) {
        Some(0)
    } else {
        match numbers::parsed(v, 10, usize::MAX as nat) {
            Some(n) => Some(n as usize),
            None => None,
        }
    }
}

/// `--width` value: a column count, or 0 / `auto` for the terminal width.
pub fn parse_width(v: &str) -> (r: Option<usize>)
    ensures
        r == width_of(v@),
{
    if strings::to_lower(v) == strings::to_lower("auto") {
        return Some(0);
    }
    match numbers::parse(v, 10, usize::MAX as u64) {
        Some(n) => Some(n as usize),
        None => None,
    }
}

/// What the arguments from `i` on come to, after those before them set `a`.
pub open spec fn command_from(args: Seq<Seq<char>>, i: int, a: ArgsView) -> CommandView
    decreases args.len() - i,
{
    if i >= args.len() {
        CommandView::Run(a)
    } else {
        let arg = args[i];
        if arg == "-h"@ || arg == "--help"@ {
            CommandView::Help
        } else if arg == "-V"@ || arg == "--version"@ {
            CommandView::Version
        } else if arg == "-d"@ || arg == "--dump"@ {
            command_from(args, i + 1, ArgsView { dump: true, ..a })
        } else if arg == "-c"@ || arg == "--config"@ {
            command_from(args, i + 1, ArgsView { config: true, ..a })
        } else if arg == "--clear-cache"@ {
            command_from(args, i + 1, ArgsView { clear_cache: true, ..a })
        } else if arg == "-w"@ || arg == "--width"@ {
            if i + 1 >= args.len() {
                CommandView::WidthMissing
            } else {
                match width_of(args[i + 1]) {
                    Some(w) => command_from(args, i + 2, ArgsView { width: Some(w), ..a }),
                    None => CommandView::WidthBad,
                }
            }
        } else if strings::stands_at(arg, "--width="@, 0) {
            match width_of(arg.skip("--width="@.len() as int)) {
                Some(w) => command_from(args, i + 1, ArgsView { width: Some(w), ..a }),
                None => CommandView::WidthBad,
            }
        } else if arg.len() > 0 && arg[0] == '-' && arg != "-"@ {
            CommandView::Unknown(arg)
        } else if a.file is Some {
            CommandView::TwoFiles
        } else {
            command_from(args, i + 1, ArgsView { file: Some(arg), ..a })
        }
    }
}

/// What a command line comes to.
pub open spec fn command(args: Seq<Seq<char>>) -> CommandView {
    command_from(
        args,
        0,
        ArgsView { file: None, width: None, dump: false, config: false, clear_cache: false },
    )
}

fn is_either(arg: &str, short: &str, long: &str) -> (r: bool)
    ensures
        r == (arg@ == short@ || arg@ == long@),
{
    str_eq(arg, short) || str_eq(arg, long)
}

/// The width behind `--width=`, where an argument starts so.
fn attached_width(arg: &str) -> (r: Option<Option<usize>>)
    ensures
        strings::stands_at(arg@, "--width="@, 0) ==> r == Some(
            width_of(arg@.skip("--width="@.len() as int)),
        ),
        !strings::stands_at(arg@, "--width="@, 0) ==> r is None,
{
    if !strings::starts_with(arg, "--width=") {
        return None;
    }
    proof {
        reveal_strlit("--width=");
    }
    let chars = to_chars(arg);
    let rest = from_chars(&chars, 8, chars.len());
    assert(rest@ =~= arg@.skip(8));
    Some(parse_width(rest.as_str()))
}

/// Reads the command line, without the program's name.
pub fn parse_args(args: &Vec<String>) -> (r: Command)
    ensures
        r@ == command(strings::views(args@)),
{
    let ghost all = strings::views(args@);
    let mut a = Args { file: None, width: None, dump: false, config: false, clear_cache: false };
    let n: usize = args.len();
    let mut i: usize = 0;
    while i < n
        invariant
            i <= n,
            n == args@.len(),
            all == strings::views(args@),
            command(all) == command_from(all, i as int, a@),
        decreases n - i,
    {
        let arg = args[i].as_str();
        assert(all[i as int] == arg@);
        if is_either(arg, "-h", "--help") {
            return Command::Help;
        }
        if is_either(arg, "-V", "--version") {
            return Command::Version;
        }
        let ghost before = a@;
        if is_either(arg, "-d", "--dump") {
            a.dump = true;
            assert(a@ =~= ArgsView { dump: true, ..before });
        } else if is_either(arg, "-c", "--config") {
            a.config = true;
            assert(a@ =~= ArgsView { config: true, ..before });
        } else if str_eq(arg, "--clear-cache") {
            a.clear_cache = true;
            assert(a@ =~= ArgsView { clear_cache: true, ..before });
        } else if is_either(arg, "-w", "--width") {
            if n - i == 1 {
                return Command::WidthMissing;
            }
            i = i + 1;
            assert(all[i as int] == args@[i as int]@);
            match parse_width(args[i].as_str()) {
                Some(w) => {
                    a.width = Some(w);
                    assert(a@ =~= ArgsView { width: Some(w), ..before });
                },
                None => {
                    return Command::WidthBad;
                },
            }
        } else {
            match attached_width(arg) {
                Some(Some(w)) => {
                    a.width = Some(w);
                    assert(a@ =~= ArgsView { width: Some(w), ..before });
                },
                Some(None) => {
                    return Command::WidthBad;
                },
                None => {
                    let chars = to_chars(arg);
                    if chars.len() > 0 && chars[0] == '-' && !str_eq(arg, "-") {
                        return Command::Unknown(arg.to_owned());
                    }
                    if a.file.is_some() {
                        return Command::TwoFiles;
                    }
                    a.file = Some(arg.to_owned());
                    assert(a@ =~= ArgsView { file: Some(arg@), ..before });
                },
            }
        }
        i = i + 1;
    }
    Command::Run(a)
}

/// Whether the links of what is read resolve against its directory: not from
/// standard input, which has none of its own.
pub fn links_resolve(args: &Args) -> (r: bool)
    ensures
        r == (args@.file is Some && args@.file->0 != "-"@),
{
    match &args.file {
        Some(f) => !str_eq(f.as_str(), "-"),
        None => false,
    }
}

/// What is said of a command line that cannot be run.
pub fn complaint(c: &Command) -> (r: Option<String>)
    ensures
        text::opt_view(r) == (match c@ {
            CommandView::WidthMissing => Some("--width requires a value"@),
            CommandView::WidthBad => Some("--width must be a number or `auto`"@),
            CommandView::Unknown(arg) => Some("unknown option: "@ + arg + "\n\n"@ + USAGE@),
            CommandView::TwoFiles => Some("only one file may be given\n\n"@ + USAGE@),
            _ => None,
        }),
{
    match c {
        Command::WidthMissing => Some("--width requires a value".to_owned()),
        Command::WidthBad => Some("--width must be a number or `auto`".to_owned()),
        Command::Unknown(arg) => {
            let mut s: String = "unknown option: ".to_owned();
            s.push_str(arg.as_str());
            s.push_str("\n\n");
            s.push_str(USAGE);
            Some(s)
        },
        Command::TwoFiles => {
            let mut s: String = "only one file may be given\n\n".to_owned();
            s.push_str(USAGE);
            Some(s)
        },
        _ => None,
    }
}

/// The words of a text, from `from` on.
pub open spec fn words_from(s: Seq<char>, from: int) -> Seq<Seq<char>>
    decreases s.len() - from,
    when 0 <= from <= s.len() via words_from_ends
{
    if from >= s.len() {
        seq![]
    } else if strings::is_white(s[from]) {
        words_from(s, from + 1)
    } else {
        let end = strings::white_at(s, from);
        seq![s.subrange(from, end)] + words_from(s, end)
    }
}

proof fn white_at_bounds(s: Seq<char>, from: int)
    requires
        0 <= from <= s.len(),
    ensures
        from <= strings::white_at(s, from) <= s.len(),
        from < s.len() && !strings::is_white(s[from]) ==> from < strings::white_at(s, from),
    decreases s.len() - from,
{
    if from < s.len() && !strings::is_white(s[from]) {
        white_at_bounds(s, from + 1);
    }
}

#[via_fn]
proof fn words_from_ends(s: Seq<char>, from: int) {
    white_at_bounds(s, from);
}

/// The words of a text, between white space.
pub fn words(s: &str) -> (r: Vec<String>)
    ensures
        strings::views(r@) == words_from(s@, 0),
{
    let chars = to_chars(s);
    let n: usize = chars.len();
    let mut out: Vec<String> = Vec::new();
    let mut from: usize = 0;
    assert(strings::views(out@) + words_from(s@, 0) =~= words_from(s@, 0));
    while from < n
        invariant
            from <= n,
            n == chars@.len(),
            chars@ == s@,
            strings::views(out@) + words_from(s@, from as int) == words_from(s@, 0),
        decreases n - from,
    {
        if chars[from].is_whitespace() {
            from = from + 1;
        } else {
            let mut end: usize = from;
            while end < n && !chars[end].is_whitespace()
                invariant
                    from <= end <= n,
                    n == chars@.len(),
                    chars@ == s@,
                    strings::white_at(s@, from as int) == strings::white_at(s@, end as int),
                decreases n - end,
            {
                end = end + 1;
            }
            proof {
                white_at_bounds(s@, from as int);
            }
            let word = from_chars(&chars, from, end);
            let ghost before = strings::views(out@);
            let ghost rest = words_from(s@, end as int);
            out.push(word);
            assert(before + (seq![word@] + rest) =~= before.push(word@) + rest);
            from = end;
        }
    }
    assert(strings::views(out@) + words_from(s@, from as int) =~= strings::views(out@));
    out
}

/// The editor to use: `$VISUAL`, or else `$EDITOR`, or else `vi`. It may carry
/// arguments ("code -w"), so its words are handed out.
pub fn editor_words(visual: Option<&str>, editor: Option<&str>) -> (r: Vec<String>)
    ensures
        strings::views(r@) == words_from(
            match (visual, editor) {
                (Some(v), _) => v@,
                (None, Some(e)) => e@,
                (None, None) => "vi"@,
            },
            0,
        ),
{
    match (visual, editor) {
        (Some(v), _) => words(v),
        (None, Some(e)) => words(e),
        (None, None) => words("vi"),
    }
}

} // verus!
