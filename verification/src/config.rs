//! User configuration.

use vstd::prelude::*;
use crate::highlight;
use crate::highlight::{knows_theme, theme_names};
use crate::paths;
use crate::state::TermTheme;
use crate::strings;
use crate::strings::str_eq;
use crate::text;

verus! {

/// User configuration, loaded from `~/.config/mdview/config.toml` (or the
/// platform config dir). Every field has a default so a partial file is fine.
#[derive(Debug)]
pub struct Config {
    /// Maximum column paragraphs are reflowed to. The effective width is the
    /// smaller of this and the terminal width; zero stands for the latter.
    pub wrap_width: usize,
    /// Columns of blank margin at the left edge of the pager and --dump
    /// output. Applied at print time; reflow width is computed so text still
    /// fits the terminal.
    pub left_margin: usize,
    /// "auto" (detect via OSC 11), "dark", or "light"; drives default code
    /// theme, link blue, and diagram colors.
    pub theme: String,
    /// Syntect theme for fenced code blocks. Unset picks a default matching
    /// the terminal theme.
    pub code_theme: Option<String>,
    /// How mermaid/latex blocks start out: "rendered" as diagrams, or as
    /// their "text" source (toggled in the pager with v).
    pub default_view: String,
}

#[verifier::ext_equal]
pub struct ConfigView {
    pub wrap_width: usize,
    pub left_margin: usize,
    pub theme: Seq<char>,
    pub code_theme: Option<Seq<char>>,
    pub default_view: Seq<char>,
}

impl View for Config {
    type V = ConfigView;

    open spec fn view(&self) -> ConfigView {
        ConfigView {
            wrap_width: self.wrap_width,
            left_margin: self.left_margin,
            theme: self.theme@,
            code_theme: text::opt_view(self.code_theme),
            default_view: self.default_view@,
        }
    }
}

/// The configuration where none is given.
pub open spec fn default_config() -> ConfigView {
    ConfigView {
        wrap_width: 80,
        left_margin: 2,
        theme: "auto"@,
        code_theme: None,
        default_view: "rendered"@,
    }
}

impl Default for Config {
    fn default() -> (r: Config)
        ensures
            r@ == default_config(),
    {
        Config {
            wrap_width: 80,
            left_margin: 2,
            theme: "auto".to_owned(),
            code_theme: None,
            default_view: "rendered".to_owned(),
        }
    }
}

impl Clone for Config {
    fn clone(&self) -> (r: Config)
        ensures
            r@ == self@,
    {
        Config {
            wrap_width: self.wrap_width,
            left_margin: self.left_margin,
            theme: self.theme.clone(),
            code_theme: match &self.code_theme {
                Some(t) => Some(t.clone()),
                None => None,
            },
            default_view: self.default_view.clone(),
        }
    }
}

/// The configuration file in a configuration directory.
pub open spec fn file_in(dir: Seq<char>) -> Seq<char> {
    paths::joined(paths::joined(dir, "mdview"@), "config.toml"@)
}

/// `$XDG_CONFIG_HOME/mdview/config.toml`, defaulting to `~/.config` — the
/// terminal-tool convention even on macOS. A relative `$XDG_CONFIG_HOME` does
/// not count.
pub fn config_path(xdg: Option<&str>, home: Option<&str>) -> (r: Option<String>)
    ensures
        match (xdg, home) {
            (Some(x), h) if paths::is_absolute(x@) => r is Some && r->0@ == file_in(x@),
            (_, Some(h)) => r is Some && r->0@ == file_in(paths::joined(h@, ".config"@)),
            _ => r is None,
        },
{
    let dir = match xdg {
        Some(x) if paths::absolute(x) => x.to_owned(),
        _ => match home {
            Some(h) => paths::join(h, ".config"),
            None => {
                return None;
            },
        },
    };
    let sub = paths::join(dir.as_str(), "mdview");
    Some(paths::join(sub.as_str(), "config.toml"))
}

/// Written when `--config` is used before any config file exists.
pub const TEMPLATE: &'static str = "# mdview configuration

# Paragraphs reflow to at most this many columns (capped at the terminal width).
wrap_width = 80

# Blank columns at the left edge (shrinks to 0 on very narrow terminals).
left_margin = 2

# \"auto\" detects the terminal background (OSC 11); or force \"dark\" / \"light\".
theme = \"auto\"

# Theme for fenced code blocks; unset matches the terminal theme. One of:
#   base16-ocean.dark, base16-eighties.dark, base16-mocha.dark,
#   base16-ocean.light, InspiredGitHub, Solarized (dark), Solarized (light)
# code_theme = \"base16-ocean.dark\"

# How mermaid/latex blocks start out: \"rendered\" diagrams, or their \"text\"
# source (toggle with v).
default_view = \"rendered\"
";

/// What is wrong with a configuration.
pub enum ConfigError {
    WrapWidth,
    LeftMargin,
    DefaultView,
    Theme,
    /// The theme that is not known, and those that are.
    CodeTheme(String, Vec<String>),
}

/// Whether a configuration names one of the two starting views.
pub open spec fn known_view(v: Seq<char>) -> bool {
    v == "rendered"@ || v == "text"@
}

/// Whether a configuration names a terminal theme or leaves it to detection.
pub open spec fn known_theme(t: Seq<char>) -> bool {
    t == "auto"@ || t == "dark"@ || t == "light"@
}

/// Whether a code theme is unset or is one that syntect ships.
pub open spec fn known_code_theme(t: Option<Seq<char>>) -> bool {
    t is None || highlight::default_theme(t->0) is Some
}

/// Whether nothing is wrong with a configuration.
pub open spec fn sound(c: ConfigView) -> bool {
    c.wrap_width >= 20 && c.left_margin <= 16 && known_view(c.default_view) && known_theme(c.theme)
        && known_code_theme(c.code_theme)
}

/// Validates a configuration: the first thing that is wrong with it, if
/// anything is.
pub fn check(cfg: Config) -> (r: Result<Config, ConfigError>)
    ensures
        r is Ok <==> sound(cfg@),
        r is Ok ==> r->Ok_0 == cfg,
        r is Err ==> ({
            let c = cfg@;
            let e = r->Err_0;
            if c.wrap_width < 20 {
                e is WrapWidth
            } else if c.left_margin > 16 {
                e is LeftMargin
            } else if !known_view(c.default_view) {
                e is DefaultView
            } else if !known_theme(c.theme) {
                e is Theme
            } else {
                e matches ConfigError::CodeTheme(name, known) && Some(name@) == c.code_theme
                    && highlight::lists_themes(strings::views(known@))
            }
        }),
{
    if cfg.wrap_width < 20 {
        return Err(ConfigError::WrapWidth);
    }
    if cfg.left_margin > 16 {
        return Err(ConfigError::LeftMargin);
    }
    let view = cfg.default_view.as_str();
    if !(str_eq(view, "rendered") || str_eq(view, "text")) {
        return Err(ConfigError::DefaultView);
    }
    let theme = cfg.theme.as_str();
    if !(str_eq(theme, "auto") || str_eq(theme, "dark") || str_eq(theme, "light")) {
        return Err(ConfigError::Theme);
    }
    if let Some(t) = &cfg.code_theme {
        if !knows_theme(t.as_str()) {
            return Err(ConfigError::CodeTheme(t.clone(), theme_names()));
        }
    }
    Ok(cfg)
}

/// Texts joined by a separator.
pub open spec fn listed(names: Seq<Seq<char>>, sep: Seq<char>) -> Seq<char>
    decreases names.len(),
{
    if names.len() == 0 {
        seq![]
    } else if names.len() == 1 {
        names[0]
    } else {
        listed(names.drop_last(), sep) + sep + names.last()
    }
}

/// Joins texts by a separator.
pub fn list(names: &Vec<String>, sep: &str) -> (r: String)
    ensures
        r@ == listed(strings::views(names@), sep@),
{
    broadcast use strings::group_views;

    let ghost vs = strings::views(names@);
    let mut out = String::new();
    let mut i: usize = 0;
    assert(vs.take(0) =~= seq![]);
    while i < names.len()
        invariant
            i <= names@.len(),
            vs == strings::views(names@),
            out@ == listed(vs.take(i as int), sep@),
        decreases names@.len() - i,
    {
        assert(vs.take(i + 1).drop_last() =~= vs.take(i as int));
        assert(vs.take(i + 1).last() == names@[i as int]@);
        if i > 0 {
            out.push_str(sep);
        }
        out.push_str(names[i].as_str());
        assert(i == 0 ==> out@ =~= names@[0]@);
        i = i + 1;
    }
    assert(vs.take(i as int) =~= vs);
    out
}

impl ConfigError {
    /// What is wrong, in words.
    pub fn message(&self) -> (r: String)
        ensures
            r@ == (match *self {
                ConfigError::WrapWidth => "wrap_width must be at least 20"@,
                ConfigError::LeftMargin => "left_margin must be at most 16"@,
                ConfigError::DefaultView => "default_view must be \"rendered\" or \"text\""@,
                ConfigError::Theme => "theme must be \"auto\", \"dark\", or \"light\""@,
                ConfigError::CodeTheme(name, known) => "unknown code_theme `"@ + name@
                    + "`; available: "@ + listed(strings::views(known@), ", "@),
            }),
    {
        match self {
            ConfigError::WrapWidth => "wrap_width must be at least 20".to_owned(),
            ConfigError::LeftMargin => "left_margin must be at most 16".to_owned(),
            ConfigError::DefaultView => "default_view must be \"rendered\" or \"text\"".to_owned(),
            ConfigError::Theme => "theme must be \"auto\", \"dark\", or \"light\"".to_owned(),
            ConfigError::CodeTheme(name, known) => {
                let mut s: String = "unknown code_theme `".to_owned();
                s.push_str(name.as_str());
                s.push_str("`; available: ");
                let names = list(known, ", ");
                s.push_str(names.as_str());
                s
            },
        }
    }
}

/// The theme of the terminal: what the configuration says, or else what the
/// terminal's background suggests, dark where that is not known.
pub fn term_theme(cfg: &Config, light_background: Option<bool>) -> (r: TermTheme)
    ensures
        r == (if cfg@.theme == "dark"@ {
            TermTheme::Dark
        } else if cfg@.theme == "light"@ || light_background == Some(true) {
            TermTheme::Light
        } else {
            TermTheme::Dark
        }),
{
    if str_eq(cfg.theme.as_str(), "dark") {
        return TermTheme::Dark;
    }
    if str_eq(cfg.theme.as_str(), "light") {
        return TermTheme::Light;
    }
    match light_background {
        Some(true) => TermTheme::Light,
        _ => TermTheme::Dark,
    }
}

/// The code theme: what the configuration says, or else one that matches the
/// terminal theme.
pub fn code_theme_name(cfg: &Config, theme: TermTheme) -> (r: String)
    ensures
        r@ == (match cfg@.code_theme {
            Some(t) => t,
            None => if theme == TermTheme::Dark {
                "base16-ocean.dark"@
            } else {
                "InspiredGitHub"@
            },
        }),
{
    match &cfg.code_theme {
        Some(t) => t.clone(),
        None => match theme {
            TermTheme::Dark => "base16-ocean.dark".to_owned(),
            TermTheme::Light => "InspiredGitHub".to_owned(),
        },
    }
}

/// The configuration with a width from the command line, if one was given: zero
/// for the terminal width, and twenty columns at least otherwise.
pub fn with_width(cfg: Config, width: Option<usize>) -> (r: Config)
    ensures
        r@ == (ConfigView {
            wrap_width: match width {
                Some(w) => if w == 0 || w >= 20 {
                    w
                } else {
                    20
                },
                None => cfg@.wrap_width,
            },
            ..cfg@
        }),
{
    let mut c = cfg;
    if let Some(w) = width {
        c.wrap_width = if w == 0 || w >= 20 {
            w
        } else {
            20
        };
    }
    c
}

/// The margin of dumped output.
pub open spec fn dump_margin(c: ConfigView) -> nat {
    if c.left_margin < 16 {
        c.left_margin as nat
    } else {
        16
    }
}

/// Reflow width for `--dump` / piped output: the configured width, or for
/// `wrap_width = 0` the width of the controlling terminal (80 when there is
/// none, e.g. inside a pipeline) less the left margin.
pub fn dump_width(cfg: &Config, term_w: Option<u16>) -> (r: usize)
    ensures
        r == (if cfg@.wrap_width != 0 {
            cfg@.wrap_width as int
        } else {
            let w = match term_w {
                Some(w) => w as int,
                None => 80,
            };
            if w - dump_margin(cfg@) < 20 {
                20
            } else {
                w - dump_margin(cfg@)
            }
        }),
{
    if cfg.wrap_width != 0 {
        return cfg.wrap_width;
    }
    let w: usize = match term_w {
        Some(w) => w as usize,
        None => 80,
    };
    let margin: usize = if cfg.left_margin < 16 {
        cfg.left_margin
    } else {
        16
    };
    if w < margin + 20 {
        20
    } else {
        w - margin
    }
}

/// Nothing is wrong with the configuration where none is given.
pub proof fn default_is_sound()
    ensures
        sound(default_config()),
{
}

} // verus!
