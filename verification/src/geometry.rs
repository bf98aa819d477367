//! Widths, margins and image modes that follow from the terminal.

use vstd::prelude::*;
use crate::config::Config;
use crate::kitty;
use crate::kitty::Probe;
use crate::state::ImageMode;
use crate::strings;

verus! {

/// The left margin on a terminal: the configured one, as far as twenty columns
/// are left for text.
pub open spec fn margin(left_margin: usize, term_w: u16) -> u16 {
    let room = if term_w < 20 {
        0
    } else {
        (term_w - 20) as u16
    };
    if left_margin < room {
        left_margin as u16
    } else {
        room
    }
}

/// The configured left margin, shrunk toward 0 on terminals too narrow to
/// afford it while keeping at least 20 columns of text.
pub fn effective_margin(cfg: &Config, term_w: u16) -> (r: u16)
    ensures
        r == margin(cfg@.left_margin, term_w),
        r <= term_w,
{
    let room: u16 = if term_w < 20 {
        0
    } else {
        term_w - 20
    };
    if cfg.left_margin < room as usize {
        cfg.left_margin as u16
    } else {
        room
    }
}

/// The columns that text is wrapped at: the configured width, or that of the
/// terminal where it is smaller or zero is configured; twenty at least.
pub open spec fn wrap_columns(wrap_width: usize, left_margin: usize, term_w: u16) -> usize {
    let usable = (term_w - margin(left_margin, term_w)) as usize;
    let w = if wrap_width == 0 || usable < wrap_width {
        usable
    } else {
        wrap_width
    };
    if w < 20 {
        20
    } else {
        w
    }
}

/// The columns that text is wrapped at.
pub fn wrap_width(cfg: &Config, term_w: u16) -> (r: usize)
    ensures
        r == wrap_columns(cfg@.wrap_width, cfg@.left_margin, term_w),
{
    let usable: usize = (term_w - effective_margin(cfg, term_w)) as usize;
    let w: usize = if cfg.wrap_width == 0 || usable < cfg.wrap_width {
        usable
    } else {
        cfg.wrap_width
    };
    if w < 20 {
        20
    } else {
        w
    }
}

/// On a terminal of twenty columns or more, margin and text fit side by side.
pub proof fn margin_and_text_fit(wrap_width: usize, left_margin: usize, term_w: u16)
    requires
        term_w >= 20,
    ensures
        margin(left_margin, term_w) + wrap_columns(wrap_width, left_margin, term_w) <= term_w,
        wrap_columns(wrap_width, left_margin, term_w) >= 20,
{
}

/// The size of a terminal, with the customary one in place of what is unknown.
pub fn known_size(w: u16, h: u16) -> (r: (u16, u16))
    ensures
        r.0 == (if w == 0 {
            80
        } else {
            w
        }),
        r.1 == (if h == 0 {
            24
        } else {
            h
        }),
{
    (
        if w == 0 {
            80
        } else {
            w
        },
        if h == 0 {
            24
        } else {
            h
        },
    )
}

/// The size of a terminal window: columns and rows, and its size in pixels.
#[derive(Clone, Copy, Debug)]
pub struct Window {
    pub columns: u16,
    pub rows: u16,
    pub width: u16,
    pub height: u16,
}

/// The pixel size of a cell, where a window's size tells it.
pub open spec fn cell_of(ws: Option<Window>) -> Option<(u16, u16)> {
    match ws {
        Some(w) => if w.columns > 0 && w.rows > 0 && w.width > 0 && w.height > 0 {
            Some(
                (
                    if w.width / w.columns < 1 {
                        1
                    } else {
                        w.width / w.columns
                    },
                    if w.height / w.rows < 1 {
                        1
                    } else {
                        w.height / w.rows
                    },
                ),
            )
        } else {
            None
        },
        None => None,
    }
}

/// How images are drawn on a terminal. WezTerm answers the graphics query but
/// does not implement Unicode placeholders, so it is excluded.
pub open spec fn image_mode(
    term: Seq<char>,
    prog: Seq<char>,
    hint: bool,
    probe: Probe,
    ws: Option<Window>,
) -> ImageMode {
    if strings::lowered(prog) == strings::lowered("wezterm"@) || strings::has_part(
        term,
        "wezterm"@,
    ) || !(probe.graphics || hint) {
        ImageMode::Off
    } else {
        match cell_of(ws) {
            Some((cell_w, cell_h)) => ImageMode::Kitty { cell_w, cell_h },
            None => match probe.cell {
                Some((cell_w, cell_h)) => ImageMode::Kitty { cell_w, cell_h },
                None => ImageMode::Off,
            },
        }
    }
}

/// Kitty graphics need protocol support plus the terminal's cell pixel size
/// (window-size ioctl, or the probe's CSI 16t reply) to scale image grids.
/// `term` and `prog` are the values of `TERM` and `TERM_PROGRAM`, and `window`
/// tells whether `KITTY_WINDOW_ID` is set.
pub fn detect_image_mode(
    window: bool,
    term: &str,
    prog: &str,
    probe: &Probe,
    ws: Option<Window>,
) -> (r: ImageMode)
    ensures
        r == image_mode(term@, prog@, kitty::hinted(window, term@, prog@), *probe, ws),
{
    if strings::to_lower(prog) == strings::to_lower("wezterm") || strings::contains(
        term,
        "wezterm",
    ) {
        return ImageMode::Off;
    }
    if !probe.graphics && !kitty::env_hint(window, term, prog) {
        return ImageMode::Off;
    }
    let told = match ws {
        Some(w) => {
            if w.columns > 0 && w.rows > 0 && w.width > 0 && w.height > 0 {
                let cell_w: u16 = w.width / w.columns;
                let cell_h: u16 = w.height / w.rows;
                Some(
                    (
                        if cell_w < 1 {
                            1u16
                        } else {
                            cell_w
                        },
                        if cell_h < 1 {
                            1u16
                        } else {
                            cell_h
                        },
                    ),
                )
            } else {
                None
            }
        },
        None => None,
    };
    let cell = match told {
        Some(c) => Some(c),
        None => probe.cell,
    };
    match cell {
        Some((cell_w, cell_h)) => ImageMode::Kitty { cell_w, cell_h },
        None => ImageMode::Off,
    }
}

/// The margin is the configured one where it leaves twenty columns for text, and gives
/// way to the text where it does not; the text is as wide as configured where that fits
/// beside the margin, and takes all the columns there are where it does not or where
/// nothing is configured, twenty at least.
pub proof fn text_comes_before_margins(wrap_width: usize, left_margin: usize, term_w: u16)
    ensures
        left_margin + 20 <= term_w ==> margin(left_margin, term_w) == left_margin,
        left_margin + 20 > term_w && term_w >= 20 ==> margin(left_margin, term_w) == term_w - 20,
        term_w < 20 ==> margin(left_margin, term_w) == 0,
        ({
            let usable = term_w - margin(left_margin, term_w);
            let w = wrap_columns(wrap_width, left_margin, term_w);
            &&& 20 <= wrap_width <= usable ==> w == wrap_width
            &&& (wrap_width == 0 || wrap_width > usable) && usable >= 20 ==> w == usable
            &&& usable < 20 || 0 < wrap_width < 20 ==> w == 20
        }),
{
}

} // verus!
