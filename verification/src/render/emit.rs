//! Pictures, images and code blocks.

use vstd::prelude::*;
use super::{
    content_id, opt, row_cells, Ask, CodeState, ImageCapture, KittyImage, Picture, Renderer, Want,
};
use crate::diagram::{latex_request, mermaid_request};
use crate::paths;
use crate::prose::{clean_inline, replace_shortcodes};
use crate::state;
use crate::images::image_size;
use crate::state::{ImageMode, State, TermTheme, MAX_IMAGE_ROWS};
use crate::strings;
use crate::strings::{one, str_eq};
use crate::text;
use crate::text::{Color, Span, SpanView, Style, StyleView};

verus! {

broadcast use strings::group_views;

/// The cells of a size that pixels reach into.
fn cells_across(pixels: u32, cell: u16) -> (r: u64)
    ensures
        r == state::cells_for(pixels, cell),
{
    let c: u64 = if cell < 1 {
        1
    } else {
        cell as u64
    };
    (pixels as u64 + c - 1) / c
}

/// A number of cells within one and two limits.
fn hold(n: u16, a: u64, b: u64) -> (r: u16)
    ensures
        r == state::held(n, state::least(a as nat, b as nat)),
{
    let limit: u64 = if a < b {
        a
    } else {
        b
    };
    if n < 1 || limit < 1 {
        1
    } else if n as u64 > limit {
        limit as u16
    } else {
        n
    }
}

/// Fits the cell grid of a picture to the columns there are and a height cap,
/// never beyond the picture's own size.
pub fn fit_grid(asked: (u16, u16), size: (u32, u32), cell: (u16, u16), avail: usize) -> (r: (
    u16,
    u16,
))
    ensures
        r.0 == state::held(asked.0, state::least(avail as nat, state::cells_for(size.0, cell.0))),
        r.1 == state::held(
            asked.1,
            state::least(MAX_IMAGE_ROWS as nat, state::cells_for(size.1, cell.1)),
        ),
{
    (
        hold(asked.0, avail as u64, cells_across(size.0, cell.0)),
        hold(asked.1, MAX_IMAGE_ROWS as u64, cells_across(size.1, cell.1)),
    )
}

impl<'a> Renderer<'a> {
    /// Sizes a picture's cell grid and queues it for transmission. The same
    /// content twice is one image, in the grid it came in first.
    pub(crate) fn queue_kitty_image(&mut self, p: Picture) -> (r: Option<(u32, u16, u16)>)
        ensures
            match r {
                Some((id, cols, rows)) => old(self)@.queue(p@) == Some(
                    (final(self)@, id, cols, rows),
                ),
                None => old(self)@.queue(p@) is None && final(self)@ == old(self)@,
            },
    {
        let (cell_w, cell_h) = match self.image_mode {
            ImageMode::Kitty { cell_w, cell_h } => (cell_w, cell_h),
            ImageMode::Off => {
                return None;
            },
        };
        let size = match image_size(p.png.as_slice()) {
            Some(size) => size,
            None => {
                return None;
            },
        };
        let id: u32 = content_id(&p.png);
        let ghost ims = self@.images;
        let mut i: usize = 0;
        while i < self.images.len() && self.images[i].id != id
            invariant
                i <= self.images@.len(),
                ims == strings::views(self.images@),
                state::image_at(ims, id, 0) == state::image_at(ims, id, i as int),
            decreases self.images@.len() - i,
        {
            i = i + 1;
        }
        if i < self.images.len() {
            // Same content appears twice; one virtual placement serves both.
            return Some((id, self.images[i].cols, self.images[i].rows));
        }
        let avail: usize = self.avail();
        let (cols, rows) = fit_grid((p.cols, p.rows), size, (cell_w, cell_h), avail);
        let ghost want = self@.queue(p@);
        assert((cols, rows) == state::picture_grid(p@, size, (cell_w, cell_h), self@.avail()));
        self.images.push(KittyImage { id, png: p.png, cols, rows });
        assert(self@ =~= (want->0).0);
        Some((id, cols, rows))
    }

    /// Queues the picture of an answer, where there is one.
    pub(crate) fn queue_answer(&mut self, picture: Option<Picture>) -> (r: Option<(u32, u16, u16)>)
        ensures
            match r {
                Some((id, cols, rows)) => old(self)@.queue_answer(opt(picture)) == Some(
                    (final(self)@, id, cols, rows),
                ),
                None => old(self)@.queue_answer(opt(picture)) is None && final(self)@
                    == old(self)@,
            },
    {
        match picture {
            Some(p) => self.queue_kitty_image(p),
            None => None,
        }
    }

    /// Emits the placeholder cell grid for a queued image.
    pub(crate) fn push_placeholder_block(&mut self, id: u32, cols: u16, rows: u16)
        ensures
            final(self)@ == old(self)@.push_lines(state::grid(id, cols, rows)),
    {
        let ghost start = self@;
        let ghost g = state::grid(id, cols, rows);
        let id_color = Color::Rgb {
            r: ((id >> 16) & 0xff) as u8,
            g: ((id >> 8) & 0xff) as u8,
            b: (id & 0xff) as u8,
        };
        let mut row: u16 = 0;
        assert(g.take(0) =~= seq![]);
        while row < rows
            invariant
                row <= rows,
                g == state::grid(id, cols, rows),
                state::colored(id_color) == state::id_style(id),
                self@ == start.push_lines(g.take(row as int)),
            decreases rows - row,
        {
            let text = row_cells(row as usize, cols);
            let line = one(Span { text, style: Style::default().fg(id_color) });
            assert(g.take(row + 1).drop_last() =~= g.take(row as int));
            assert(strings::views(line@) =~= g[row as int]);
            self.push_line(line);
            row = row + 1;
        }
        assert(g.take(row as int) =~= g);
    }

    /// Emits an image as kitty Unicode-placeholder cells where there is a
    /// picture; otherwise as a "🖼 alt" hyperlink.
    pub(crate) fn emit_image(&mut self, cap: ImageCapture, picture: Option<Picture>)
        ensures
            final(self)@ == old(self)@.emit_image(cap@, opt(picture)),
    {
        let clean = clean_inline(cap.alt.as_str());
        let alt = replace_shortcodes(clean.as_str());
        let mut label: String = "🖼 ".to_owned();
        match self.queue_answer(picture) {
            Some((id, cols, rows)) => {
                self.flush_inline();
                self.push_placeholder_block(id, cols, rows);
                let mut caption = Style::default().dim();
                caption.link = Some(cap.url);
                if alt.as_str().is_empty() {
                    label.push_str("image");
                } else {
                    label.push_str(alt.as_str());
                }
                let line = one(Span { text: label, style: caption });
                let ghost want = StyleView {
                    dim: true,
                    link: Some(cap@.url),
                    ..text::plain_style()
                };
                assert(caption@ =~= want);
                assert(strings::views(line@) =~= seq![SpanView { text: label@, style: want }]);
                self.push_line(line);
            },
            None => {
                let mut s = self.cur_style();
                s.fg = Some(self.theme.link_color());
                s.underline = true;
                s.link = Some(cap.url);
                label.push_str(alt.as_str());
                self.push_inline(label, s);
            },
        }
    }

    /// Emits a block of code as the cells of its diagram where there is a
    /// picture, and as highlighted code otherwise.
    pub(crate) fn emit_code(&mut self, code: CodeState, picture: Option<Picture>)
        ensures
            final(self)@ == old(self)@.emit_code(code@, opt(picture)),
    {
        match self.queue_answer(picture) {
            Some((id, cols, rows)) => {
                self.push_placeholder_block(id, cols, rows);
            },
            None => {
                let lines = self.hl.code_lines(code.lang.as_str(), code.buf.as_str());
                self.push_lines(lines);
            },
        }
    }

    /// Answers what was asked for last; `None` says that it cannot be had.
    pub fn answer(&mut self, picture: Option<Picture>)
        ensures
            final(self)@ == old(self)@.answer(opt(picture)),
    {
        let asked = self.asked.take();
        match asked {
            Some(Ask::Image(cap)) => {
                assert(self@ =~= State { asked: None, ..old(self)@ });
                self.emit_image(cap, picture);
            },
            Some(Ask::Code(code)) => {
                assert(self@ =~= State { asked: None, ..old(self)@ });
                self.emit_code(code, picture);
            },
            None => {},
        }
    }

    /// The file that holds the picture of an image.
    pub(crate) fn picture_file(&self, url: &str) -> (r: Option<String>)
        ensures
            text::opt_view(r) == self@.picture_file(url@),
    {
        match self.image_mode {
            ImageMode::Off => {
                return None;
            },
            _ => {},
        }
        if strings::contains(url, "://") {
            return None; // remote images fall back to a link
        }
        if paths::absolute(url) {
            return Some(url.to_owned());
        }
        match &self.base {
            Some(b) => Some(paths::join(b.as_str(), url)),
            None => None,
        }
    }

    pub(crate) fn image_done(&mut self, cap: ImageCapture) -> (r: Option<Want>)
        requires
            old(self)@.image is None,
        ensures
            (final(self)@, opt(r)) == old(self)@.image_done(cap@),
    {
        assert(self@ =~= State { image: None, ..self@ });
        match self.picture_file(cap.url.as_str()) {
            Some(path) => {
                let avail: usize = self.avail();
                self.asked = Some(Ask::Image(cap));
                assert(self@ =~= old(self)@.image_done(cap@).0);
                Some(Want::File(path, avail))
            },
            None => {
                self.emit_image(cap, None);
                None
            },
        }
    }

    pub(crate) fn code_done(&mut self, code: CodeState) -> (r: Option<Want>)
        requires
            old(self)@.code is None,
        ensures
            (final(self)@, opt(r)) == old(self)@.code_done(code@),
    {
        assert(self@ =~= State { code: None, ..self@ });
        let graphics = match self.image_mode {
            ImageMode::Off => false,
            _ => true,
        };
        let lang = code.lang.as_str();
        let mermaid = str_eq(lang, "mermaid");
        let latex = str_eq(lang, "latex") || str_eq(lang, "tex") || str_eq(lang, "math") || str_eq(
            lang,
            "katex",
        );
        if self.diagrams && graphics && (mermaid || latex) {
            let dark = self.theme == TermTheme::Dark;
            let avail: usize = self.avail();
            let request = if mermaid {
                mermaid_request(code.buf.as_str(), dark)
            } else {
                latex_request(code.buf.as_str(), dark)
            };
            self.asked = Some(Ask::Code(code));
            assert(self@ =~= old(self)@.code_done(code@).0);
            Some(Want::Diagram(request, avail))
        } else {
            self.emit_code(code, None);
            None
        }
    }
}

} // verus!
