//! Which pictures a document asks for, and how they are shown.

use vstd::prelude::*;
use crate::blocks;
use crate::diagram;
use crate::event::EventView;
use crate::kitty;
use crate::paragraphs;
use crate::resolving;
use crate::state;
use crate::state::{AskView, CaptureView, CodeView, PictureView, State, WantView};
use crate::strings;
use crate::text;
use crate::text::{Color, SpanView, StyleView};

verus! {

/// Whether text holds what stands between a scheme and a host.
pub open spec fn is_remote(url: Seq<char>) -> bool {
    exists|i: int|
        0 <= i && i + 3 <= url.len() && #[trigger] url.subrange(i, i + 3) == seq![':', '/', '/']
}

proof fn remote_is_part(url: Seq<char>)
    ensures
        strings::has_part(url, "://"@) == is_remote(url),
{
    reveal_strlit("://");
    assert("://"@ =~= seq![':', '/', '/']);
    if is_remote(url) {
        let i = choose|i: int|
            0 <= i && i + 3 <= url.len() && #[trigger] url.subrange(i, i + 3) == seq![
                ':',
                '/',
                '/',
            ];
        assert(strings::stands_at(url, "://"@, i));
    }
    if strings::has_part(url, "://"@) {
        let i = choose|i: int| strings::stands_at(url, "://"@, i);
        assert(url.subrange(i, i + 3) == seq![':', '/', '/']);
    }
}

/// The file that an image is in: not that of a remote one, nor that of a relative one
/// in a document that has no directory.
pub open spec fn file_of(s: State, url: Seq<char>) -> Option<Seq<char>> {
    if is_remote(url) {
        None
    } else if url.len() > 0 && url[0] == '/' {
        Some(url)
    } else {
        match s.base {
            Some(dir) => Some(
                if dir.len() == 0 {
                    url
                } else {
                    resolving::in_dir(dir, url)
                },
            ),
            None => None,
        }
    }
}

/// Where there are graphics, the end of an image asks for the picture in its file, seen
/// from the directory of the document; without graphics, or where there is no such
/// file, nothing is asked for.
pub proof fn images_are_asked_for(s: State, cap: CaptureView)
    requires
        s.image == Some(cap),
        s.code is None,
        s.asked is None,
    ensures
        ({
            let (t, want) = s.event(EventView::End(pulldown_cmark::TagEnd::Image));
            let file = if s.image_mode is Off {
                None
            } else {
                file_of(s, cap.url)
            };
            match file {
                Some(f) => want == Some(WantView::File(f, s.avail())) && t == (State {
                    image: None,
                    asked: Some(AskView::Image(cap)),
                    ..s
                }),
                None => want is None && t.asked is None && t.lines == s.lines && t.inline.len()
                    == s.inline.len() + 1,
            }
        }),
{
    assert(s.answer(None) == s);
    remote_is_part(cap.url);
    if let Some(dir) = s.base {
        if dir.len() == 0 {
            assert(dir + cap.url =~= cap.url);
        }
    }
}

/// Where there are graphics and diagrams are to be drawn, the end of a code block asks
/// for the diagram of what it holds: mermaid by its name, and formulas by one of
/// theirs. Any other code is shown.
pub proof fn diagrams_are_asked_for(s: State, code: CodeView)
    requires
        s.code == Some(code),
        s.asked is None,
    ensures
        ({
            let want = s.event(EventView::End(pulldown_cmark::TagEnd::CodeBlock)).1;
            let dark = s.theme == state::TermTheme::Dark;
            let drawn = s.diagrams && !(s.image_mode is Off);
            let is_formula = code.lang == "latex"@ || code.lang == "tex"@ || code.lang == "math"@
                || code.lang == "katex"@;
            &&& drawn && code.lang == "mermaid"@ ==> want == Some(
                WantView::Diagram(diagram::mermaid_request_view(code.buf, dark), s.avail()),
            )
            &&& drawn && is_formula ==> want == Some(
                WantView::Diagram(diagram::latex_request_view(code.buf, dark), s.avail()),
            )
            &&& !drawn || !(is_formula || code.lang == "mermaid"@) ==> want is None
        }),
{
    assert(s.answer(None) == s);
    reveal_strlit("mermaid");
    reveal_strlit("latex");
    reveal_strlit("tex");
    reveal_strlit("math");
    reveal_strlit("katex");
    assert("mermaid"@[0] == 'm' && "mermaid"@[1] == 'e');
    assert("math"@[1] == 'a');
    assert("latex"@[0] == 'l' && "tex"@[0] == 't' && "katex"@[0] == 'k');
}

// Grids.

proof fn cells_are_placeholders(row: int, n: nat, k: int)
    requires
        0 <= row < 297,
        0 <= k < n <= 297,
    ensures
        ({
            let t = state::cells(row, n);
            &&& t.len() == 3 * n
            &&& t[3 * k] == kitty::PLACEHOLDER
            &&& t[3 * k + 1] == kitty::ROW_COLUMN_DIACRITICS@[row]
            &&& t[3 * k + 2] == kitty::ROW_COLUMN_DIACRITICS@[k]
        }),
    decreases n,
{
    let before = state::cells(row, (n - 1) as nat);
    if n == 1 {
        assert(before.len() == 0);
    } else if k < n - 1 {
        cells_are_placeholders(row, (n - 1) as nat, k);
    } else {
        cells_are_placeholders(row, (n - 1) as nat, 0);
    }
    assert(state::cells(row, n) == before + kitty::cell(row, n - 1));
}

/// The number that a color stands for.
pub open spec fn color_number(c: Color) -> int {
    match c {
        Color::Rgb { r, g, b } => r * 65536 + g * 256 + b,
        _ => -1,
    }
}

proof fn ids_are_colors(id: u32)
    requires
        id <= 0xff_ffff,
    ensures
        state::id_style(id).fg is Some,
        color_number(state::id_style(id).fg->0) == id,
{
    let r = ((id >> 16) & 0xff) as u8;
    let g = ((id >> 8) & 0xff) as u8;
    let b = (id & 0xff) as u8;
    assert(((id >> 16) & 0xff) <= 255 && ((id >> 8) & 0xff) <= 255 && (id & 0xff) <= 255 && ((id
        >> 16) & 0xff) * 65536 + ((id >> 8) & 0xff) * 256 + (id & 0xff) == id) by (bit_vector)
        requires
            id <= 0xff_ffff,
    ;
}

/// Whether a line is a row of the grid of an image: a placeholder for each column, with
/// the marks of its row and column, in the color that stands for the image.
pub open spec fn is_grid_row(line: Seq<SpanView>, id: u32, row: int, cols: u16) -> bool {
    &&& line.len() == 1
    &&& line[0].style.fg is Some
    &&& color_number(line[0].style.fg->0) == id
    &&& line[0].text.len() == 3 * cols
    &&& forall|k: int|
        0 <= k < cols ==> #[trigger] line[0].text[3 * k] == kitty::PLACEHOLDER && line[0].text[3 * k
            + 1] == kitty::ROW_COLUMN_DIACRITICS@[row] && line[0].text[3 * k + 2]
            == kitty::ROW_COLUMN_DIACRITICS@[k]
}

proof fn grids_are_rows(id: u32, cols: u16, rows: u16, row: int)
    requires
        id <= 0xff_ffff,
        0 <= row < rows <= 297,
        cols <= 297,
    ensures
        is_grid_row(state::grid(id, cols, rows)[row], id, row, cols),
{
    ids_are_colors(id);
    let t = state::cells(row, cols as nat);
    if cols > 0 {
        cells_are_placeholders(row, cols as nat, 0);
    }
    assert forall|k: int| 0 <= k < cols implies #[trigger] t[3 * k] == kitty::PLACEHOLDER && t[3 * k
        + 1] == kitty::ROW_COLUMN_DIACRITICS@[row] && t[3 * k + 2]
        == kitty::ROW_COLUMN_DIACRITICS@[k] by {
        cells_are_placeholders(row, cols as nat, k);
    }
}

/// A picture that is had for an image is shown as the grid of its cells, row by row, and
/// below it, dimmed and as a link to its file, its alt text, or that it is an image
/// where it has none.
pub proof fn pictures_are_shown(s: State, cap: CaptureView, p: PictureView)
    requires
        s.asked == Some(AskView::Image(cap)),
        s.inline.len() == 0,
        (State { asked: None, ..s }).queue(p) is Some,
    ensures
        ({
            let (_, id, cols, rows) = (State { asked: None, ..s }).queue(p)->0;
            let done = s.answer(Some(p));
            let alt = paragraphs::prose_text(cap.alt);
            let caption = SpanView {
                text: seq!['🖼', ' '] + (if alt.len() > 0 {
                    alt
                } else {
                    seq!['i', 'm', 'a', 'g', 'e']
                }),
                style: StyleView { dim: true, link: Some(cap.url), ..text::plain_style() },
            };
            &&& blocks::shows(s, done, state::grid(id, cols, rows).push(seq![caption]))
            &&& done.asked is None
            &&& state::grid(id, cols, rows).len() == rows
            &&& id <= 0xff_ffff && rows <= 297 && cols <= 297 ==> forall|row: int|
                0 <= row < rows ==> is_grid_row(
                    #[trigger] state::grid(id, cols, rows)[row],
                    id,
                    row,
                    cols,
                )
        }),
{
    let base = State { asked: None, ..s };
    let (t, id, cols, rows) = base.queue(p)->0;
    let alt = paragraphs::prose_text(cap.alt);
    reveal_strlit("🖼 ");
    reveal_strlit("image");
    assert("🖼 "@ =~= seq!['🖼', ' ']);
    assert("image"@ =~= seq!['i', 'm', 'a', 'g', 'e']);
    reveal(State::flush_inline);
    assert(t.flush_inline() == t);
    let caption = SpanView {
        text: seq!['🖼', ' '] + (if alt.len() > 0 {
            alt
        } else {
            seq!['i', 'm', 'a', 'g', 'e']
        }),
        style: StyleView { dim: true, link: Some(cap.url), ..text::plain_style() },
    };
    let grid = state::grid(id, cols, rows);
    let lines = grid.push(seq![caption]);
    assert(lines.drop_last() =~= grid);
    blocks::pushed_lines_show(t, lines);
    assert(s.answer(Some(p)) == t.push_lines(lines));
    if id <= 0xff_ffff && rows <= 297 && cols <= 297 {
        assert forall|row: int| 0 <= row < rows implies is_grid_row(
            #[trigger] grid[row],
            id,
            row,
            cols,
        ) by {
            grids_are_rows(id, cols, rows, row);
        }
    }
}

/// The picture of a diagram is shown as the grid of its cells, in place of the code.
pub proof fn diagrams_are_shown(s: State, code: CodeView, p: PictureView)
    requires
        s.asked == Some(AskView::Code(code)),
        (State { asked: None, ..s }).queue(p) is Some,
    ensures
        ({
            let (_, id, cols, rows) = (State { asked: None, ..s }).queue(p)->0;
            let done = s.answer(Some(p));
            blocks::shows(s, done, state::grid(id, cols, rows)) && done.asked is None
        }),
{
    let base = State { asked: None, ..s };
    let (t, id, cols, rows) = base.queue(p)->0;
    blocks::pushed_lines_show(t, state::grid(id, cols, rows));
}

} // verus!
