//! Kitty graphics protocol, Unicode placeholder mode.
//!
//! Images are transmitted once (chunked base64 PNG), then a *virtual
//! placement* (`U=1`) defines the cell grid. The image is shown by printing
//! ordinary text cells: U+10EEEE with a row and a column diacritic, with the
//! image id encoded in the 24-bit foreground color. Because those are plain
//! cells, scrolling, clearing, and overwriting need no special handling.
//! Support is detected by probing the terminal, so any terminal implementing
//! the protocol qualifies; unsupported terminals render images as plain
//! hyperlinks instead.

use vstd::prelude::*;
use vstd::slice::slice_subrange;
use vstd::utf8;
use crate::numbers;
use crate::numbers::decimal;
use crate::strings;
use crate::strings::{bytes_to_string, split, trim};

verus! {

/// The placeholder character the terminal replaces with image fragments.
pub const PLACEHOLDER: char = '\u{10EEEE}';

/// Row/column index encoding, from kitty's rowcolumn-diacritics.txt.
pub const ROW_COLUMN_DIACRITICS: [char; 297] = [
    '\u{0305}', '\u{030D}', '\u{030E}', '\u{0310}', '\u{0312}', '\u{033D}', '\u{033E}',
    '\u{033F}', '\u{0346}', '\u{034A}', '\u{034B}', '\u{034C}', '\u{0350}', '\u{0351}',
    '\u{0352}', '\u{0357}', '\u{035B}', '\u{0363}', '\u{0364}', '\u{0365}', '\u{0366}',
    '\u{0367}', '\u{0368}', '\u{0369}', '\u{036A}', '\u{036B}', '\u{036C}', '\u{036D}',
    '\u{036E}', '\u{036F}', '\u{0483}', '\u{0484}', '\u{0485}', '\u{0486}', '\u{0487}',
    '\u{0592}', '\u{0593}', '\u{0594}', '\u{0595}', '\u{0597}', '\u{0598}', '\u{0599}',
    '\u{059C}', '\u{059D}', '\u{059E}', '\u{059F}', '\u{05A0}', '\u{05A1}', '\u{05A8}',
    '\u{05A9}', '\u{05AB}', '\u{05AC}', '\u{05AF}', '\u{05C4}', '\u{0610}', '\u{0611}',
    '\u{0612}', '\u{0613}', '\u{0614}', '\u{0615}', '\u{0616}', '\u{0617}', '\u{0657}',
    '\u{0658}', '\u{0659}', '\u{065A}', '\u{065B}', '\u{065D}', '\u{065E}', '\u{06D6}',
    '\u{06D7}', '\u{06D8}', '\u{06D9}', '\u{06DA}', '\u{06DB}', '\u{06DC}', '\u{06DF}',
    '\u{06E0}', '\u{06E1}', '\u{06E2}', '\u{06E4}', '\u{06E7}', '\u{06E8}', '\u{06EB}',
    '\u{06EC}', '\u{0730}', '\u{0732}', '\u{0733}', '\u{0735}', '\u{0736}', '\u{073A}',
    '\u{073D}', '\u{073F}', '\u{0740}', '\u{0741}', '\u{0743}', '\u{0745}', '\u{0747}',
    '\u{0749}', '\u{074A}', '\u{07EB}', '\u{07EC}', '\u{07ED}', '\u{07EE}', '\u{07EF}',
    '\u{07F0}', '\u{07F1}', '\u{07F3}', '\u{0816}', '\u{0817}', '\u{0818}', '\u{0819}',
    '\u{081B}', '\u{081C}', '\u{081D}', '\u{081E}', '\u{081F}', '\u{0820}', '\u{0821}',
    '\u{0822}', '\u{0823}', '\u{0825}', '\u{0826}', '\u{0827}', '\u{0829}', '\u{082A}',
    '\u{082B}', '\u{082C}', '\u{082D}', '\u{0951}', '\u{0953}', '\u{0954}', '\u{0F82}',
    '\u{0F83}', '\u{0F86}', '\u{0F87}', '\u{135D}', '\u{135E}', '\u{135F}', '\u{17DD}',
    '\u{193A}', '\u{1A17}', '\u{1A75}', '\u{1A76}', '\u{1A77}', '\u{1A78}', '\u{1A79}',
    '\u{1A7A}', '\u{1A7B}', '\u{1A7C}', '\u{1B6B}', '\u{1B6D}', '\u{1B6E}', '\u{1B6F}',
    '\u{1B70}', '\u{1B71}', '\u{1B72}', '\u{1B73}', '\u{1CD0}', '\u{1CD1}', '\u{1CD2}',
    '\u{1CDA}', '\u{1CDB}', '\u{1CE0}', '\u{1DC0}', '\u{1DC1}', '\u{1DC3}', '\u{1DC4}',
    '\u{1DC5}', '\u{1DC6}', '\u{1DC7}', '\u{1DC8}', '\u{1DC9}', '\u{1DCB}', '\u{1DCC}',
    '\u{1DD1}', '\u{1DD2}', '\u{1DD3}', '\u{1DD4}', '\u{1DD5}', '\u{1DD6}', '\u{1DD7}',
    '\u{1DD8}', '\u{1DD9}', '\u{1DDA}', '\u{1DDB}', '\u{1DDC}', '\u{1DDD}', '\u{1DDE}',
    '\u{1DDF}', '\u{1DE0}', '\u{1DE1}', '\u{1DE2}', '\u{1DE3}', '\u{1DE4}', '\u{1DE5}',
    '\u{1DE6}', '\u{1DFE}', '\u{20D0}', '\u{20D1}', '\u{20D4}', '\u{20D5}', '\u{20D6}',
    '\u{20D7}', '\u{20DB}', '\u{20DC}', '\u{20E1}', '\u{20E7}', '\u{20E9}', '\u{20F0}',
    '\u{2CEF}', '\u{2CF0}', '\u{2CF1}', '\u{2DE0}', '\u{2DE1}', '\u{2DE2}', '\u{2DE3}',
    '\u{2DE4}', '\u{2DE5}', '\u{2DE6}', '\u{2DE7}', '\u{2DE8}', '\u{2DE9}', '\u{2DEA}',
    '\u{2DEB}', '\u{2DEC}', '\u{2DED}', '\u{2DEE}', '\u{2DEF}', '\u{2DF0}', '\u{2DF1}',
    '\u{2DF2}', '\u{2DF3}', '\u{2DF4}', '\u{2DF5}', '\u{2DF6}', '\u{2DF7}', '\u{2DF8}',
    '\u{2DF9}', '\u{2DFA}', '\u{2DFB}', '\u{2DFC}', '\u{2DFD}', '\u{2DFE}', '\u{2DFF}',
    '\u{A66F}', '\u{A67C}', '\u{A67D}', '\u{A6F0}', '\u{A6F1}', '\u{A8E0}', '\u{A8E1}',
    '\u{A8E2}', '\u{A8E3}', '\u{A8E4}', '\u{A8E5}', '\u{A8E6}', '\u{A8E7}', '\u{A8E8}',
    '\u{A8E9}', '\u{A8EA}', '\u{A8EB}', '\u{A8EC}', '\u{A8ED}', '\u{A8EE}', '\u{A8EF}',
    '\u{A8F0}', '\u{A8F1}', '\u{AAB0}', '\u{AAB2}', '\u{AAB3}', '\u{AAB7}', '\u{AAB8}',
    '\u{AABE}', '\u{AABF}', '\u{AAC1}', '\u{FE20}', '\u{FE21}', '\u{FE22}', '\u{FE23}',
    '\u{FE24}', '\u{FE25}', '\u{FE26}', '\u{10A0F}', '\u{10A38}', '\u{1D185}', '\u{1D186}',
    '\u{1D187}', '\u{1D188}', '\u{1D189}', '\u{1D1AA}', '\u{1D1AB}', '\u{1D1AC}', '\u{1D1AD}',
    '\u{1D242}', '\u{1D243}', '\u{1D244}',
];

/// A placeholder cell: base character, row diacritic, column diacritic.
pub open spec fn cell(row: int, col: int) -> Seq<char> {
    seq![PLACEHOLDER, ROW_COLUMN_DIACRITICS@[row], ROW_COLUMN_DIACRITICS@[col]]
}

/// One placeholder cell: base char + row diacritic + column diacritic.
pub fn placeholder_cell(row: usize, col: usize) -> (r: Option<String>)
    ensures
        r is Some <==> row < 297 && col < 297,
        r is Some ==> r->0@ == cell(row as int, col as int),
{
    if row >= 297 || col >= 297 {
        return None;
    }
    let mut s = String::new();
    s.push(PLACEHOLDER);
    s.push(ROW_COLUMN_DIACRITICS[row]);
    s.push(ROW_COLUMN_DIACRITICS[col]);
    assert(s@ =~= cell(row as int, col as int));
    Some(s)
}

/// Whether the environment hints that the terminal speaks the protocol.
pub open spec fn hinted(window: bool, term: Seq<char>, prog: Seq<char>) -> bool {
    window || strings::has_part(term, "kitty"@) || strings::has_part(term, "ghostty"@)
        || strings::lowered(prog) == strings::lowered("ghostty"@)
}

/// Environment hint that the terminal speaks the protocol; used when the
/// runtime probe gets no answer (e.g. very slow links). `window` tells whether
/// `KITTY_WINDOW_ID` is set; `term` and `prog` are the values of `TERM` and
/// `TERM_PROGRAM`.
pub fn env_hint(window: bool, term: &str, prog: &str) -> (r: bool)
    ensures
        r == hinted(window, term@, prog@),
{
    window || strings::contains(term, "kitty") || strings::contains(term, "ghostty")
        || strings::to_lower(prog) == strings::to_lower("ghostty")
}

/// What the terminal told us when probed.
#[derive(Clone, Copy, Debug)]
pub struct Probe {
    /// It answered the graphics query, so it implements the protocol.
    pub graphics: bool,
    /// Cell pixel size from a CSI 16t reply, if given.
    pub cell: Option<(u16, u16)>,
    /// Terminal background color from an OSC 11 reply, if given.
    pub bg: Option<(u8, u8, u8)>,
}

impl Default for Probe {
    fn default() -> (r: Probe)
        ensures
            r == (Probe { graphics: false, cell: None, bg: None }),
    {
        Probe { graphics: false, cell: None, bg: None }
    }
}

/// What is written to the terminal to probe it: a 1x1 RGB query image (id 31),
/// OSC 11 (background color), CSI 16t (cell size), then DA1 as the universal
/// terminator.
pub const PROBE_QUERY: &'static str =
    "\x1b_Gi=31,s=1,v=1,a=q,t=d,f=24;AAAA\x1b\\\x1b]11;?\x1b\\\x1b[16t\x1b[c";

/// Where `part` first stands in `s` at or after `from`.
pub open spec fn find_from(s: Seq<u8>, part: Seq<u8>, from: int) -> Option<int>
    decreases s.len() + 1 - from,
{
    if from + part.len() > s.len() {
        None
    } else if s.subrange(from, from + part.len()) == part {
        Some(from)
    } else {
        find_from(s, part, from + 1)
    }
}

/// Where `part` first stands in `s`.
pub open spec fn found(s: Seq<u8>, part: Seq<u8>) -> Option<int> {
    find_from(s, part, 0)
}

/// What `find_from` finds is there, and nothing is before it.
pub proof fn find_from_is_first(s: Seq<u8>, part: Seq<u8>, from: int)
    requires
        0 <= from,
    ensures
        match find_from(s, part, from) {
            Some(i) => from <= i && strings::stands_at(s, part, i) && forall|j: int|
                from <= j < i ==> !strings::stands_at(s, part, j),
            None => forall|j: int| from <= j ==> !strings::stands_at(s, part, j),
        },
    decreases s.len() + 1 - from,
{
    if from + part.len() > s.len() {
    } else if s.subrange(from, from + part.len()) == part {
    } else {
        find_from_is_first(s, part, from + 1);
    }
}

fn bytes_at(s: &[u8], part: &[u8], i: usize) -> (r: bool)
    requires
        i + part@.len() <= s@.len(),
    ensures
        r == (s@.subrange(i as int, i + part@.len()) == part@),
{
    let n: usize = s.len();
    let mut j: usize = 0;
    while j < part.len()
        invariant
            j <= part@.len(),
            n == s@.len(),
            i + part@.len() <= n,
            forall|k: int| 0 <= k < j ==> s@[i + k] == #[trigger] part@[k],
        decreases part@.len() - j,
    {
        if s[i + j] != part[j] {
            assert(s@.subrange(i as int, i + part@.len())[j as int] == s@[i + j]);
            return false;
        }
        j = j + 1;
    }
    assert(s@.subrange(i as int, i + part@.len()) =~= part@);
    true
}

/// Where `needle` first stands in `haystack`.
pub fn find(haystack: &[u8], needle: &[u8]) -> (r: Option<usize>)
    requires
        needle@.len() > 0,
    ensures
        match r {
            Some(i) => found(haystack@, needle@) == Some(i as int) && i + needle@.len()
                <= haystack@.len(),
            None => found(haystack@, needle@) is None,
        },
{
    let n: usize = haystack.len();
    let m: usize = needle.len();
    let mut i: usize = 0;
    while m <= n && i <= n - m
        invariant
            n == haystack@.len(),
            m == needle@.len(),
            m > 0,
            i <= n,
            found(haystack@, needle@) == find_from(haystack@, needle@, i as int),
        decreases n - i,
    {
        if bytes_at(haystack, needle, i) {
            return Some(i);
        }
        i = i + 1;
    }
    None
}

/// Where `b` first stands in `s` at or after `from`; the length of `s` where it
/// does not.
pub open spec fn byte_at(s: Seq<u8>, b: u8, from: int) -> int
    decreases s.len() - from,
{
    if from >= s.len() || s[from] == b {
        from
    } else {
        byte_at(s, b, from + 1)
    }
}

fn find_byte(s: &[u8], b: u8, from: usize) -> (r: usize)
    requires
        from <= s@.len(),
    ensures
        r == byte_at(s@, b, from as int),
        from <= r <= s@.len(),
{
    let mut i: usize = from;
    while i < s.len() && s[i] != b
        invariant
            from <= i <= s@.len(),
            byte_at(s@, b, from as int) == byte_at(s@, b, i as int),
        decreases s@.len() - i,
    {
        i = i + 1;
    }
    i
}

/// The string terminator, `ESC \`.
pub open spec fn st() -> Seq<u8> {
    seq![0x1bu8, 0x5cu8]
}

/// Whether the bytes at `i` are the string terminator.
pub open spec fn st_at(buf: Seq<u8>, i: int) -> bool {
    i + 1 < buf.len() && buf[i] == 0x1b && buf[i + 1] == 0x5c
}

/// Where a string control that holds bytes from `i` on ends: behind its string
/// terminator, or behind a BEL where one may end it; at the end of the buffer
/// where neither comes.
pub open spec fn string_end(buf: Seq<u8>, bel: bool, i: int) -> int
    decreases buf.len() - i,
{
    if i >= buf.len() {
        buf.len() as int
    } else if bel && buf[i] == 0x07 {
        i + 1
    } else if st_at(buf, i) {
        i + 2
    } else {
        string_end(buf, bel, i + 1)
    }
}

/// Where the final byte of a CSI sequence stands, at or after `i`.
pub open spec fn csi_final(buf: Seq<u8>, i: int) -> int
    decreases buf.len() - i,
{
    if i >= buf.len() || 0x40 <= buf[i] <= 0x7e {
        i
    } else {
        csi_final(buf, i + 1)
    }
}

/// Where the CSI sequence that starts at `i` ends.
pub open spec fn csi_end(buf: Seq<u8>, i: int) -> int {
    let j = csi_final(buf, i + 2);
    if j < buf.len() {
        j + 1
    } else {
        buf.len() as int
    }
}

/// Whether a CSI sequence answers a probe: DA1 (`ESC [ ? .. c`) or cell size
/// (`ESC [ 6 ; .. t`).
pub open spec fn is_reply(csi: Seq<u8>) -> bool {
    ||| csi.len() > 2 && csi[2] == 0x3f && csi.last() == 0x63
    ||| csi.len() >= 4 && csi[2] == 0x36 && csi[3] == 0x3b && csi.last() == 0x74
}

/// What remains of `buf` from `i` on once the answers to a probe are taken out.
pub open spec fn keys_from(buf: Seq<u8>, i: int) -> Seq<u8>
    decreases buf.len() - i,
    when 0 <= i via keys_from_ends
{
    if i >= buf.len() {
        seq![]
    } else if buf[i] == 0x1b && i + 1 < buf.len() && buf[i + 1] == 0x5f {
        keys_from(buf, string_end(buf, false, i + 2))
    } else if buf[i] == 0x1b && i + 1 < buf.len() && buf[i + 1] == 0x5d {
        keys_from(buf, string_end(buf, true, i + 2))
    } else if buf[i] == 0x1b && i + 1 < buf.len() && buf[i + 1] == 0x5b {
        let end = csi_end(buf, i);
        if is_reply(buf.subrange(i, end)) {
            keys_from(buf, end)
        } else {
            buf.subrange(i, end) + keys_from(buf, end)
        }
    } else {
        seq![buf[i]] + keys_from(buf, i + 1)
    }
}

proof fn string_end_bounds(buf: Seq<u8>, bel: bool, i: int)
    requires
        0 <= i <= buf.len(),
    ensures
        i <= string_end(buf, bel, i) <= buf.len(),
    decreases buf.len() - i,
{
    if i < buf.len() && !(bel && buf[i] == 0x07) && !st_at(buf, i) {
        string_end_bounds(buf, bel, i + 1);
    }
}

proof fn csi_final_bounds(buf: Seq<u8>, i: int)
    requires
        0 <= i <= buf.len(),
    ensures
        i <= csi_final(buf, i) <= buf.len(),
    decreases buf.len() - i,
{
    if i < buf.len() && !(0x40 <= buf[i] <= 0x7e) {
        csi_final_bounds(buf, i + 1);
    }
}

#[via_fn]
proof fn keys_from_ends(buf: Seq<u8>, i: int) {
    if i + 1 < buf.len() {
        string_end_bounds(buf, true, i + 2);
        string_end_bounds(buf, false, i + 2);
        csi_final_bounds(buf, i + 2);
    }
}

fn end_of_string(buf: &[u8], bel: bool, from: usize) -> (r: usize)
    requires
        from <= buf@.len(),
    ensures
        r == string_end(buf@, bel, from as int),
        from <= r <= buf@.len(),
{
    let n: usize = buf.len();
    let mut i: usize = from;
    while i < n
        invariant
            from <= i <= n,
            n == buf@.len(),
            string_end(buf@, bel, from as int) == string_end(buf@, bel, i as int),
        decreases n - i,
    {
        if bel && buf[i] == 0x07 {
            return i + 1;
        }
        if buf[i] == 0x1b && n - i > 1 && buf[i + 1] == 0x5c {
            return i + 2;
        }
        i = i + 1;
    }
    n
}

/// Where the final byte of a CSI sequence stands, at or after `from`.
fn final_byte(buf: &[u8], from: usize) -> (r: usize)
    requires
        from <= buf@.len(),
    ensures
        r == csi_final(buf@, from as int),
        from <= r <= buf@.len(),
{
    let n: usize = buf.len();
    let mut j: usize = from;
    while j < n && !(0x40 <= buf[j] && buf[j] <= 0x7e)
        invariant
            from <= j <= n,
            n == buf@.len(),
            csi_final(buf@, from as int) == csi_final(buf@, j as int),
        decreases n - j,
    {
        j = j + 1;
    }
    j
}

fn end_of_csi(buf: &[u8], start: usize) -> (r: usize)
    requires
        start + 1 < buf@.len(),
    ensures
        r == csi_end(buf@, start as int),
        start + 2 <= r <= buf@.len(),
{
    let n: usize = buf.len();
    let j: usize = final_byte(buf, start + 2);
    if j < n {
        j + 1
    } else {
        n
    }
}

/// Everything in the probe buffer that is not part of an answer to the probe:
/// APC (`ESC _ ... ESC \`) and OSC (`ESC ] ...`, up to BEL or `ESC \`) are
/// skipped, and so are the CSI answers. Any other CSI sequence — arrow keys,
/// PgUp/PgDn — is a keystroke and is kept intact.
pub fn non_response_bytes(buf: &[u8]) -> (r: Vec<u8>)
    ensures
        r@ == keys_from(buf@, 0),
{
    let n: usize = buf.len();
    let mut out: Vec<u8> = Vec::new();
    let mut i: usize = 0;
    assert(out@ + keys_from(buf@, 0) =~= keys_from(buf@, 0));
    while i < n
        invariant
            i <= n,
            n == buf@.len(),
            out@ + keys_from(buf@, i as int) == keys_from(buf@, 0),
        decreases n - i,
    {
        let ghost before = out@;
        if buf[i] == 0x1b && n - i > 1 && buf[i + 1] == 0x5f {
            i = end_of_string(buf, false, i + 2);
        } else if buf[i] == 0x1b && n - i > 1 && buf[i + 1] == 0x5d {
            i = end_of_string(buf, true, i + 2);
        } else if buf[i] == 0x1b && n - i > 1 && buf[i + 1] == 0x5b {
            let end: usize = end_of_csi(buf, i);
            let csi = slice_subrange(buf, i, end);
            let m: usize = csi.len();
            let da1 = m > 2 && csi[2] == 0x3f && csi[m - 1] == 0x63;
            let size = m >= 4 && csi[2] == 0x36 && csi[3] == 0x3b && csi[m - 1] == 0x74;
            if !da1 && !size {
                out.extend_from_slice(csi);
                assert(out@ =~= before + csi@);
                assert(before + (csi@ + keys_from(buf@, end as int)) =~= before + csi@ + keys_from(
                    buf@,
                    end as int,
                ));
            }
            i = end;
        } else {
            out.push(buf[i]);
            assert(before + (seq![buf@[i as int]] + keys_from(buf@, i + 1)) =~= out@ + keys_from(
                buf@,
                i + 1,
            ));
            i = i + 1;
        }
    }
    assert(out@ + keys_from(buf@, i as int) =~= out@);
    out
}

/// Whether a buffer holds a whole answer to DA1.
pub open spec fn da1_in(buf: Seq<u8>) -> bool {
    match found(buf, seq![0x1bu8, 0x5bu8, 0x3fu8]) {
        Some(i) => byte_at(buf, 0x63, i + 3) < buf.len(),
        None => false,
    }
}

/// The DA1 reply (`ESC [ ? ... c`) marks the end of the probe conversation.
pub fn da1_answered(buf: &[u8]) -> (r: bool)
    ensures
        r == da1_in(buf@),
{
    let start: [u8; 3] = [0x1b, 0x5b, 0x3f];
    assert(start@ =~= seq![0x1bu8, 0x5bu8, 0x3fu8]);
    let n: usize = buf.len();
    match find(buf, &start) {
        Some(i) => find_byte(buf, 0x63, i + 3) < n,
        None => false,
    }
}

/// The largest number that `n` hexadecimal digits write, one to four of them.
pub open spec fn full_scale(n: nat) -> nat {
    if n == 1 {
        0xf
    } else if n == 2 {
        0xff
    } else if n == 3 {
        0xfff
    } else {
        0xffff
    }
}

/// A color channel of one to four hexadecimal digits, scaled to eight bits and
/// rounded.
pub open spec fn channel(p: Seq<char>) -> Option<u8> {
    if 1 <= p.len() <= 4 && numbers::all_digits(p, 16) {
        let v = numbers::value(p, 16);
        Some(((v * 255 + full_scale(p.len()) / 2) / full_scale(p.len())) as u8)
    } else {
        None
    }
}

/// The color that an X11 color spec of the form `rgb:R/G/B` names.
pub open spec fn x_color(s: Seq<char>) -> Option<(u8, u8, u8)> {
    let t = strings::trimmed(s);
    let parts = strings::split_from(t.skip(4), '/', 0);
    if !strings::stands_at(t, "rgb:"@, 0) || parts.len() < 3 {
        None
    } else {
        match (channel(parts[0]), channel(parts[1]), channel(parts[2])) {
            (Some(r), Some(g), Some(b)) => Some((r, g, b)),
            _ => None,
        }
    }
}

proof fn digits_are_bounded(s: Seq<char>)
    requires
        s.len() <= 4,
    ensures
        s.len() == 0 ==> numbers::value(s, 16) == 0,
        s.len() == 1 ==> numbers::value(s, 16) <= 0xf,
        s.len() == 2 ==> numbers::value(s, 16) <= 0xff,
        s.len() == 3 ==> numbers::value(s, 16) <= 0xfff,
        s.len() == 4 ==> numbers::value(s, 16) <= 0xffff,
    decreases s.len(),
{
    if s.len() > 0 {
        digits_are_bounded(s.drop_last());
    }
}

fn parse_channel(p: &str) -> (r: Option<u8>)
    ensures
        r == channel(p@),
{
    let chars = strings::to_chars(p);
    let n: usize = chars.len();
    if n == 0 || n > 4 {
        return None;
    }
    if chars[0] == '+' {
        assert(numbers::digit_value(p@[0], 16) is None);
        return None;
    }
    proof {
        digits_are_bounded(p@);
    }
    match numbers::parse(p, 16, 0xffff) {
        Some(v) => {
            assert(v <= full_scale(n as nat));
            let x: u64 = if n == 1 {
                (v * 255 + 7) / 0xf
            } else if n == 2 {
                (v * 255 + 127) / 0xff
            } else if n == 3 {
                (v * 255 + 2047) / 0xfff
            } else {
                (v * 255 + 32767) / 0xffff
            };
            Some(x as u8)
        },
        None => None,
    }
}

/// Parses X11 color spec replies: `rgb:2b2b/3030/3b3b` (1-4 hex digits per
/// channel, scaled to 8 bits).
pub fn parse_x_color(s: &str) -> (r: Option<(u8, u8, u8)>)
    ensures
        r == x_color(s@),
{
    let t = trim(s);
    if !strings::starts_with(t.as_str(), "rgb:") {
        return None;
    }
    proof {
        reveal_strlit("rgb:");
        assert("rgb:"@.len() == 4);
    }
    let chars = strings::to_chars(t.as_str());
    let body = strings::from_chars(&chars, 4, chars.len());
    assert(body@ =~= t@.skip(4));
    let parts = split(body.as_str(), '/');
    let ghost ps = strings::split_from(t@.skip(4), '/', 0);
    if parts.len() < 3 {
        return None;
    }
    assert(ps[0] == parts@[0]@ && ps[1] == parts@[1]@ && ps[2] == parts@[2]@);
    match (
        parse_channel(parts[0].as_str()),
        parse_channel(parts[1].as_str()),
        parse_channel(parts[2].as_str()),
    ) {
        (Some(r), Some(g), Some(b)) => Some((r, g, b)),
        _ => None,
    }
}

/// Whether the graphics query was answered with `OK`, where it was answered.
pub open spec fn graphics_reply(buf: Seq<u8>) -> Option<bool> {
    match found(buf, seq![0x1bu8, 0x5fu8, 0x47u8]) {
        Some(i) => {
            let tail = buf.skip(i);
            let reply = match found(tail, st()) {
                Some(end) => tail.take(end),
                None => tail,
            };
            Some(found(reply, seq![0x4fu8, 0x4bu8]) is Some)
        },
        None => None,
    }
}

/// Where the first BEL or ESC stands in `s`, at or after `i`.
pub open spec fn reply_end(s: Seq<u8>, i: int) -> int
    decreases s.len() - i,
{
    if i >= s.len() || s[i] == 0x07 || s[i] == 0x1b {
        i
    } else {
        reply_end(s, i + 1)
    }
}

/// The background color that OSC 11 was answered with, where it was answered.
pub open spec fn color_reply(buf: Seq<u8>) -> Option<Option<(u8, u8, u8)>> {
    match found(buf, seq![0x1bu8, 0x5du8, 0x31u8, 0x31u8, 0x3bu8]) {
        Some(i) => {
            let tail = buf.skip(i + 5);
            Some(x_color(strings::bytes_text(tail.take(reply_end(tail, 0)))))
        },
        None => None,
    }
}

/// The width and height in pixels that a cell-size reply names, height first.
pub open spec fn cell_size(body: Seq<char>) -> Option<(u16, u16)> {
    let parts = strings::split_from(body, ';', 0);
    if parts.len() < 2 {
        None
    } else {
        match (numbers::parsed(parts[0], 10, 0xffff), numbers::parsed(parts[1], 10, 0xffff)) {
            (Some(h), Some(w)) => if h > 0 && w > 0 {
                Some((w as u16, h as u16))
            } else {
                None
            },
            _ => None,
        }
    }
}

/// The cell size that the CSI sequence at `i` answers CSI 16t with: it starts
/// with `ESC [ 6 ;` and ends in `t`. Other sequences start so too, such as that
/// of a page key held with shift.
pub open spec fn size_at(buf: Seq<u8>, i: int) -> Option<(u16, u16)> {
    let end = csi_final(buf, i + 2);
    if strings::stands_at(buf, seq![0x1bu8, 0x5bu8, 0x36u8, 0x3bu8], i) && end < buf.len()
        && buf[end] == 0x74 {
        cell_size(strings::bytes_text(buf.subrange(i + 4, end)))
    } else {
        None
    }
}

/// The first cell size that CSI 16t was answered with, at or after `i`.
pub open spec fn size_from(buf: Seq<u8>, i: int) -> Option<(u16, u16)>
    decreases buf.len() - i,
{
    if i >= buf.len() {
        None
    } else if size_at(buf, i) is Some {
        size_at(buf, i)
    } else {
        size_from(buf, i + 1)
    }
}

/// The cell size that CSI 16t was answered with.
pub open spec fn size_reply(buf: Seq<u8>) -> Option<(u16, u16)> {
    size_from(buf, 0)
}

/// `probe` with what `buf` answers filled in.
pub open spec fn probed(buf: Seq<u8>, probe: Probe) -> Probe {
    Probe {
        graphics: match graphics_reply(buf) {
            Some(ok) => ok,
            None => probe.graphics,
        },
        bg: match color_reply(buf) {
            Some(c) => c,
            None => probe.bg,
        },
        cell: match size_reply(buf) {
            Some(c) => Some(c),
            None => probe.cell,
        },
    }
}

/// Reads the body of a cell-size reply: height, then width, in pixels.
pub fn parse_cell_size(body: &str) -> (r: Option<(u16, u16)>)
    ensures
        r == cell_size(body@),
{
    let parts = split(body, ';');
    let ghost ps = strings::split_from(body@, ';', 0);
    if parts.len() < 2 {
        return None;
    }
    assert(ps[0] == parts@[0]@ && ps[1] == parts@[1]@);
    match (
        numbers::parse(parts[0].as_str(), 10, 0xffff),
        numbers::parse(parts[1].as_str(), 10, 0xffff),
    ) {
        (Some(h), Some(w)) => {
            if h > 0 && w > 0 {
                Some((w as u16, h as u16))
            } else {
                None
            }
        },
        _ => None,
    }
}

fn read_graphics(buf: &[u8]) -> (r: Option<bool>)
    ensures
        r == graphics_reply(buf@),
{
    let start: [u8; 3] = [0x1b, 0x5f, 0x47];
    let stop: [u8; 2] = [0x1b, 0x5c];
    let ok: [u8; 2] = [0x4f, 0x4b];
    assert(start@ =~= seq![0x1bu8, 0x5fu8, 0x47u8]);
    assert(stop@ =~= st());
    assert(ok@ =~= seq![0x4fu8, 0x4bu8]);
    match find(buf, &start) {
        Some(i) => {
            let tail = slice_subrange(buf, i, buf.len());
            assert(tail@ =~= buf@.skip(i as int));
            let end: usize = match find(tail, &stop) {
                Some(e) => e,
                None => tail.len(),
            };
            let reply = slice_subrange(tail, 0, end);
            assert(end == tail@.len() ==> reply@ =~= tail@);
            assert(reply@ =~= tail@.take(end as int));
            Some(find(reply, &ok).is_some())
        },
        None => None,
    }
}

fn read_color(buf: &[u8]) -> (r: Option<Option<(u8, u8, u8)>>)
    ensures
        r == color_reply(buf@),
{
    let start: [u8; 5] = [0x1b, 0x5d, 0x31, 0x31, 0x3b];
    assert(start@ =~= seq![0x1bu8, 0x5du8, 0x31u8, 0x31u8, 0x3bu8]);
    let n: usize = buf.len();
    match find(buf, &start) {
        Some(i) => {
            let tail = slice_subrange(buf, i + 5, n);
            assert(tail@ =~= buf@.skip(i + 5));
            let mut end: usize = 0;
            while end < tail.len() && tail[end] != 0x07 && tail[end] != 0x1b
                invariant
                    end <= tail@.len(),
                    reply_end(tail@, 0) == reply_end(tail@, end as int),
                decreases tail@.len() - end,
            {
                end = end + 1;
            }
            let body = slice_subrange(tail, 0, end);
            assert(body@ =~= tail@.take(end as int));
            let body_text = bytes_to_string(body);
            Some(parse_x_color(body_text.as_str()))
        },
        None => None,
    }
}

fn read_size_at(buf: &[u8], i: usize) -> (r: Option<(u16, u16)>)
    requires
        i < buf@.len(),
    ensures
        r == size_at(buf@, i as int),
{
    let start: [u8; 4] = [0x1b, 0x5b, 0x36, 0x3b];
    let ghost want = seq![0x1bu8, 0x5bu8, 0x36u8, 0x3bu8];
    assert(start@ =~= want);
    let n: usize = buf.len();
    if n - i < 4 || !bytes_at(buf, &start, i) {
        return None;
    }
    assert(buf@[i + 2] == buf@.subrange(i as int, i + 4)[2]);
    assert(buf@[i + 3] == buf@.subrange(i as int, i + 4)[3]);
    let end: usize = final_byte(buf, i + 4);
    assert(csi_final(buf@, i + 2) == csi_final(buf@, i + 3));
    assert(csi_final(buf@, i + 3) == csi_final(buf@, i + 4));
    if end == n || buf[end] != 0x74 {
        return None;
    }
    let body = slice_subrange(buf, i + 4, end);
    let body_text = bytes_to_string(body);
    parse_cell_size(body_text.as_str())
}

fn read_size(buf: &[u8]) -> (r: Option<(u16, u16)>)
    ensures
        r == size_reply(buf@),
{
    let n: usize = buf.len();
    let mut i: usize = 0;
    while i < n
        invariant
            i <= n,
            n == buf@.len(),
            size_reply(buf@) == size_from(buf@, i as int),
        decreases n - i,
    {
        let size = read_size_at(buf, i);
        if size.is_some() {
            return size;
        }
        i = i + 1;
    }
    None
}

/// Fills in what the terminal's replies tell: the graphics reply `ESC _ G ..
/// ESC \`, the background reply `ESC ] 11 ; rgb:R/G/B` ended by BEL or ST, and
/// the cell-size reply `ESC [ 6 ; height ; width t`.
pub fn parse_probe(buf: &[u8], probe: &mut Probe)
    ensures
        *final(probe) == probed(buf@, *old(probe)),
{
    if let Some(ok) = read_graphics(buf) {
        probe.graphics = ok;
    }
    if let Some(c) = read_color(buf) {
        probe.bg = c;
    }
    if let Some(c) = read_size(buf) {
        probe.cell = Some(c);
    }
}

/// The base64 text, as bytes, that the `STANDARD` engine makes of data.
pub uninterp spec fn base64_standard(data: Seq<u8>) -> Seq<u8>;

/// Calls `base64::Engine::encode` on the `STANDARD` engine. The text depends on
/// the data alone, and is empty for no data.
#[verifier::external_body]
fn encode_standard(data: &[u8]) -> (r: Vec<u8>)
    ensures
        r@ == base64_standard(data@),
        data@.len() == 0 ==> r@.len() == 0,
{
    base64::Engine::encode(&base64::engine::general_purpose::STANDARD, data).into_bytes()
}

/// The most payload that one escape sequence carries.
pub const CHUNK: usize = 4096;

/// The number of chunks that data is sent in.
pub open spec fn chunk_count(data: Seq<u8>) -> nat {
    ((data.len() + CHUNK - 1) / (CHUNK as int)) as nat
}

/// The data that chunk `k` carries.
pub open spec fn chunk(data: Seq<u8>, k: int) -> Seq<u8> {
    data.subrange(
        k * CHUNK,
        if (k + 1) * CHUNK < data.len() {
            (k + 1) * CHUNK
        } else {
            data.len() as int
        },
    )
}

/// The start of the escape sequence that carries a chunk; the first one names
/// the image, and each tells whether more follow.
pub open spec fn chunk_head(id: u32, first: bool, more: bool) -> Seq<char> {
    let m = if more {
        "1;"@
    } else {
        "0;"@
    };
    if first {
        "\x1b_Ga=t,i="@ + numbers::decimal_text(id as nat) + ",f=100,t=d,q=2,m="@ + m
    } else {
        "\x1b_Gm="@ + m
    }
}

/// The escape sequences of the first `n` chunks.
pub open spec fn chunks_sent(id: u32, data: Seq<u8>, n: nat) -> Seq<u8>
    decreases n,
{
    if n == 0 {
        seq![]
    } else {
        chunks_sent(id, data, (n - 1) as nat) + utf8::encode_utf8(
            chunk_head(id, n == 1, n < chunk_count(data)),
        ) + chunk(data, n - 1) + utf8::encode_utf8("\x1b\\"@)
    }
}

/// The escape sequences that transmit base64 data for an image.
pub open spec fn transmission(id: u32, data: Seq<u8>) -> Seq<u8> {
    chunks_sent(id, data, chunk_count(data))
}

/// The first `n` chunks, joined.
pub open spec fn chunks_joined(data: Seq<u8>, n: nat) -> Seq<u8>
    decreases n,
{
    if n == 0 {
        seq![]
    } else {
        chunks_joined(data, (n - 1) as nat) + chunk(data, n - 1)
    }
}

proof fn chunks_join_up(data: Seq<u8>, n: nat)
    requires
        n <= chunk_count(data),
    ensures
        chunks_joined(data, n) == data.take(
            if n * CHUNK < data.len() {
                n * CHUNK
            } else {
                data.len() as int
            },
        ),
    decreases n,
{
    if n > 0 {
        chunks_join_up(data, (n - 1) as nat);
        assert((n - 1) * CHUNK < data.len());
        assert(chunks_joined(data, n) =~= data.take(
            if n * CHUNK < data.len() {
                n * CHUNK
            } else {
                data.len() as int
            },
        ));
    } else {
        assert(data.take(0) =~= seq![]);
    }
}

/// The chunks that are sent carry the data, in order and nothing else; each is
/// within the limit, and none is empty.
pub proof fn chunks_carry_the_data(data: Seq<u8>)
    ensures
        chunks_joined(data, chunk_count(data)) == data,
        forall|k: int|
            0 <= k < chunk_count(data) ==> 0 < (#[trigger] chunk(data, k)).len() <= CHUNK,
{
    chunks_join_up(data, chunk_count(data));
    assert(data.take(data.len() as int) =~= data);
}

/// Appends the UTF-8 bytes of a string.
pub fn push_text(out: &mut Vec<u8>, s: &str)
    ensures
        final(out)@ == old(out)@ + utf8::encode_utf8(s@),
{
    out.extend_from_slice(s.as_bytes());
    assert(out@ =~= old(out)@ + utf8::encode_utf8(s@));
}

fn write_chunk_head(out: &mut Vec<u8>, id: u32, first: bool, more: bool)
    ensures
        final(out)@ == old(out)@ + utf8::encode_utf8(chunk_head(id, first, more)),
{
    let m = if more {
        "1;"
    } else {
        "0;"
    };
    let mut head: String;
    if first {
        head = "\x1b_Ga=t,i=".to_owned();
        let number = decimal(id as u128);
        head.push_str(number.as_str());
        head.push_str(",f=100,t=d,q=2,m=");
    } else {
        head = "\x1b_Gm=".to_owned();
    }
    head.push_str(m);
    push_text(out, head.as_str());
}

/// Transmits PNG data for `id` (chunked; q=2 suppresses responses).
pub fn transmit(out: &mut Vec<u8>, id: u32, png: &[u8])
    ensures
        final(out)@ == old(out)@ + transmission(id, base64_standard(png@)),
{
    let data = encode_standard(png);
    send(out, id, &data);
}

/// Transmits base64 data for `id`, in chunks.
pub fn send(out: &mut Vec<u8>, id: u32, data: &Vec<u8>)
    ensures
        final(out)@ == old(out)@ + transmission(id, data@),
{
    let ghost start = out@;
    let n: usize = data.len();
    let mut from: usize = 0;
    let ghost mut k: nat = 0;
    assert(start + seq![] =~= start);
    while from < n
        invariant
            n == data@.len(),
            from <= n,
            k <= chunk_count(data@),
            from == (if k * CHUNK < n {
                k * CHUNK
            } else {
                n as int
            }),
            from == n ==> k == chunk_count(data@),
            out@ == start + chunks_sent(id, data@, k),
        decreases n - from,
    {
        let end: usize = if n - from > CHUNK {
            from + CHUNK
        } else {
            n
        };
        let ghost before = chunks_sent(id, data@, k);
        assert((k + 1 < chunk_count(data@)) == (end < n));
        write_chunk_head(out, id, from == 0, end < n);
        let part = slice_subrange(data.as_slice(), from, end);
        assert(part@ =~= chunk(data@, k as int));
        out.extend_from_slice(part);
        push_text(out, "\x1b\\");
        proof {
            let head = utf8::encode_utf8(chunk_head(id, from == 0, end < n));
            let tail = utf8::encode_utf8("\x1b\\"@);
            assert(out@ =~= start + (before + head + chunk(data@, k as int) + tail));
            k = k + 1;
        }
        from = end;
    }
}

/// The escape sequence that sizes image `id` to a cell grid.
pub open spec fn placement(id: u32, cols: u16, rows: u16) -> Seq<char> {
    "\x1b_Ga=p,U=1,i="@ + numbers::decimal_text(id as nat) + ",p=1,c="@ + numbers::decimal_text(
        cols as nat,
    ) + ",r="@ + numbers::decimal_text(rows as nat) + ",q=2\x1b\\"@
}

/// Creates (or replaces) the virtual placement sizing `id` to cols x rows.
pub fn place(out: &mut Vec<u8>, id: u32, cols: u16, rows: u16)
    ensures
        final(out)@ == old(out)@ + utf8::encode_utf8(placement(id, cols, rows)),
{
    let mut s: String = "\x1b_Ga=p,U=1,i=".to_owned();
    let id_text = decimal(id as u128);
    s.push_str(id_text.as_str());
    s.push_str(",p=1,c=");
    let cols_text = decimal(cols as u128);
    s.push_str(cols_text.as_str());
    s.push_str(",r=");
    let rows_text = decimal(rows as u128);
    s.push_str(rows_text.as_str());
    s.push_str(",q=2\x1b\\");
    push_text(out, s.as_str());
}

/// Deletes all transmitted images and placements (used on exit).
pub fn delete_all(out: &mut Vec<u8>)
    ensures
        final(out)@ == old(out)@ + utf8::encode_utf8("\x1b_Ga=d,d=A,q=2\x1b\\"@),
{
    push_text(out, "\x1b_Ga=d,d=A,q=2\x1b\\");
}

/// Whether bytes are one whole answer to the probe.
pub open spec fn is_answer(a: Seq<u8>) -> bool {
    let n = a.len() as int;
    n >= 3 && a[0] == 0x1b && ({
        ||| a[1] == 0x5f && n >= 4 && st_at(a, n - 2) && forall|j: int|
            2 <= j < n - 2 ==> !st_at(a, j)
        ||| a[1] == 0x5d && a[n - 1] == 0x07 && forall|j: int|
            2 <= j < n - 1 ==> a[j] != 0x07 && !st_at(a, j)
        ||| a[1] == 0x5d && n >= 4 && st_at(a, n - 2) && forall|j: int|
            2 <= j < n - 2 ==> a[j] != 0x07 && !st_at(a, j)
        ||| is_key_csi(a) && is_reply(a)
    })
}

/// Whether bytes are one whole CSI sequence.
pub open spec fn is_key_csi(a: Seq<u8>) -> bool {
    let n = a.len() as int;
    n >= 3 && a[0] == 0x1b && a[1] == 0x5b && 0x40 <= a[n - 1] <= 0x7e && forall|j: int|
        2 <= j < n - 1 ==> !(0x40 <= #[trigger] a[j] <= 0x7e)
}

proof fn string_end_shifts(a: Seq<u8>, b: Seq<u8>, bel: bool, i: int)
    requires
        0 <= i <= b.len(),
    ensures
        string_end(a + b, bel, a.len() + i) == a.len() + string_end(b, bel, i),
    decreases b.len() - i,
{
    if i < b.len() && !(bel && b[i] == 0x07) && !st_at(b, i) {
        string_end_shifts(a, b, bel, i + 1);
    }
}

proof fn csi_final_shifts(a: Seq<u8>, b: Seq<u8>, i: int)
    requires
        0 <= i <= b.len(),
    ensures
        csi_final(a + b, a.len() + i) == a.len() + csi_final(b, i),
    decreases b.len() - i,
{
    if i < b.len() && !(0x40 <= b[i] <= 0x7e) {
        csi_final_shifts(a, b, i + 1);
    }
}

proof fn keys_shift(a: Seq<u8>, b: Seq<u8>, i: int)
    requires
        0 <= i <= b.len(),
    ensures
        keys_from(a + b, a.len() + i) == keys_from(b, i),
    decreases b.len() - i,
{
    let s = a + b;
    let k = a.len() + i;
    if i < b.len() {
        assert(s[k] == b[i]);
        if i + 1 < b.len() {
            assert(s[k + 1] == b[i + 1]);
            string_end_bounds(b, true, i + 2);
            string_end_bounds(b, false, i + 2);
            csi_final_bounds(b, i + 2);
            if b[i] == 0x1b && b[i + 1] == 0x5f {
                string_end_shifts(a, b, false, i + 2);
                keys_shift(a, b, string_end(b, false, i + 2));
            } else if b[i] == 0x1b && b[i + 1] == 0x5d {
                string_end_shifts(a, b, true, i + 2);
                keys_shift(a, b, string_end(b, true, i + 2));
            } else if b[i] == 0x1b && b[i + 1] == 0x5b {
                csi_final_shifts(a, b, i + 2);
                let end = csi_end(b, i);
                assert(csi_end(s, k) == a.len() + end);
                assert(s.subrange(k, a.len() + end) =~= b.subrange(i, end));
                keys_shift(a, b, end);
            } else {
                keys_shift(a, b, i + 1);
            }
        } else {
            keys_shift(a, b, i + 1);
        }
    }
}

proof fn string_ends_at(s: Seq<u8>, bel: bool, i: int, end: int)
    requires
        0 <= i <= end < s.len(),
        (bel && s[end] == 0x07) || st_at(s, end),
        forall|j: int| i <= j < end ==> !(bel && s[j] == 0x07) && !st_at(s, j),
    ensures
        string_end(s, bel, i) == (if bel && s[end] == 0x07 {
            end + 1
        } else {
            end + 2
        }),
    decreases end - i,
{
    if i < end {
        string_ends_at(s, bel, i + 1, end);
    }
}

proof fn csi_ends_at(s: Seq<u8>, i: int, end: int)
    requires
        0 <= i <= end < s.len(),
        0x40 <= s[end] <= 0x7e,
        forall|j: int| i <= j < end ==> !(0x40 <= #[trigger] s[j] <= 0x7e),
    ensures
        csi_final(s, i) == end,
    decreases end - i,
{
    if i < end {
        csi_ends_at(s, i + 1, end);
    }
}

/// A whole answer to the probe leaves no byte behind, whatever follows it.
pub proof fn answers_are_dropped(a: Seq<u8>, rest: Seq<u8>)
    requires
        is_answer(a),
    ensures
        keys_from(a + rest, 0) == keys_from(rest, 0),
{
    let s = a + rest;
    let n = a.len() as int;
    assert forall|j: int| 0 <= j < n - 1 implies st_at(s, j) == st_at(a, j) by {
        assert(s[j] == a[j] && s[j + 1] == a[j + 1]);
    }
    assert(s[0] == a[0] && s[1] == a[1]);
    keys_shift(a, rest, 0);
    if a[1] == 0x5f {
        string_ends_at(s, false, 2, n - 2);
    } else if a[1] == 0x5d {
        if a[n - 1] == 0x07 {
            string_ends_at(s, true, 2, n - 1);
        } else {
            string_ends_at(s, true, 2, n - 2);
        }
    } else {
        csi_ends_at(s, 2, n - 1);
        assert(s.subrange(0, n) =~= a);
    }
}

/// A whole CSI sequence that answers nothing is a keystroke and stays intact,
/// whatever follows it.
pub proof fn keystrokes_are_kept(a: Seq<u8>, rest: Seq<u8>)
    requires
        is_key_csi(a),
        !is_reply(a),
    ensures
        keys_from(a + rest, 0) == a + keys_from(rest, 0),
{
    let s = a + rest;
    let n = a.len() as int;
    assert(s[0] == a[0] && s[1] == a[1]);
    keys_shift(a, rest, 0);
    csi_ends_at(s, 2, n - 1);
    assert(s.subrange(0, n) =~= a);
}

proof fn plain_keys_from(s: Seq<u8>, i: int)
    requires
        0 <= i <= s.len(),
        !s.contains(0x1b),
    ensures
        keys_from(s, i) == s.skip(i),
    decreases s.len() - i,
{
    if i < s.len() {
        assert(s.contains(s[i]));
        plain_keys_from(s, i + 1);
        assert(seq![s[i]] + s.skip(i + 1) =~= s.skip(i));
    }
}

/// Keystrokes without escape sequences are kept as they are.
pub proof fn plain_keys_are_kept(s: Seq<u8>)
    requires
        !s.contains(0x1b),
    ensures
        keys_from(s, 0) == s,
{
    plain_keys_from(s, 0);
    assert(s.skip(0) =~= s);
}

proof fn size_from_skips(buf: Seq<u8>, i: int, k: int)
    requires
        0 <= i <= k < buf.len(),
        forall|j: int| i <= j < k ==> (#[trigger] size_at(buf, j)) is None,
        size_at(buf, k) is Some,
    ensures
        size_from(buf, i) == size_at(buf, k),
    decreases k - i,
{
    if i < k {
        size_from_skips(buf, i + 1, k);
    }
}

proof fn size_from_finds(buf: Seq<u8>, i: int, k: int)
    requires
        0 <= i <= k < buf.len(),
        size_at(buf, k) is Some,
    ensures
        size_from(buf, i) is Some,
    decreases k - i,
{
    if i < k && size_at(buf, i) is None {
        size_from_finds(buf, i + 1, k);
    }
}

/// A cell size that the terminal gave is not missed, whatever was typed before
/// it; and where nothing before it tells a size, it is that one.
pub proof fn given_sizes_are_found(buf: Seq<u8>, k: int, probe: Probe)
    requires
        0 <= k < buf.len(),
        size_at(buf, k) is Some,
    ensures
        probed(buf, probe).cell is Some,
        (forall|j: int| 0 <= j < k ==> (#[trigger] size_at(buf, j)) is None) ==> probed(
            buf,
            probe,
        ).cell == size_at(buf, k),
{
    size_from_finds(buf, 0, k);
    if forall|j: int| 0 <= j < k ==> (#[trigger] size_at(buf, j)) is None {
        size_from_skips(buf, 0, k);
    }
}

} // verus!
