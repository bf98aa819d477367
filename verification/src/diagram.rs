//! Renders mermaid diagrams and LaTeX math to PNG for the kitty image
//! pipeline. Rendering uses public services (mermaid.ink, codecogs) since a
//! local mermaid/TeX toolchain is rarely installed; results are cached on
//! disk keyed by source hash, and failures are memoized per process so an
//! offline session degrades to highlighted code blocks without re-blocking.

use vstd::prelude::*;
use std::collections::hash_map::DefaultHasher;
use std::hash::Hasher;
use vstd::bytes;
use vstd::bytes::u64_to_le_bytes;
use vstd::std_specs::hash::DefaultHasherAdditionalSpecFns;
use vstd::utf8;
use crate::memo::{Memo, Slot};
use crate::numbers;
use crate::numbers::hex;
use crate::paths;
use crate::strings;
use crate::strings::trim;

verus! {

/// The largest diagram that is accepted.
pub const MAX_PNG_BYTES: usize = 8388608;

/// The diagrams asked for so far, by cache key.
pub type Diagrams = Memo<String, Vec<u8>>;

/// A diagram to fetch: what it is cached under, and where it is rendered.
pub struct Request {
    pub key: String,
    pub url: String,
}

#[verifier::ext_equal]
pub struct RequestView {
    pub key: Seq<char>,
    pub url: Seq<char>,
}

impl View for Request {
    type V = RequestView;

    open spec fn view(&self) -> RequestView {
        RequestView { key: self.key@, url: self.url@ }
    }
}

/// What a memo says of a diagram.
pub enum Lookup {
    Ready(Vec<u8>),
    /// It is being fetched, or could not be had.
    Unavailable,
    /// It was never asked for.
    Unknown(Request),
}

/// Whether data starts as a PNG file does.
pub open spec fn png_like(bytes: Seq<u8>) -> bool {
    bytes.len() >= 4 && bytes[0] == 0x89 && bytes[1] == 0x50 && bytes[2] == 0x4e && bytes[3] == 0x47
}

pub fn is_png(bytes: &[u8]) -> (r: bool)
    ensures
        r == png_like(bytes@),
{
    bytes.len() >= 4 && bytes[0] == 0x89 && bytes[1] == 0x50 && bytes[2] == 0x4e && bytes[3] == 0x47
}

/// Whether a byte stands for itself in a URL.
pub open spec fn unreserved(b: u8) -> bool {
    ||| 0x41 <= b <= 0x5a
    ||| 0x61 <= b <= 0x7a
    ||| 0x30 <= b <= 0x39
    ||| b == 0x2d
    ||| b == 0x5f
    ||| b == 0x2e
    ||| b == 0x7e
}

/// An uppercase hexadecimal digit.
pub open spec fn upper_hex(d: int) -> char {
    if d < 10 {
        (48 + d) as u8 as char
    } else {
        (55 + d) as u8 as char
    }
}

/// A byte as it stands in a URL.
pub open spec fn percent_byte(b: u8) -> Seq<char> {
    if unreserved(b) {
        seq![b as char]
    } else {
        seq!['%', upper_hex(b as int / 16), upper_hex(b as int % 16)]
    }
}

/// Bytes as they stand in a URL.
pub open spec fn percent_text(bytes: Seq<u8>) -> Seq<char>
    decreases bytes.len(),
{
    if bytes.len() == 0 {
        seq![]
    } else {
        percent_text(bytes.drop_last()) + percent_byte(bytes.last())
    }
}

fn push_percent(out: &mut String, b: u8)
    ensures
        final(out)@ == old(out)@ + percent_byte(b),
{
    let plain = (0x41 <= b && b <= 0x5a) || (0x61 <= b && b <= 0x7a) || (0x30 <= b && b <= 0x39)
        || b == 0x2d || b == 0x5f || b == 0x2e || b == 0x7e;
    if plain {
        out.push(b as char);
    } else {
        out.push('%');
        let hi: u8 = b / 16;
        let lo: u8 = b % 16;
        out.push(
            if hi < 10 {
                (48 + hi) as char
            } else {
                (55 + hi) as char
            },
        );
        out.push(
            if lo < 10 {
                (48 + lo) as char
            } else {
                (55 + lo) as char
            },
        );
    }
    assert(out@ =~= old(out)@ + percent_byte(b));
}

/// Escapes every byte that does not stand for itself in a URL.
pub fn percent_encode(s: &str) -> (r: String)
    ensures
        r@ == percent_text(utf8::encode_utf8(s@)),
{
    let bytes = s.as_bytes();
    let ghost all = utf8::encode_utf8(s@);
    let mut out = String::new();
    let mut i: usize = 0;
    assert(all.take(0) =~= seq![]);
    while i < bytes.len()
        invariant
            i <= bytes@.len(),
            bytes@ == all,
            out@ == percent_text(all.take(i as int)),
        decreases bytes@.len() - i,
    {
        assert(all.take(i + 1).drop_last() =~= all.take(i as int));
        push_percent(&mut out, bytes[i]);
        i = i + 1;
    }
    assert(all.take(i as int) =~= all);
    out
}

/// Whether a character can stand in encoded text.
pub open spec fn url_safe(c: char) -> bool {
    strings::is_alnum(c) || c == '-' || c == '_' || c == '.' || c == '~' || c == '%'
}

/// Encoded text holds only characters that are safe in a URL.
pub proof fn percent_text_is_safe(bytes: Seq<u8>)
    ensures
        forall|i: int| 0 <= i < percent_text(bytes).len() ==> url_safe(
            #[trigger] percent_text(bytes)[i],
        ),
    decreases bytes.len(),
{
    if bytes.len() > 0 {
        percent_text_is_safe(bytes.drop_last());
        let a = percent_text(bytes.drop_last());
        let b = percent_byte(bytes.last());
        assert forall|i: int| 0 <= i < (a + b).len() implies url_safe(#[trigger] (a + b)[i]) by {
            if i >= a.len() {
                assert((a + b)[i] == b[i - a.len()]);
            } else {
                assert((a + b)[i] == a[i]);
            }
        }
    }
}

/// Bytes are encoded one by one: what is joined and encoded is encoded and
/// joined.
pub proof fn percent_text_joins(a: Seq<u8>, b: Seq<u8>)
    ensures
        percent_text(a + b) == percent_text(a) + percent_text(b),
    decreases b.len(),
{
    if b.len() == 0 {
        assert(a + b =~= a);
        assert(percent_text(a) + percent_text(b) =~= percent_text(a));
    } else {
        assert((a + b).drop_last() =~= a + b.drop_last());
        percent_text_joins(a, b.drop_last());
        let last = percent_byte(b.last());
        assert(percent_text(a) + percent_text(b.drop_last()) + last =~= percent_text(a) + (
        percent_text(b.drop_last()) + last));
    }
}

proof fn encoding_joins(a: Seq<char>, b: Seq<char>)
    ensures
        utf8::encode_utf8(a + b) == utf8::encode_utf8(a) + utf8::encode_utf8(b),
    decreases a.len(),
{
    if a.len() == 0 {
        assert(a + b =~= b);
        assert(utf8::encode_utf8(a) + utf8::encode_utf8(b) =~= utf8::encode_utf8(b));
    } else {
        assert((a + b).drop_first() =~= a.drop_first() + b);
        encoding_joins(a.drop_first(), b);
        let first = utf8::encode_scalar(a[0] as u32);
        assert(first + (utf8::encode_utf8(a.drop_first()) + utf8::encode_utf8(b)) =~= first
            + utf8::encode_utf8(a.drop_first()) + utf8::encode_utf8(b));
    }
}

/// Texts that are joined and encoded are encoded and joined.
pub proof fn percent_encoding_joins(a: Seq<char>, b: Seq<char>)
    ensures
        percent_text(utf8::encode_utf8(a + b)) == percent_text(utf8::encode_utf8(a))
            + percent_text(utf8::encode_utf8(b)),
{
    encoding_joins(a, b);
    percent_text_joins(utf8::encode_utf8(a), utf8::encode_utf8(b));
}

/// The value of a hexadecimal digit; zero for what is none.
pub open spec fn hex_or_zero(c: char) -> nat {
    match numbers::hex_value(c) {
        Some(v) => v,
        None => 0,
    }
}

/// The bytes that encoded text stands for: each `%XX` is the byte of that value,
/// and other characters stand for themselves.
pub open spec fn percent_bytes(s: Seq<char>) -> Seq<u8>
    decreases s.len(),
{
    if s.len() == 0 {
        seq![]
    } else if s[0] == '%' && s.len() >= 3 {
        seq![(hex_or_zero(s[1]) * 16 + hex_or_zero(s[2])) as u8] + percent_bytes(s.skip(3))
    } else {
        seq![s[0] as u8] + percent_bytes(s.skip(1))
    }
}

proof fn percent_byte_reads_back(b: u8, rest: Seq<char>)
    ensures
        percent_bytes(percent_byte(b) + rest) == seq![b] + percent_bytes(rest),
{
    let s = percent_byte(b) + rest;
    if unreserved(b) {
        assert(s.skip(1) =~= rest);
        assert(b as char != '%');
    } else {
        assert(s.skip(3) =~= rest);
        let hi = b as int / 16;
        let lo = b as int % 16;
        assert(numbers::hex_value(upper_hex(hi)) == Some(hi as nat));
        assert(numbers::hex_value(upper_hex(lo)) == Some(lo as nat));
    }
}

/// Encoded text stands for the bytes that were encoded.
pub proof fn percent_text_reads_back(bytes: Seq<u8>)
    ensures
        percent_bytes(percent_text(bytes)) == bytes,
    decreases bytes.len(),
{
    if bytes.len() > 0 {
        let first = seq![bytes[0]];
        let rest = bytes.skip(1);
        percent_text_reads_back(rest);
        assert(bytes =~= first + rest);
        percent_text_joins(first, rest);
        assert(first.drop_last() =~= seq![]);
        assert(percent_text(first.drop_last()) =~= seq![]);
        assert(percent_text(first) =~= percent_byte(bytes[0]));
        percent_byte_reads_back(bytes[0], percent_text(rest));
    }
}

/// What is hashed for a cache key, in order.
pub open spec fn hashed(kind: Seq<char>, source: Seq<char>) -> Seq<Seq<u8>> {
    seq![
        utf8::encode_utf8(kind),
        seq![0xffu8],
        utf8::encode_utf8(source),
        seq![0xffu8],
    ]
}

/// The cache key of a diagram: its kind, and two hashes of its source.
pub open spec fn key_text(kind: Seq<char>, source: Seq<char>) -> Seq<char> {
    let a = hashed(kind, source);
    let b = a.push(bytes::spec_u64_to_le_bytes(utf8::encode_utf8(source).len() as u64));
    kind + "-"@ + numbers::hex_text(DefaultHasher::spec_finish(a) as nat, 16) + numbers::hex_text(
        DefaultHasher::spec_finish(b) as nat,
        16,
    )
}

/// The name a diagram is cached under, by kind and source.
pub fn cache_key(kind: &str, source: &str) -> (r: String)
    ensures
        r@ == key_text(kind@, source@),
{
    let mut h = DefaultHasher::new();
    let end: [u8; 1] = [0xff];
    h.write(kind.as_bytes());
    h.write(&end);
    h.write(source.as_bytes());
    h.write(&end);
    assert(end@ =~= seq![0xffu8]);
    assert(h@ =~= hashed(kind@, source@));
    // Two independent hashes to make accidental collisions implausible.
    let a: u64 = h.finish();
    let len: usize = source.as_bytes().len();
    let len_bytes = u64_to_le_bytes(len as u64);
    h.write(len_bytes.as_slice());
    let b: u64 = h.finish();
    let mut out: String = kind.to_owned();
    out.push_str("-");
    let first = hex(a, 16);
    let second = hex(b, 16);
    out.push_str(first.as_str());
    out.push_str(second.as_str());
    out
}

proof fn hex_length(v: nat, n: nat)
    ensures
        numbers::hex_text(v, n).len() == n,
    decreases n,
{
    if n > 0 {
        hex_length(v / 16, (n - 1) as nat);
    }
}

proof fn key_shape(kind: Seq<char>, source: Seq<char>)
    ensures
        key_text(kind, source).len() == kind.len() + 33,
        key_text(kind, source).take(kind.len() as int) == kind,
{
    reveal_strlit("-");
    assert("-"@.len() == 1);
    let a = hashed(kind, source);
    let b = a.push(bytes::spec_u64_to_le_bytes(utf8::encode_utf8(source).len() as u64));
    hex_length(DefaultHasher::spec_finish(a) as nat, 16);
    hex_length(DefaultHasher::spec_finish(b) as nat, 16);
    assert(key_text(kind, source).take(kind.len() as int) =~= kind);
}

/// Diagrams of different kinds have different keys, whatever their sources.
pub proof fn keys_tell_kinds(k1: Seq<char>, s1: Seq<char>, k2: Seq<char>, s2: Seq<char>)
    requires
        k1 != k2,
    ensures
        key_text(k1, s1) != key_text(k2, s2),
{
    key_shape(k1, s1);
    key_shape(k2, s2);
}

/// Where the on-disk diagram cache is, given the user's cache directory.
pub fn cache_dir(base: Option<&str>) -> (r: Option<String>)
    ensures
        match base {
            Some(b) => r is Some && r->0@ == paths::joined(b@, "mdview"@),
            None => r is None,
        },
{
    match base {
        Some(b) => Some(paths::join(b, "mdview")),
        None => None,
    }
}

/// Where a diagram is cached, given the user's cache directory.
pub fn cache_path(base: Option<&str>, key: &str) -> (r: Option<String>)
    ensures
        match base {
            Some(b) => r is Some && r->0@ == paths::joined(
                paths::joined(b@, "mdview"@),
                key@ + ".png"@,
            ),
            None => r is None,
        },
{
    match cache_dir(base) {
        Some(dir) => {
            let mut name: String = key.to_owned();
            name.push_str(".png");
            Some(paths::join(dir.as_str(), name.as_str()))
        },
        None => None,
    }
}

/// The JSON text that `serde_json` writes for a string.
pub uninterp spec fn json_string(s: Seq<char>) -> Seq<char>;

/// Calls `serde_json::Value::to_string` on a string value. The text depends on
/// the string alone.
#[verifier::external_body]
fn quote(s: &str) -> (r: String)
    ensures
        r@ == json_string(s@),
{
    serde_json::Value::from(s).to_string()
}

/// The base64 text that the `URL_SAFE` engine makes of data.
pub uninterp spec fn base64_url(data: Seq<u8>) -> Seq<char>;

/// Calls `base64::Engine::encode` on the `URL_SAFE` engine. The text depends on
/// the data alone.
#[verifier::external_body]
fn encode_url(data: &[u8]) -> (r: String)
    ensures
        r@ == base64_url(data@),
{
    base64::Engine::encode(&base64::engine::general_purpose::URL_SAFE, data)
}

/// The JSON state that mermaid.ink renders, given its two strings as JSON.
pub open spec fn mermaid_state(code: Seq<char>, theme: Seq<char>) -> Seq<char> {
    "{\"code\":"@ + code + ",\"mermaid\":{\"theme\":"@ + theme + "}}"@
}

/// The JSON state that mermaid.ink renders, given its two strings as JSON.
pub fn mermaid_json(code: &str, theme: &str) -> (r: String)
    ensures
        r@ == mermaid_state(code@, theme@),
{
    let mut s: String = "{\"code\":".to_owned();
    s.push_str(code);
    s.push_str(",\"mermaid\":{\"theme\":");
    s.push_str(theme);
    s.push_str("}}");
    s
}

/// The image URL of a diagram whose state is given in base64.
pub open spec fn mermaid_url_text(b64: Seq<char>, dark: bool) -> Seq<char> {
    "https://mermaid.ink/img/base64:"@ + b64 + "?type=png&bgColor="@ + (if dark {
        "!2b303b"@
    } else {
        "!ffffff"@
    })
}

/// The image URL of a diagram whose state is given in base64.
pub fn mermaid_url(b64: &str, dark: bool) -> (r: String)
    ensures
        r@ == mermaid_url_text(b64@, dark),
{
    let mut url: String = "https://mermaid.ink/img/base64:".to_owned();
    url.push_str(b64);
    url.push_str("?type=png&bgColor=");
    // Backgrounds chosen to sit naturally on typical terminal themes.
    url.push_str(
        if dark {
            "!2b303b"
        } else {
            "!ffffff"
        },
    );
    url
}

/// The kind of a mermaid diagram.
pub open spec fn mermaid_kind(dark: bool) -> Seq<char> {
    if dark {
        "mermaid-dark"@
    } else {
        "mermaid-light"@
    }
}

/// The mermaid theme for a background.
pub open spec fn mermaid_theme(dark: bool) -> Seq<char> {
    if dark {
        "dark"@
    } else {
        "default"@
    }
}

/// What to fetch for a mermaid diagram.
pub open spec fn mermaid_request_view(source: Seq<char>, dark: bool) -> RequestView {
    RequestView {
        key: key_text(mermaid_kind(dark), source),
        url: mermaid_url_text(
            base64_url(
                utf8::encode_utf8(
                    mermaid_state(json_string(source), json_string(mermaid_theme(dark))),
                ),
            ),
            dark,
        ),
    }
}

/// What to fetch for a mermaid diagram.
pub fn mermaid_request(source: &str, dark: bool) -> (r: Request)
    ensures
        r@ == mermaid_request_view(source@, dark),
{
    let (theme, kind) = if dark {
        ("dark", "mermaid-dark")
    } else {
        ("default", "mermaid-light")
    };
    let code = quote(source);
    let theme_json = quote(theme);
    let state = mermaid_json(code.as_str(), theme_json.as_str());
    let b64 = encode_url(state.as_str().as_bytes());
    Request { key: cache_key(kind, source), url: mermaid_url(b64.as_str(), dark) }
}

/// The LaTeX that is rendered for a formula.
pub open spec fn latex_text(source: Seq<char>, dark: bool) -> Seq<char> {
    "\\dpi{200}\\bg{transparent}\\color{"@ + (if dark {
        "white"@
    } else {
        "black"@
    }) + "}"@ + strings::trimmed(source)
}

/// What to fetch for a LaTeX formula.
pub open spec fn latex_request_view(source: Seq<char>, dark: bool) -> RequestView {
    RequestView {
        key: key_text(
            if dark {
                "latex-dark"@
            } else {
                "latex-light"@
            },
            source,
        ),
        url: "https://latex.codecogs.com/png.image?"@ + percent_text(
            utf8::encode_utf8(latex_text(source, dark)),
        ),
    }
}

/// What to fetch for a LaTeX formula.
pub fn latex_request(source: &str, dark: bool) -> (r: Request)
    ensures
        r@ == latex_request_view(source@, dark),
{
    let (color, kind) = if dark {
        ("white", "latex-dark")
    } else {
        ("black", "latex-light")
    };
    let mut expr: String = "\\dpi{200}\\bg{transparent}\\color{".to_owned();
    expr.push_str(color);
    expr.push_str("}");
    let body = trim(source);
    expr.push_str(body.as_str());
    let mut url: String = "https://latex.codecogs.com/png.image?".to_owned();
    let encoded = percent_encode(expr.as_str());
    url.push_str(encoded.as_str());
    Request { key: cache_key(kind, source), url }
}

/// What a memo says of a request.
pub open spec fn answers(memo: Map<Seq<char>, Slot<Seq<u8>>>, req: RequestView, r: Lookup) -> bool {
    if !memo.dom().contains(req.key) {
        r matches Lookup::Unknown(q) && q@ == req
    } else {
        match memo[req.key] {
            Slot::Ready(bytes) => r matches Lookup::Ready(b) && b@ == bytes,
            _ => r is Unavailable,
        }
    }
}

/// Looks a diagram up; one that was never asked for is handed back to be looked
/// for on disk.
pub fn lookup(memo: &Diagrams, req: Request) -> (r: Lookup)
    ensures
        answers(memo@.slots, req@, r),
{
    match memo.get(&req.key) {
        Some(Slot::Ready(bytes)) => Lookup::Ready(bytes.clone()),
        Some(_) => Lookup::Unavailable,
        None => Lookup::Unknown(req),
    }
}

/// Non-blocking: the PNG when the memo has it, and otherwise whether it is worth
/// looking for — the caller renders its fallback now and re-renders when
/// [`take_dirty`] fires.
pub fn mermaid_png(memo: &Diagrams, source: &str, dark: bool) -> (r: Lookup)
    ensures
        answers(memo@.slots, mermaid_request_view(source@, dark), r),
{
    lookup(memo, mermaid_request(source, dark))
}

/// See [`mermaid_png`]; same non-blocking contract.
pub fn latex_png(memo: &Diagrams, source: &str, dark: bool) -> (r: Lookup)
    ensures
        answers(memo@.slots, latex_request_view(source@, dark), r),
{
    lookup(memo, latex_request(source, dark))
}

/// Files what the disk cache holds under a key, where it holds a PNG, and hands
/// it back; otherwise notes that the diagram is being fetched.
pub fn offer_cached(memo: &mut Diagrams, key: &str, cached: Option<Vec<u8>>) -> (r: Option<Vec<u8>>)
    ensures
        final(memo)@.dirty == old(memo)@.dirty,
        match cached {
            Some(b) => if png_like(b@) {
                r == Some(b) && final(memo)@.slots == old(memo)@.slots.insert(
                    key@,
                    Slot::Ready(b@),
                )
            } else {
                r is None && final(memo)@.slots == old(memo)@.slots.insert(key@, Slot::Pending)
            },
            None => r is None && final(memo)@.slots == old(memo)@.slots.insert(
                key@,
                Slot::Pending,
            ),
        },
{
    match cached {
        Some(bytes) => {
            if is_png(bytes.as_slice()) {
                memo.insert(key.to_owned(), Slot::Ready(bytes.clone()));
                return Some(bytes);
            }
        },
        None => {},
    }
    memo.insert(key.to_owned(), Slot::Pending);
    None
}

/// Whether the body of a reply is a diagram. Over the cap means the body was
/// truncated mid-stream; caching that would poison the disk cache with a
/// corrupt-but-magic-valid PNG.
pub fn accept_body(bytes: Vec<u8>) -> (r: Option<Vec<u8>>)
    ensures
        r == (if bytes@.len() <= MAX_PNG_BYTES && png_like(bytes@) {
            Some(bytes)
        } else {
            None
        }),
{
    if bytes.len() <= MAX_PNG_BYTES && is_png(bytes.as_slice()) {
        Some(bytes)
    } else {
        None
    }
}

/// Set when a background fetch finishes; the pager polls this to know a
/// re-render might now swap a code block for its diagram.
pub fn take_dirty(memo: &mut Diagrams) -> (r: bool)
    ensures
        r == old(memo)@.dirty,
        !final(memo)@.dirty,
        final(memo)@.slots == old(memo)@.slots,
{
    memo.take_dirty()
}

/// A diagram that was asked for is not asked for again, whatever became of it,
/// and one that is ready is handed out.
pub proof fn diagrams_are_asked_for_once(
    slots: Map<Seq<char>, Slot<Seq<u8>>>,
    req: RequestView,
    slot: Slot<Seq<u8>>,
    r: Lookup,
)
    requires
        answers(slots.insert(req.key, slot), req, r),
    ensures
        !(r is Unknown),
        slot matches Slot::Ready(bytes) ==> (r matches Lookup::Ready(b) && b@ == bytes),
        !(slot is Ready) ==> r is Unavailable,
{
}

/// A diagram that was never asked for is handed back to be looked for.
pub proof fn new_diagrams_are_looked_for(
    slots: Map<Seq<char>, Slot<Seq<u8>>>,
    req: RequestView,
    r: Lookup,
)
    requires
        answers(slots, req, r),
        !slots.dom().contains(req.key),
    ensures
        r matches Lookup::Unknown(q) && q@ == req,
{
}

} // verus!
