//! What a terminal tells about itself, and what it is told of images.

use vstd::prelude::*;
use vstd::utf8;
use crate::kitty;
use crate::numbers;
use crate::resolving;
use crate::strings;

verus! {

proof fn decimals_are_digits(n: nat)
    ensures
        numbers::decimal_text(n).len() > 0,
        forall|i: int|
            0 <= i < numbers::decimal_text(n).len() ==> '0' <= #[trigger] numbers::decimal_text(
                n,
            )[i] <= '9',
    decreases n,
{
    let s = numbers::decimal_text(n);
    if n >= 10 {
        decimals_are_digits(n / 10);
        let d = numbers::decimal_text(n / 10);
        assert forall|i: int| 0 <= i < s.len() implies '0' <= #[trigger] s[i] <= '9' by {
            if i < d.len() {
                assert(s[i] == d[i]);
            }
        }
    }
}

proof fn two_parts(a: Seq<char>, c: char, b: Seq<char>)
    requires
        resolving::without(a, c),
        resolving::without(b, c),
    ensures
        strings::split_from(a.push(c) + b, c, 0) == seq![a, b],
{
    let s = a.push(c) + b;
    let n = a.len() as int;
    assert forall|i: int| 0 <= i < n implies #[trigger] s[i] != c by {
        assert(s[i] == a[i]);
    }
    strings::first_is_there(s, c, 0, n);
    assert forall|i: int| n + 1 <= i < s.len() implies #[trigger] s[i] != c by {
        assert(s[i] == b[i - n - 1]);
    }
    strings::first_is_there(s, c, n + 1, s.len() as int);
    assert(s.subrange(0, n) =~= a);
    assert(s.skip(n + 1) =~= b);
    assert(strings::split_from(s, c, n + 1) == seq![b]);
    assert(seq![a] + seq![b] =~= seq![a, b]);
}

/// A cell size is read as it is told: the height first, then the width; one without
/// extent tells nothing.
pub proof fn cell_sizes_are_read(height: u16, width: u16)
    ensures
        kitty::cell_size(
            numbers::decimal_text(height as nat).push(';') + numbers::decimal_text(width as nat),
        ) == (if height > 0 && width > 0 {
            Some((width, height))
        } else {
            None
        }),
{
    let h = numbers::decimal_text(height as nat);
    let w = numbers::decimal_text(width as nat);
    decimals_are_digits(height as nat);
    decimals_are_digits(width as nat);
    assert(resolving::without(h, ';')) by {
        assert forall|i: int| 0 <= i < h.len() implies #[trigger] h[i] != ';' by {
            assert('0' <= h[i] <= '9');
        }
    }
    assert(resolving::without(w, ';')) by {
        assert forall|i: int| 0 <= i < w.len() implies #[trigger] w[i] != ';' by {
            assert('0' <= w[i] <= '9');
        }
    }
    two_parts(h, ';', w);
    numbers::decimal_reads_back(height as nat, 0xffff);
    numbers::decimal_reads_back(width as nat, 0xffff);
}

/// The hexadecimal digit of a number.
pub open spec fn hex_digit(d: int) -> char {
    if d < 10 {
        (48 + d) as u8 as char
    } else {
        (87 + d) as u8 as char
    }
}

proof fn hex_digits_read(d: int)
    requires
        0 <= d < 16,
    ensures
        numbers::digit_value(hex_digit(d), 16) == Some(d as nat),
        hex_digit(d) != '/',
{
}

proof fn two_digits_read(a: char, b: char, x: nat, y: nat)
    requires
        numbers::digit_value(a, 16) == Some(x),
        numbers::digit_value(b, 16) == Some(y),
        x < 16,
        y < 16,
    ensures
        kitty::channel(seq![a, b]) == Some((x * 16 + y) as u8),
{
    let s = seq![a, b];
    assert(s.drop_last() =~= seq![a]);
    assert(seq![a].drop_last() =~= Seq::<char>::empty());
    assert(numbers::value(Seq::<char>::empty(), 16) == 0);
    assert(numbers::value(seq![a], 16) == x);
    assert(numbers::value(s, 16) == x * 16 + y);
    let v = x * 16 + y;
    assert((v * 255 + 127) / 255 == v) by (nonlinear_arith)
        requires
            v < 256,
    ;
}

/// A color channel of two digits is read as it is; one of one digit stands for both
/// digits alike; and one of four digits that are one pair twice stands for that pair.
pub proof fn channels_are_read(v: u8)
    ensures
        ({
            let a = hex_digit(v as int / 16);
            let b = hex_digit(v as int % 16);
            &&& kitty::channel(seq![a, b]) == Some(v)
            &&& kitty::channel(seq![a, b, a, b]) == Some(v)
            &&& v < 16 ==> kitty::channel(seq![b]) == Some((v * 17) as u8)
        }),
{
    let x = (v as int / 16) as nat;
    let y = (v as int % 16) as nat;
    let a = hex_digit(v as int / 16);
    let b = hex_digit(v as int % 16);
    hex_digits_read(v as int / 16);
    hex_digits_read(v as int % 16);
    two_digits_read(a, b, x, y);
    let none = Seq::<char>::empty();
    let one = seq![a];
    let two = seq![a, b];
    let three = seq![a, b, a];
    let four = seq![a, b, a, b];
    assert(four.drop_last() =~= three);
    assert(three.drop_last() =~= two);
    assert(two.drop_last() =~= one);
    assert(one.drop_last() =~= none);
    assert(numbers::value(none, 16) == 0);
    assert(numbers::value(one, 16) == x);
    assert(numbers::value(two, 16) == v);
    assert(numbers::value(three, 16) == v * 16 + x);
    assert(numbers::value(four, 16) == (v * 16 + x) * 16 + y);
    assert(numbers::value(four, 16) == v * 257);
    assert(numbers::all_digits(four, 16));
    assert((v * 257 * 255 + 32767) / 65535 == v) by (nonlinear_arith)
        requires
            0 <= v < 256,
    ;
    if v < 16 {
        assert(seq![b].drop_last() =~= none);
        assert(numbers::value(seq![b], 16) == v);
        assert((v * 255 + 7) / 15 == v * 17) by (nonlinear_arith)
            requires
                0 <= v < 16,
        ;
    }
}

// Images.

/// The frame around a piece of image data.
pub open spec fn framed(head: Seq<char>, data: Seq<u8>) -> Seq<u8> {
    utf8::encode_utf8(head) + data + utf8::encode_utf8("\x1b\\"@)
}

/// What the first frame of an image says, and whether another follows.
pub open spec fn first_head(id: u32, more: bool) -> Seq<char> {
    "\x1b_Ga=t,i="@ + numbers::decimal_text(id as nat) + ",f=100,t=d,q=2,m="@ + (if more {
        seq!['1', ';']
    } else {
        seq!['0', ';']
    })
}

/// What the other frames of an image say, and whether another follows.
pub open spec fn next_head(more: bool) -> Seq<char> {
    "\x1b_Gm="@ + (if more {
        seq!['1', ';']
    } else {
        seq!['0', ';']
    })
}

/// The frames of image data from a byte on, all but the first.
pub open spec fn later_frames(data: Seq<u8>) -> Seq<u8>
    decreases data.len(),
{
    if data.len() == 0 {
        seq![]
    } else if data.len() <= 4096 {
        framed(next_head(false), data)
    } else {
        framed(next_head(true), data.take(4096)) + later_frames(data.skip(4096))
    }
}

/// The frames of image data.
pub open spec fn frames(id: u32, data: Seq<u8>) -> Seq<u8> {
    if data.len() == 0 {
        seq![]
    } else if data.len() <= 4096 {
        framed(first_head(id, false), data)
    } else {
        framed(first_head(id, true), data.take(4096)) + later_frames(data.skip(4096))
    }
}

proof fn sent_ends(id: u32, data: Seq<u8>, n: nat)
    requires
        0 < n <= kitty::chunk_count(data),
    ensures
        kitty::transmission(id, data) == kitty::chunks_sent(id, data, n) + later_frames(
            data.skip(
                if n * 4096 < data.len() {
                    n as int * 4096
                } else {
                    data.len() as int
                },
            ),
        ),
    decreases kitty::chunk_count(data) - n,
{
    let count = kitty::chunk_count(data);
    let len = data.len() as int;
    assert(count * 4096 >= len && (count - 1) * 4096 < len || len == 0) by {
        assert(count == (len + 4095) / 4096);
    }
    let sent = kitty::chunks_sent(id, data, n);
    if n == count {
        assert(data.skip(len).len() == 0);
        assert(later_frames(data.skip(len)) =~= seq![]);
        assert(sent + Seq::<u8>::empty() =~= sent);
        if n * 4096 < len {
            assert(false);
        }
    } else {
        sent_ends(id, data, (n + 1) as nat);
        assert(n * 4096 < len);
        let rest = data.skip(n as int * 4096);
        let more = n + 1 < count;
        reveal_strlit("1;");
        reveal_strlit("0;");
        assert("1;"@ =~= seq!['1', ';']);
        assert("0;"@ =~= seq!['0', ';']);
        assert(kitty::chunk_head(id, false, more) == next_head(more));
        let piece = kitty::chunk(data, n as int);
        let frame = framed(next_head(more), piece);
        assert(kitty::chunks_sent(id, data, (n + 1) as nat) =~= sent + frame);
        if more {
            assert(rest.len() > 4096);
            assert(piece =~= rest.take(4096));
            assert(data.skip((n + 1) as int * 4096) =~= rest.skip(4096));
            assert(sent + frame + later_frames(rest.skip(4096)) =~= sent + (frame + later_frames(
                rest.skip(4096),
            )));
        } else {
            assert(rest.len() <= 4096);
            assert(piece =~= rest);
            let end = if (n + 1) * 4096 < len {
                (n + 1) as int * 4096
            } else {
                len
            };
            assert(end == len);
            assert(data.skip(len).len() == 0);
            assert(later_frames(data.skip(len)) =~= seq![]);
            assert(sent + frame + Seq::<u8>::empty() =~= sent + frame);
        }
    }
}

/// An image is sent in frames of 4096 bytes, in order: the first names the image, and
/// every one but the last says that more follow.
pub proof fn images_are_framed(id: u32, data: Seq<u8>)
    ensures
        kitty::transmission(id, data) == frames(id, data),
{
    let count = kitty::chunk_count(data);
    let len = data.len() as int;
    assert(count == (len + 4095) / 4096);
    if len == 0 {
        assert(kitty::transmission(id, data) =~= seq![]);
    } else {
        sent_ends(id, data, 1);
        reveal_strlit("1;");
        reveal_strlit("0;");
        assert("1;"@ =~= seq!['1', ';']);
        assert("0;"@ =~= seq!['0', ';']);
        let more = 1 < count;
        assert(more == (len > 4096));
        let piece = kitty::chunk(data, 0);
        let none = Seq::<u8>::empty();
        assert(kitty::chunks_sent(id, data, 0) =~= none);
        assert(kitty::chunk_head(id, true, more) == first_head(id, more));
        assert(kitty::chunks_sent(id, data, 1) =~= framed(first_head(id, more), piece));
        if more {
            assert(piece =~= data.take(4096));
        } else {
            assert(piece =~= data);
            assert(data.skip(len).len() == 0);
            assert(later_frames(data.skip(len)) =~= none);
            let f = framed(first_head(id, false), data);
            assert(f + none =~= f);
        }
    }
}

proof fn split_three(a: Seq<char>, b: Seq<char>, d: Seq<char>, c: char)
    requires
        resolving::without(a, c),
        resolving::without(b, c),
        resolving::without(d, c),
    ensures
        strings::split_from(a.push(c) + (b.push(c) + d), c, 0) == seq![a, b, d],
{
    let s = a.push(c) + (b.push(c) + d);
    let n = a.len() as int;
    let m = n + 1 + b.len();
    assert forall|i: int| 0 <= i < n implies #[trigger] s[i] != c by {
        assert(s[i] == a[i]);
    }
    strings::first_is_there(s, c, 0, n);
    assert forall|i: int| n + 1 <= i < m implies #[trigger] s[i] != c by {
        assert(s[i] == b[i - n - 1]);
    }
    strings::first_is_there(s, c, n + 1, m);
    assert forall|i: int| m + 1 <= i < s.len() implies #[trigger] s[i] != c by {
        assert(s[i] == d[i - m - 1]);
    }
    strings::first_is_there(s, c, m + 1, s.len() as int);
    assert(s.subrange(0, n) =~= a);
    assert(s.subrange(n + 1, m) =~= b);
    assert(s.skip(m + 1) =~= d);
    assert(strings::split_from(s, c, m + 1) == seq![d]);
    assert(strings::split_from(s, c, n + 1) == seq![b] + seq![d]);
    assert(seq![a] + (seq![b] + seq![d]) =~= seq![a, b, d]);
}

/// A channel of a color in two hexadecimal digits.
pub open spec fn pair(v: u8) -> Seq<char> {
    seq![hex_digit(v as int / 16), hex_digit(v as int % 16)]
}

proof fn pairs_are_plain(v: u8)
    ensures
        resolving::without(pair(v), '/'),
        !strings::is_white(pair(v)[1]),
{
    hex_digits_read(v as int / 16);
    hex_digits_read(v as int % 16);
}

/// A background color is read as it is told: red, green and blue.
pub proof fn colors_are_read(r: u8, g: u8, b: u8)
    ensures
        kitty::x_color(
            seq!['r', 'g', 'b', ':'] + (pair(r).push('/') + (pair(g).push('/') + pair(b))),
        ) == Some((r, g, b)),
{
    let body = pair(r).push('/') + (pair(g).push('/') + pair(b));
    let s = seq!['r', 'g', 'b', ':'] + body;
    pairs_are_plain(r);
    pairs_are_plain(g);
    pairs_are_plain(b);
    assert(s.last() == pair(b)[1]);
    assert(s[0] == 'r');
    assert(strings::trimmed_end(s) == s);
    assert(strings::trimmed_start(s) == s);
    assert(strings::trimmed(s) == s);
    reveal_strlit("rgb:");
    assert("rgb:"@ =~= seq!['r', 'g', 'b', ':']);
    assert(s.subrange(0, 4) =~= "rgb:"@);
    assert(s.skip(4) =~= body);
    split_three(pair(r), pair(g), pair(b), '/');
    channels_are_read(r);
    channels_are_read(g);
    channels_are_read(b);
}

proof fn found_there(s: Seq<u8>, part: Seq<u8>, from: int, at: int)
    requires
        0 <= from <= at,
        at + part.len() <= s.len(),
        s.subrange(at, at + part.len()) == part,
        forall|i: int|
            from <= i < at ==> #[trigger] s.subrange(i, i + part.len()) != part,
    ensures
        kitty::find_from(s, part, from) == Some(at),
    decreases at - from,
{
    if from < at {
        assert(s.subrange(from, from + part.len()) != part);
        found_there(s, part, from + 1, at);
    }
}

proof fn reply_ends_there(s: Seq<u8>, i: int, end: int)
    requires
        0 <= i <= end < s.len(),
        s[end] == 0x07 || s[end] == 0x1b,
        forall|j: int| i <= j < end ==> #[trigger] s[j] != 0x07 && s[j] != 0x1b,
    ensures
        kitty::reply_end(s, i) == end,
    decreases end - i,
{
    if i < end {
        reply_ends_there(s, i + 1, end);
    }
}

/// Whether some bytes are the first in a buffer of their kind, behind others.
pub open spec fn comes_first(buf: Seq<u8>, part: Seq<u8>, at: int) -> bool {
    forall|i: int| 0 <= i < at ==> #[trigger] buf.subrange(i, i + part.len()) != part
}

/// The background color is taken from the first reply that tells one, whatever was
/// typed around it, up to the bell or the escape that ends it.
pub proof fn color_replies_are_found(before: Seq<u8>, body: Seq<u8>, end: u8, after: Seq<u8>)
    requires
        end == 0x07 || end == 0x1b,
        forall|i: int| 0 <= i < body.len() ==> #[trigger] body[i] != 0x07 && body[i] != 0x1b,
        ({
            let start = seq![0x1bu8, 0x5du8, 0x31u8, 0x31u8, 0x3bu8];
            comes_first(before + start + body.push(end) + after, start, before.len() as int)
        }),
    ensures
        ({
            let start = seq![0x1bu8, 0x5du8, 0x31u8, 0x31u8, 0x3bu8];
            kitty::color_reply(before + start + body.push(end) + after) == Some(
                kitty::x_color(strings::bytes_text(body)),
            )
        }),
{
    let start = seq![0x1bu8, 0x5du8, 0x31u8, 0x31u8, 0x3bu8];
    let buf = before + start + body.push(end) + after;
    let n = before.len() as int;
    assert(buf.subrange(n, n + 5) =~= start);
    found_there(buf, start, 0, n);
    let tail = buf.skip(n + 5);
    assert(tail =~= body.push(end) + after);
    assert forall|j: int| 0 <= j < body.len() implies #[trigger] tail[j] != 0x07 && tail[j]
        != 0x1b by {
        assert(tail[j] == body[j]);
    }
    reply_ends_there(tail, 0, body.len() as int);
    assert(tail.take(body.len() as int) =~= body);
}

/// Graphics are supported where the first reply to the question says so: an `OK` before
/// its terminator, whatever follows.
pub proof fn graphics_replies_are_found(before: Seq<u8>, body: Seq<u8>, after: Seq<u8>)
    requires
        forall|i: int| 0 <= i < body.len() ==> #[trigger] body[i] != 0x1b,
        ({
            let start = seq![0x1bu8, 0x5fu8, 0x47u8];
            let stop = seq![0x1bu8, 0x5cu8];
            comes_first(before + start + body + stop + after, start, before.len() as int)
        }),
    ensures
        ({
            let start = seq![0x1bu8, 0x5fu8, 0x47u8];
            let stop = seq![0x1bu8, 0x5cu8];
            kitty::graphics_reply(before + start + body + stop + after) == Some(
                kitty::found(start + body, seq![0x4fu8, 0x4bu8]) is Some,
            )
        }),
{
    let start = seq![0x1bu8, 0x5fu8, 0x47u8];
    let stop = seq![0x1bu8, 0x5cu8];
    let buf = before + start + body + stop + after;
    let n = before.len() as int;
    assert(buf.subrange(n, n + 3) =~= start);
    found_there(buf, start, 0, n);
    let tail = buf.skip(n);
    assert(tail =~= start + body + stop + after);
    let m = 3 + body.len() as int;
    assert(tail.subrange(m, m + 2) =~= stop);
    assert forall|i: int| 0 <= i < m implies #[trigger] tail.subrange(i, i + 2) != stop by {
        let w = tail.subrange(i, i + 2);
        assert(w[0] == tail[i]);
        assert(w[1] == tail[i + 1]);
        if i >= 3 {
            assert(tail[i] == body[i - 3]);
        }
    }
    found_there(tail, stop, 0, m);
    assert(tail.take(m) =~= start + body);
}

} // verus!
