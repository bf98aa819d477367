//! What is asked for in place of a diagram or a formula.

use vstd::prelude::*;
use vstd::utf8;
use crate::diagram;
use crate::strings;

verus! {

proof fn start_is_white(s: Seq<char>)
    ensures
        ({
            let t = strings::trimmed_start(s);
            let n = s.len() - t.len();
            &&& 0 <= n <= s.len()
            &&& t == s.skip(n)
            &&& forall|i: int| 0 <= i < n ==> strings::is_white(#[trigger] s[i])
            &&& t.len() > 0 ==> !strings::is_white(t[0])
        }),
    decreases s.len(),
{
    if s.len() > 0 && strings::is_white(s[0]) {
        let d = s.skip(1);
        start_is_white(d);
        let t = strings::trimmed_start(s);
        let n = s.len() - t.len();
        assert(t =~= s.skip(n));
        assert forall|i: int| 0 <= i < n implies strings::is_white(#[trigger] s[i]) by {
            if i > 0 {
                assert(s[i] == d[i - 1]);
            }
        }
    } else {
        assert(s.skip(0) =~= s);
    }
}

proof fn end_is_white(s: Seq<char>)
    ensures
        ({
            let t = strings::trimmed_end(s);
            let n = t.len() as int;
            &&& n <= s.len()
            &&& t == s.take(n)
            &&& forall|i: int| n <= i < s.len() ==> strings::is_white(#[trigger] s[i])
            &&& n > 0 ==> !strings::is_white(t[n - 1])
        }),
    decreases s.len(),
{
    if s.len() > 0 && strings::is_white(s.last()) {
        let d = s.drop_last();
        end_is_white(d);
        let t = strings::trimmed_end(s);
        let n = t.len() as int;
        assert(t =~= s.take(n));
        assert forall|i: int| n <= i < s.len() implies strings::is_white(#[trigger] s[i]) by {
            if i < d.len() {
                assert(s[i] == d[i]);
            }
        }
    } else {
        assert(s.take(s.len() as int) =~= s);
    }
}

/// Whether a text is what is left of another without the whitespace around it.
pub open spec fn is_core(t: Seq<char>, s: Seq<char>) -> bool {
    exists|a: int, b: int|
        #![trigger s.subrange(a, b)]
        0 <= a <= b <= s.len() && t == s.subrange(a, b) && (forall|i: int|
            0 <= i < a || b <= i < s.len() ==> strings::is_white(#[trigger] s[i])) && (t.len() > 0
            ==> !strings::is_white(t[0]) && !strings::is_white(t[t.len() - 1]))
}

/// Trimming takes away the whitespace around a text and nothing else.
pub proof fn trimming_leaves_the_core(s: Seq<char>)
    ensures
        is_core(strings::trimmed(s), s),
{
    start_is_white(s);
    end_is_white(s);
    let u = strings::trimmed_end(s);
    let v = strings::trimmed_start(s);
    end_is_white(v);
    let t = strings::trimmed(s);
    let n = s.len() - v.len();
    let m = u.len() as int;
    if n <= m {
        trimmed_is(s, n, m);
        assert(t =~= s.subrange(n, m));
    } else {
        trimmed_is(s, n, m);
        assert(t =~= s.subrange(m, m));
        assert forall|i: int| 0 <= i < m || m <= i < s.len() implies strings::is_white(
            #[trigger] s[i],
        ) by {}
    }
}

proof fn trimmed_is(s: Seq<char>, n: int, m: int)
    requires
        0 <= n <= s.len(),
        0 <= m <= s.len(),
        n == s.len() - strings::trimmed_start(s).len(),
        m == strings::trimmed_end(s).len(),
    ensures
        strings::trimmed(s) == (if n <= m {
            s.subrange(n, m)
        } else {
            Seq::<char>::empty()
        }),
{
    start_is_white(s);
    end_is_white(s);
    let u = strings::trimmed_end(s);
    let v = strings::trimmed_start(s);
    end_is_white(v);
    let b = strings::trimmed_end(v);
    let j = b.len() as int;
    if n < m {
        assert(!strings::is_white(s[m - 1])) by {
            assert(u[m - 1] == s[m - 1]);
        }
        if n + j < m {
            assert(v[m - 1 - n] == s[m - 1]);
        }
        if n + j > m {
            assert(b[j - 1] == v[j - 1]);
            assert(v[j - 1] == s[n + j - 1]);
        }
        assert(b =~= s.subrange(n, m));
    } else {
        if j > 0 {
            assert(b[j - 1] == v[j - 1]);
            assert(v[j - 1] == s[n + j - 1]);
        }
        assert(b =~= Seq::<char>::empty());
        if n == m {
            assert(b =~= s.subrange(n, m));
        }
    }
}

/// A formula is asked for whole, without the whitespace around it, in white on a dark
/// background and in black on a light one: that is what the query of the request
/// stands for.
pub proof fn formulas_are_asked_for_whole(source: Seq<char>, dark: bool)
    ensures
        ({
            let url = diagram::latex_request_view(source, dark).url;
            let site = "https://latex.codecogs.com/png.image?"@;
            exists|core: Seq<char>, query: Seq<char>|
                #![trigger is_core(core, source), site + query]
                is_core(core, source) && url == site + query && diagram::percent_bytes(query)
                    == utf8::encode_utf8(
                    "\\dpi{200}\\bg{transparent}\\color{"@ + (if dark {
                        seq!['w', 'h', 'i', 't', 'e']
                    } else {
                        seq!['b', 'l', 'a', 'c', 'k']
                    }) + seq!['}'] + core,
                )
        }),
{
    let site = "https://latex.codecogs.com/png.image?"@;
    trimming_leaves_the_core(source);
    reveal_strlit("white");
    reveal_strlit("black");
    reveal_strlit("}");
    assert("white"@ =~= seq!['w', 'h', 'i', 't', 'e']);
    assert("black"@ =~= seq!['b', 'l', 'a', 'c', 'k']);
    assert("}"@ =~= seq!['}']);
    let core = strings::trimmed(source);
    let bytes = utf8::encode_utf8(diagram::latex_text(source, dark));
    let query = diagram::percent_text(bytes);
    diagram::percent_text_reads_back(bytes);
    assert(is_core(core, source));
    assert(diagram::latex_request_view(source, dark).url == site + query);
}

/// A diagram is asked for with all of its source and the theme that suits the
/// background, on a background of that kind.
pub proof fn diagrams_are_asked_for_whole(source: Seq<char>, dark: bool)
    ensures
        ({
            let theme = if dark {
                seq!['d', 'a', 'r', 'k']
            } else {
                seq!['d', 'e', 'f', 'a', 'u', 'l', 't']
            };
            let state = "{\"code\":"@ + diagram::json_string(source)
                + ",\"mermaid\":{\"theme\":"@ + diagram::json_string(theme) + seq!['}', '}'];
            diagram::mermaid_request_view(source, dark).url == "https://mermaid.ink/img/base64:"@
                + diagram::base64_url(utf8::encode_utf8(state)) + "?type=png&bgColor="@ + (
            if dark {
                seq!['!', '2', 'b', '3', '0', '3', 'b']
            } else {
                seq!['!', 'f', 'f', 'f', 'f', 'f', 'f']
            })
        }),
{
    reveal_strlit("dark");
    reveal_strlit("default");
    reveal_strlit("}}");
    reveal_strlit("!2b303b");
    reveal_strlit("!ffffff");
    assert("dark"@ =~= seq!['d', 'a', 'r', 'k']);
    assert("default"@ =~= seq!['d', 'e', 'f', 'a', 'u', 'l', 't']);
    assert("}}"@ =~= seq!['}', '}']);
    assert("!2b303b"@ =~= seq!['!', '2', 'b', '3', '0', '3', 'b']);
    assert("!ffffff"@ =~= seq!['!', 'f', 'f', 'f', 'f', 'f', 'f']);
}

} // verus!
