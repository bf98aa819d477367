//! The order of names: by their lowercase forms, and by themselves where those
//! are the same.

use vstd::prelude::*;
use crate::strings;
use crate::strings::{comes_before, to_chars};

verus! {

/// What `str::to_lowercase` makes of a text.
pub uninterp spec fn lower_text(s: Seq<char>) -> Seq<char>;

/// Calls `str::to_lowercase`. The result depends on the text alone; of an ASCII
/// text, it is the text with its letters in lowercase.
#[verifier::external_body]
pub(crate) fn lowercase_text(s: &str) -> (r: String)
    ensures
        r@ == lower_text(s@),
        (forall|i: int| 0 <= i < s@.len() ==> (#[trigger] s@[i] as u32) < 0x80) ==> r@
            == strings::lowered(s@),
{
    s.to_lowercase()
}

/// A name together with its lowercase form.
pub type Keyed = (Seq<char>, Seq<char>);

/// Whether one name comes before another, given with their lowercase forms.
pub open spec fn key_first(a: Keyed, b: Keyed) -> bool {
    ||| strings::precedes(a.1, b.1)
    ||| a.1 == b.1 && strings::precedes(a.0, b.0)
}

/// Whether name `a` comes before name `b`.
pub open spec fn comes_first(a: Seq<char>, b: Seq<char>) -> bool {
    key_first((a, lower_text(a)), (b, lower_text(b)))
}

/// Of two different names exactly one comes before the other.
pub proof fn names_are_told_apart(a: Keyed, b: Keyed)
    ensures
        a == b || key_first(a, b) || key_first(b, a),
        !(key_first(a, b) && key_first(b, a)),
        !key_first(a, a),
{
    strings::order_is_total(a.1, b.1);
    strings::order_is_total(a.0, b.0);
    strings::order_is_total(a.1, a.1);
    strings::order_is_total(a.0, a.0);
}

/// What comes before something comes before all that follows it.
pub proof fn names_are_chained(a: Keyed, b: Keyed, c: Keyed)
    requires
        key_first(a, b),
        key_first(b, c),
    ensures
        key_first(a, c),
{
    if strings::precedes(a.1, b.1) {
        if strings::precedes(b.1, c.1) {
            strings::order_is_transitive(a.1, b.1, c.1);
        }
    } else if strings::precedes(b.1, c.1) {
    } else {
        strings::order_is_transitive(a.0, b.0, c.0);
    }
}

/// Where name `k` goes among the names listed in `order`, at or after `from`:
/// in front of the first that it comes before.
pub open spec fn place(keys: Seq<Keyed>, order: Seq<int>, k: int, from: int) -> int
    decreases order.len() - from,
{
    if from >= order.len() || key_first(keys[k], keys[order[from]]) {
        from
    } else {
        place(keys, order, k, from + 1)
    }
}

/// The first `n` names in order, by their places among all.
pub open spec fn order_upto(keys: Seq<Keyed>, n: nat) -> Seq<int>
    decreases n,
{
    if n == 0 {
        seq![]
    } else {
        let o = order_upto(keys, (n - 1) as nat);
        o.insert(place(keys, o, n - 1, 0), n - 1)
    }
}

/// Names with their lowercase forms.
pub open spec fn keyed(names: Seq<Seq<char>>) -> Seq<Keyed> {
    names.map_values(|n: Seq<char>| (n, lower_text(n)))
}

/// All names in order, by their places among all. Of names that are the same,
/// the one that stood first comes first.
pub open spec fn order_of(names: Seq<Seq<char>>) -> Seq<int> {
    order_upto(keyed(names), names.len())
}

proof fn place_bounds(keys: Seq<Keyed>, order: Seq<int>, k: int, from: int)
    requires
        0 <= from <= order.len(),
    ensures
        from <= place(keys, order, k, from) <= order.len(),
        forall|j: int|
            from <= j < place(keys, order, k, from) ==> !key_first(
                keys[k],
                keys[#[trigger] order[j]],
            ),
        place(keys, order, k, from) < order.len() ==> key_first(
            keys[k],
            keys[order[place(keys, order, k, from)]],
        ),
    decreases order.len() - from,
{
    if from < order.len() && !key_first(keys[k], keys[order[from]]) {
        place_bounds(keys, order, k, from + 1);
    }
}

/// Whether no name that is listed comes before one that is listed earlier.
pub open spec fn in_order(keys: Seq<Keyed>, order: Seq<int>) -> bool {
    forall|i: int, j: int|
        0 <= i < j < order.len() ==> !key_first(
            keys[#[trigger] order[j]],
            keys[#[trigger] order[i]],
        )
}

/// Whether `order` lists each of the first `n` places once.
pub open spec fn lists_all(order: Seq<int>, n: nat) -> bool {
    order.len() == n && order.no_duplicates() && forall|i: int|
        0 <= i < order.len() ==> 0 <= #[trigger] order[i] < n
}

/// Ordering lists every name once, and none before one that comes before it.
pub proof fn ordering_sorts(keys: Seq<Keyed>, n: nat)
    requires
        n <= keys.len(),
    ensures
        in_order(keys, order_upto(keys, n)),
        lists_all(order_upto(keys, n), n),
    decreases n,
{
    if n > 0 {
        let o = order_upto(keys, (n - 1) as nat);
        let k = n - 1;
        ordering_sorts(keys, (n - 1) as nat);
        place_bounds(keys, o, k, 0);
        let p = place(keys, o, k, 0);
        let r = o.insert(p, k);
        assert forall|i: int| 0 <= i < r.len() implies r[i] == (if i < p {
            o[i]
        } else if i == p {
            k
        } else {
            o[i - 1]
        }) by {}
        assert forall|i: int, j: int| 0 <= i < j < r.len() implies !key_first(
            keys[#[trigger] r[j]],
            keys[#[trigger] r[i]],
        ) by {
            if i == p {
                // What follows the new name does not come before it.
                names_are_told_apart(keys[k], keys[o[j - 1]]);
                names_are_told_apart(keys[k], keys[o[p]]);
                if key_first(keys[o[j - 1]], keys[k]) {
                    names_are_chained(keys[o[j - 1]], keys[k], keys[o[p]]);
                    if p < j - 1 {
                        assert(!key_first(keys[o[j - 1]], keys[o[p]]));
                    }
                }
            } else if j == p {
                assert(!key_first(keys[k], keys[o[i]]));
            }
        }
        assert forall|i: int, j: int| 0 <= i < j < r.len() implies r[i] != r[j] by {
            if i == p {
                assert(0 <= o[j - 1] < k);
            } else if j == p {
                assert(0 <= o[i] < k);
            }
        }
    }
}

/// Places as numbers of the language.
pub open spec fn places(v: Seq<usize>) -> Seq<int> {
    v.map_values(|i: usize| i as int)
}

pub(crate) fn first_of(a: &Vec<char>, la: &Vec<char>, b: &Vec<char>, lb: &Vec<char>) -> (r: bool)
    ensures
        r == key_first((a@, la@), (b@, lb@)),
{
    proof {
        strings::order_is_total(la@, lb@);
    }
    if comes_before(la, lb) {
        true
    } else if comes_before(lb, la) {
        false
    } else {
        comes_before(a, b)
    }
}

/// Names with forms that they are ordered by.
pub open spec fn pairs(names: Seq<Vec<char>>, forms: Seq<Vec<char>>) -> Seq<Keyed> {
    Seq::new(names.len(), |i: int| (names[i]@, forms[i]@))
}

/// Names in the order of forms that are given with them, and in their own order
/// where those are the same, by their places among all.
pub fn order_by(names: &Vec<Vec<char>>, forms: &Vec<Vec<char>>) -> (r: Vec<usize>)
    requires
        names@.len() == forms@.len(),
    ensures
        places(r@) == order_upto(pairs(names@, forms@), names@.len()),
        lists_all(places(r@), names@.len()),
{
    let ghost keys = pairs(names@, forms@);
    let n: usize = names.len();
    let mut out: Vec<usize> = Vec::new();
    let mut k: usize = 0;
    assert(places(out@) =~= seq![]);
    while k < n
        invariant
            k <= n,
            n == names@.len(),
            n == forms@.len(),
            keys == pairs(names@, forms@),
            places(out@) == order_upto(keys, k as nat),
            lists_all(places(out@), k as nat),
        decreases n - k,
    {
        let ghost o = places(out@);
        let mut p: usize = 0;
        assert forall|j: int| 0 <= j < out@.len() implies (#[trigger] out@[j]) < n by {
            assert(0 <= o[j] < k);
        }
        while p < out.len() && !first_of(&names[k], &forms[k], &names[out[p]], &forms[out[p]])
            invariant
                p <= out@.len(),
                k < n,
                n == names@.len(),
                n == forms@.len(),
                keys == pairs(names@, forms@),
                o == places(out@),
                forall|j: int| 0 <= j < out@.len() ==> (#[trigger] out@[j]) < n,
                place(keys, o, k as int, 0) == place(keys, o, k as int, p as int),
            decreases out@.len() - p,
        {
            assert(o[p as int] == out@[p as int]);
            p = p + 1;
        }
        assert(p < out@.len() ==> o[p as int] == out@[p as int]);
        out.insert(p, k);
        assert(places(out@) =~= o.insert(p as int, k as int));
        proof {
            ordering_sorts(keys, (k + 1) as nat);
        }
        k = k + 1;
    }
    out
}

/// All names in order, by their places among all.
pub fn ordered(names: &Vec<String>) -> (r: Vec<usize>)
    ensures
        places(r@) == order_of(strings::views(names@)),
        lists_all(places(r@), names@.len()),
{
    broadcast use strings::group_views;

    let ghost ns = strings::views(names@);
    let n: usize = names.len();
    let mut plain: Vec<Vec<char>> = Vec::new();
    let mut lower: Vec<Vec<char>> = Vec::new();
    let mut i: usize = 0;
    while i < n
        invariant
            i <= n,
            n == names@.len(),
            ns == strings::views(names@),
            plain@.len() == i,
            lower@.len() == i,
            forall|k: int| 0 <= k < i ==> (#[trigger] plain@[k])@ == ns[k],
            forall|k: int| 0 <= k < i ==> (#[trigger] lower@[k])@ == lower_text(ns[k]),
        decreases n - i,
    {
        assert(ns[i as int] == names@[i as int]@);
        plain.push(to_chars(names[i].as_str()));
        let l = lowercase_text(names[i].as_str());
        lower.push(to_chars(l.as_str()));
        i = i + 1;
    }
    assert(pairs(plain@, lower@) =~= keyed(ns));
    order_by(&plain, &lower)
}

} // verus!
