//! What holds of the pager, whatever is typed.

use vstd::prelude::*;
use vstd::utf8;
use crate::kitty;
use crate::pager_view;
use crate::pager_view::{ActionView, Key, ModeView, PagerView, Step, ThenView};
use crate::search;
use crate::state::{DocumentView, ImageView};
use crate::strings;

verus! {

/// Whether the top line is one that the document scrolls to.
pub open spec fn in_view(p: PagerView) -> bool {
    p.top <= p.max_top()
}

/// Whether `q` shows the document that `p` shows, on the same terminal.
spec fn same_screen(p: PagerView, q: PagerView) -> bool {
    p.doc == q.doc && p.h == q.h
}

proof fn letters_stay_in_view(p: PagerView, c: char, ctrl: bool)
    requires
        in_view(p),
    ensures
        in_view(p.letter(c, ctrl).0),
        same_screen(p, p.letter(c, ctrl).0),
{
}

proof fn links_stay_in_view(p: PagerView, url: Seq<char>)
    requires
        in_view(p),
    ensures
        in_view(p.follow_link(url).0),
        same_screen(p, p.follow_link(url).0),
{
}

proof fn normal_keys_stay_in_view(p: PagerView, key: Key)
    requires
        in_view(p),
    ensures
        in_view(p.key_normal(key).0),
        same_screen(p, p.key_normal(key).0),
{
    match key.code {
        pager_view::KeyCode::Char(c) => {
            letters_stay_in_view(p, c, key.ctrl);
        },
        _ => {
            letters_stay_in_view(p, 'j', false);
            letters_stay_in_view(p, 'k', false);
            letters_stay_in_view(p, 'f', false);
            letters_stay_in_view(p, 'b', false);
            letters_stay_in_view(p, 'g', false);
            letters_stay_in_view(p, 'G', false);
            letters_stay_in_view(p, 'h', false);
        },
    }
}

/// No key scrolls out of the document.
pub proof fn keys_stay_in_view(p: PagerView, key: Key)
    requires
        in_view(p),
    ensures
        in_view(p.key(key).0),
{
    let q = PagerView { message: None, ..p };
    match p.mode {
        ModeView::Normal => {
            normal_keys_stay_in_view(q, key);
        },
        ModeView::Follow { targets } => {
            let r = q.set_mode(ModeView::Normal);
            if let pager_view::KeyCode::Char(c) = key.code {
                if let Some(url) = pager_view::target_at(targets, c, 0) {
                    links_stay_in_view(r, url);
                }
            }
        },
        _ => {},
    }
}

/// Whatever is shown is shown within the document.
pub proof fn shown_documents_are_in_view(
    p: PagerView,
    doc: DocumentView,
    then_: ThenView,
    guess: nat,
)
    ensures
        in_view(p.show(doc, then_, guess)),
{
}

/// Going back after following a link restores the document, and asks for it at
/// the line it stood at.
pub proof fn going_back_returns(
    p: PagerView,
    source: Seq<char>,
    title: Seq<char>,
    base: Option<Seq<char>>,
    fragment: Option<Seq<char>>,
)
    ensures
        ({
            let (there, _) = p.navigate_to(source, title, base, fragment);
            let (back, action) = there.go_back();
            back == p && action == ActionView::Render(ThenView::At(p.top))
        }),
{
    let (there, _) = p.navigate_to(source, title, base, fragment);
    assert(there.back_stack.drop_last() =~= p.back_stack);
    let (back, action) = there.go_back();
    assert(back =~= p);
}

/// A document that is rendered as before and was in view is shown where it
/// stood.
pub proof fn returning_finds_the_line(p: PagerView)
    requires
        in_view(p),
    ensures
        p.show(p.doc, ThenView::At(p.top), 0).top == p.top,
{
}

/// Whether a search is at one of its matches.
pub open spec fn at_a_match(p: PagerView) -> bool {
    p.search matches Some(s) ==> 0 <= s.cur < s.matches.len()
}

/// The next match and the previous one undo each other.
pub proof fn next_and_previous_undo_each_other(p: PagerView)
    requires
        at_a_match(p),
    ensures
        p.next_match(true).next_match(false).search == p.search,
        p.next_match(false).next_match(true).search == p.search,
{
}

/// Going on to a match, in either direction, stays within the matches.
pub proof fn matches_are_kept(p: PagerView, forward: bool)
    requires
        at_a_match(p),
    ensures
        at_a_match(p.next_match(forward)),
        p.search is Some ==> p.next_match(forward).search is Some
            && p.next_match(forward).search->0.matches == p.search->0.matches,
{
}

/// As many steps forward as there are matches lead through all of them and back
/// to the first.
pub proof fn matches_go_round(p: PagerView, n: nat)
    requires
        at_a_match(p),
        p.search is Some,
    ensures
        stepped(p, n).search is Some,
        stepped(p, n).search->0.matches == p.search->0.matches,
        stepped(p, n).search->0.cur == (p.search->0.cur + n) % (p.search->0.matches.len() as int),
    decreases n,
{
    let len = p.search->0.matches.len() as int;
    let cur = p.search->0.cur;
    if n == 0 {
        vstd::arithmetic::div_mod::lemma_small_mod(cur as nat, len as nat);
    } else {
        matches_go_round(p, (n - 1) as nat);
        let q = stepped(p, (n - 1) as nat);
        let c = (cur + n - 1) % len;
        vstd::arithmetic::div_mod::lemma_mod_bound(cur + n - 1, len);
        vstd::arithmetic::div_mod::lemma_add_mod_noop_right(1, cur + n - 1, len);
        if c == len - 1 {
            vstd::arithmetic::div_mod::lemma_mod_self_0(len);
        } else {
            vstd::arithmetic::div_mod::lemma_small_mod((c + 1) as nat, len as nat);
        }
        assert((cur + n) % len == (1 + c) % len);
    }
}

/// `n` steps to the next match.
pub open spec fn stepped(p: PagerView, n: nat) -> PagerView
    decreases n,
{
    if n == 0 {
        p
    } else {
        stepped(p, (n - 1) as nat).next_match(true)
    }
}

/// Toggling diagrams twice leaves them as they were.
pub proof fn toggling_twice_changes_nothing(p: PagerView)
    ensures
        p.toggle_diagrams().0.toggle_diagrams().0.diagrams == p.diagrams,
        p.toggle_diagrams().0.render_opts().diagrams != p.render_opts().diagrams,
{
}

/// Every command uses up the count.
pub proof fn commands_use_up_the_count(p: PagerView, key: Key)
    requires
        p.mode is Normal,
        !(key.code matches pager_view::KeyCode::Char(c) && strings::is_digit(c) && !key.ctrl),
    ensures
        p.key(key).0.count.len() == 0,
{
}

/// The placements of the first `n` images, without any transmission.
pub open spec fn placements(images: Seq<ImageView>, n: nat) -> Seq<u8>
    decreases n,
{
    if n == 0 {
        seq![]
    } else {
        let i = images[n - 1];
        placements(images, (n - 1) as nat) + utf8::encode_utf8(
            kitty::placement(i.id, i.cols, i.rows),
        )
    }
}

proof fn syncing_makes_known(images: Seq<ImageView>, known: Set<u32>, n: nat)
    requires
        n <= images.len(),
    ensures
        known.subset_of(pager_view::synced(images, known, n).1),
        forall|i: int|
            0 <= i < n ==> pager_view::synced(images, known, n).1.contains(
                (#[trigger] images[i]).id,
            ),
    decreases n,
{
    if n > 0 {
        syncing_makes_known(images, known, (n - 1) as nat);
    }
}

proof fn known_images_are_only_placed(images: Seq<ImageView>, known: Set<u32>, n: nat)
    requires
        n <= images.len(),
        forall|i: int| 0 <= i < images.len() ==> known.contains((#[trigger] images[i]).id),
    ensures
        pager_view::synced(images, known, n).0 == placements(images, n),
        pager_view::synced(images, known, n).1 == known,
    decreases n,
{
    if n > 0 {
        known_images_are_only_placed(images, known, (n - 1) as nat);
        let i = images[n - 1];
        let before = placements(images, (n - 1) as nat);
        assert(known.insert(i.id) =~= known);
        assert(before + Seq::<u8>::empty() =~= before);
    } else {
        assert(pager_view::synced(images, known, n).0 =~= placements(images, n));
    }
}

/// Images are transmitted once: when the terminal is brought up to date again,
/// they are only placed.
pub proof fn images_are_sent_once(p: PagerView)
    ensures
        ({
            let (q, _) = p.sync_images();
            q.sync_images().1 == placements(p.doc.images, p.doc.images.len()) && q.sync_images().0
                == q
        }),
{
    let images = p.doc.images;
    let (q, _) = p.sync_images();
    syncing_makes_known(images, p.transmitted, images.len());
    known_images_are_only_placed(images, q.transmitted, images.len());
    assert(q.sync_images().0 =~= q);
}

/// A turn sends the images once: what it does after that is to leave where the user
/// asked to, or else to draw where something changed. Nothing is drawn for a user
/// who asked to leave, nor before the images are sent.
pub proof fn turns_end(p: PagerView, changed: bool)
    ensures
        p.sync_images().0.step(changed) == (if p.quit {
            Step::Leave
        } else if changed {
            Step::Draw
        } else {
            Step::Wait
        }),
        p.step(changed) == Step::Draw ==> !p.quit && !p.images_stale,
        p.step(false) != Step::Draw,
{
}

/// A search puts a match on the top line, as far as the document scrolls, or
/// says that there is none.
pub proof fn searches_find_or_say_so(p: PagerView, query: Seq<char>, backward: bool)
    requires
        p.doc.lines.len() <= usize::MAX,
    ensures
        ({
            let q = p.do_search(query, backward);
            let matches = search::all_matches(p.doc.lines, query);
            if matches.len() == 0 {
                q.search is None && q.message == Some("Pattern not found: "@ + query) && q.top
                    == p.top
            } else {
                at_a_match(q) && q.search is Some && q.search->0.matches == matches && q.top
                    == p.clip(matches[q.search->0.cur].0 as int) && q.message == p.message
            }
        }),
{
    let matches = search::all_matches(p.doc.lines, query);
    if matches.len() > 0 {
        match_above_bounds(matches, p.top, matches.len() as int);
        first_below_bounds(matches, p.top, 0);
    }
}

proof fn match_above_bounds(matches: Seq<(usize, usize, usize)>, top: nat, n: int)
    requires
        0 <= n <= matches.len(),
        matches.len() > 0,
    ensures
        0 <= pager_view::match_above(matches, top, n) < matches.len(),
    decreases n,
{
    if n > 0 && matches[n - 1].0 >= top {
        match_above_bounds(matches, top, n - 1);
    }
}

proof fn first_below_bounds(matches: Seq<(usize, usize, usize)>, top: nat, from: int)
    requires
        0 <= from <= matches.len(),
    ensures
        from <= search::first_below(matches, top, from) <= matches.len(),
    decreases matches.len() - from,
{
    if from < matches.len() && matches[from].0 < top {
        first_below_bounds(matches, top, from + 1);
    }
}

/// Whether the terminal has been sent an image: before, or with one of some.
pub open spec fn was_sent(images: Seq<ImageView>, known: Set<u32>, id: u32) -> bool {
    known.contains(id) || exists|i: int| 0 <= i < images.len() && (#[trigger] images[i]).id == id
}

proof fn known_are_sent(images: Seq<ImageView>, known: Set<u32>, n: nat, id: u32)
    requires
        n <= images.len(),
    ensures
        pager_view::synced(images, known, n).1.contains(id) == was_sent(
            images.take(n as int),
            known,
            id,
        ),
    decreases n,
{
    let p = images.take(n as int);
    if n > 0 {
        let q = images.take(n - 1);
        known_are_sent(images, known, (n - 1) as nat, id);
        if was_sent(p, known, id) && !known.contains(id) {
            let i = choose|i: int| 0 <= i < p.len() && (#[trigger] p[i]).id == id;
            if i < n - 1 {
                assert(q[i].id == id);
            }
        }
        if was_sent(q, known, id) && !known.contains(id) {
            let i = choose|i: int| 0 <= i < q.len() && (#[trigger] q[i]).id == id;
            assert(p[i].id == id);
        }
        if images[n - 1].id == id {
            assert(p[n - 1].id == id);
        }
    }
}

proof fn synced_goes_by_the_first(a: Seq<ImageView>, b: Seq<ImageView>, known: Set<u32>, n: nat)
    requires
        n <= a.len(),
        n <= b.len(),
        forall|i: int| 0 <= i < n ==> a[i] == #[trigger] b[i],
    ensures
        pager_view::synced(a, known, n) == pager_view::synced(b, known, n),
    decreases n,
{
    if n > 0 {
        synced_goes_by_the_first(a, b, known, (n - 1) as nat);
        assert(a[n - 1] == b[n - 1]);
    }
}

/// Every image is placed, in order, and the data of one that has not been sent yet goes
/// in front of its placement.
pub proof fn images_are_sent_and_placed(images: Seq<ImageView>, x: ImageView, known: Set<u32>)
    ensures
        ({
            let all = images.push(x);
            let before = pager_view::synced(images, known, images.len()).0;
            let place = utf8::encode_utf8(kitty::placement(x.id, x.cols, x.rows));
            pager_view::synced(all, known, all.len()).0 == (if was_sent(images, known, x.id) {
                before + place
            } else {
                before + crate::telling::frames(x.id, kitty::base64_standard(x.png)) + place
            })
        }),
{
    let all = images.push(x);
    let n = images.len();
    synced_goes_by_the_first(all, images, known, n);
    known_are_sent(all, known, n, x.id);
    assert(all.take(n as int) =~= images);
    crate::telling::images_are_framed(x.id, kitty::base64_standard(x.png));
    let before = pager_view::synced(images, known, n).0;
    assert(before + Seq::<u8>::empty() =~= before);
}

} // verus!
