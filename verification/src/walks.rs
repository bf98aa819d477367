//! What a whole walk through a directory tree finds.

use vstd::prelude::*;
use crate::index;
use crate::index::{AwaitView, ChildView, EntryView, FrameView, StepView, WalkView};
use crate::order;
use crate::paths;
use crate::strings;
use crate::tree;

verus! {

/// What is on disk: what each directory holds, and how each file starts, if it
/// can be read.
pub struct Disk {
    pub listing: spec_fn(Seq<char>) -> Seq<ChildView>,
    pub opening: spec_fn(Seq<char>) -> Option<Seq<u8>>,
}

/// The entry of a file.
pub open spec fn entry_of(disk: Disk, path: Seq<char>, rel: Seq<char>) -> EntryView {
    EntryView {
        rel,
        title: match (disk.opening)(path) {
            Some(b) => index::title_in(strings::bytes_text(b)),
            None => None,
        },
        path,
    }
}

/// The documents found once what is left to look at in a directory, the last
/// first, was gone through, each directory in it before what follows it; `found`
/// are those found before. There are never more than are listed.
pub open spec fn collected(
    disk: Disk,
    path: Seq<char>,
    rel: Seq<char>,
    depth: nat,
    left: Seq<ChildView>,
    found: Seq<EntryView>,
) -> Seq<EntryView>
    decreases index::MAX_DEPTH + 1 - depth, left.len(),
    when depth <= index::MAX_DEPTH
{
    if left.len() == 0 || found.len() >= index::MAX_ENTRIES {
        found
    } else {
        let c = left.last();
        let below = paths::joined(path, c.name);
        let below_rel = tree::child_rel(rel, c.name);
        let then_found = if c.is_dir && index::entered(c.name) && depth < index::MAX_DEPTH {
            let children = (disk.listing)(below);
            collected(
                disk,
                below,
                below_rel,
                depth + 1,
                index::backwards(children, children.len()),
                found,
            )
        } else if !c.is_dir && index::is_listed(c.name) {
            found.push(entry_of(disk, below, below_rel))
        } else {
            found
        };
        collected(disk, path, rel, depth, left.drop_last(), then_found)
    }
}

/// The documents under a root, depth first and each directory in the order of
/// names.
pub open spec fn documents(disk: Disk, root: Seq<char>) -> Seq<EntryView> {
    let children = (disk.listing)(root);
    collected(disk, root, seq![], 0, index::backwards(children, children.len()), seq![])
}

/// The documents found once a walk has gone through all directories it is in.
pub open spec fn collected_by(disk: Disk, frames: Seq<FrameView>, found: Seq<EntryView>) -> Seq<
    EntryView,
>
    decreases frames.len(),
{
    if frames.len() == 0 {
        found
    } else {
        let f = frames.last();
        collected_by(
            disk,
            frames.drop_last(),
            collected(disk, f.path, f.rel, f.depth, f.left, found),
        )
    }
}

/// A walk that took a step and was given what it asked for.
pub open spec fn served(disk: Disk, w: WalkView) -> WalkView {
    let (next, step) = index::stepped(w);
    match step {
        StepView::List(path) => index::given_listing(next, (disk.listing)(path)),
        StepView::Read(path) => index::given_opening(next, (disk.opening)(path)),
        StepView::Done => next,
    }
}

/// A walk after `n` steps.
pub open spec fn walked(disk: Disk, w: WalkView, n: nat) -> WalkView
    decreases n,
{
    if n == 0 {
        w
    } else {
        served(disk, walked(disk, w, (n - 1) as nat))
    }
}

/// A walk under a root that was given what the root holds.
pub open spec fn begun(disk: Disk, root: Seq<char>) -> WalkView {
    index::given_listing(
        WalkView {
            frames: seq![],
            found: seq![],
            awaited: AwaitView::Listing(root, seq![], 0),
        },
        (disk.listing)(root),
    )
}

proof fn full_stays_full(disk: Disk, frames: Seq<FrameView>, found: Seq<EntryView>)
    requires
        found.len() >= index::MAX_ENTRIES,
        forall|i: int| 0 <= i < frames.len() ==> (#[trigger] frames[i]).depth <= index::MAX_DEPTH,
    ensures
        collected_by(disk, frames, found) == found,
    decreases frames.len(),
{
    if frames.len() > 0 {
        let f = frames[frames.len() - 1];
        assert(f.depth <= index::MAX_DEPTH);
        let rest = frames.drop_last();
        assert forall|i: int| 0 <= i < rest.len() implies (#[trigger] rest[i]).depth
            <= index::MAX_DEPTH by {
            assert(rest[i] == frames[i]);
        }
        full_stays_full(disk, rest, found);
    }
}

/// A step changes nothing of what a walk will have found in the end.
proof fn steps_keep_the_end(disk: Disk, w: WalkView)
    requires
        index::within_depth(w),
    ensures
        collected_by(disk, served(disk, w).frames, served(disk, w).found) == collected_by(
            disk,
            w.frames,
            w.found,
        ),
        index::within_depth(served(disk, w)),
        index::stepped(w).1 is Done ==> collected_by(disk, w.frames, w.found) == w.found,
    decreases index::left_in(w.frames),
{
    let (next, step) = index::stepped(w);
    if w.frames.len() == 0 {
    } else if w.found.len() >= index::MAX_ENTRIES {
        full_stays_full(disk, w.frames, w.found);
    } else if w.frames.last().left.len() == 0 {
        let rest = WalkView { frames: w.frames.drop_last(), ..w };
        assert(w.frames.last() == w.frames[w.frames.len() - 1]);
        assert forall|i: int| 0 <= i < rest.frames.len() implies (#[trigger] rest.frames[i]).depth
            <= index::MAX_DEPTH by {
            assert(rest.frames[i] == w.frames[i]);
        }
        steps_keep_the_end(disk, rest);
        assert(index::stepped(w) == index::stepped(rest));
    } else {
        let f = w.frames.last();
        assert(f == w.frames[w.frames.len() - 1]);
        let c = f.left.last();
        let g = FrameView { left: f.left.drop_last(), ..f };
        let (looked, asked) = index::look(w);
        let base = w.frames.drop_last();
        assert(looked.frames == base.push(g));
        assert(base.push(g).drop_last() =~= base);
        assert forall|i: int| 0 <= i < looked.frames.len() implies (
        #[trigger] looked.frames[i]).depth <= index::MAX_DEPTH by {
            if i < base.len() {
                assert(looked.frames[i] == w.frames[i]);
            }
        }
        match asked {
            StepView::Done => {
                assert(collected_by(disk, looked.frames, w.found) == collected_by(
                    disk,
                    base,
                    collected(disk, g.path, g.rel, g.depth, g.left, w.found),
                ));
                assert(collected(disk, f.path, f.rel, f.depth, f.left, w.found) == collected(
                    disk,
                    g.path,
                    g.rel,
                    g.depth,
                    g.left,
                    w.found,
                ));
                steps_keep_the_end(disk, looked);
                assert(index::stepped(w) == index::stepped(looked));
            },
            StepView::List(path) => {
                let t = served(disk, w);
                let children = (disk.listing)(path);
                let sub = FrameView {
                    path,
                    rel: tree::child_rel(f.rel, c.name),
                    depth: f.depth + 1,
                    left: index::backwards(children, children.len()),
                };
                assert(t.frames == base.push(g).push(sub));
                assert(t.frames.drop_last() =~= base.push(g));
                assert forall|i: int| 0 <= i < t.frames.len() implies (
                #[trigger] t.frames[i]).depth <= index::MAX_DEPTH by {
                    if i < base.push(g).len() {
                        assert(t.frames[i] == looked.frames[i]);
                    }
                }
                let inner = collected(disk, sub.path, sub.rel, sub.depth, sub.left, w.found);
                assert(collected_by(disk, t.frames, t.found) == collected_by(
                    disk,
                    base.push(g),
                    inner,
                ));
                assert(collected_by(disk, base.push(g), inner) == collected_by(
                    disk,
                    base,
                    collected(disk, g.path, g.rel, g.depth, g.left, inner),
                ));
                assert(collected(disk, f.path, f.rel, f.depth, f.left, w.found) == collected(
                    disk,
                    g.path,
                    g.rel,
                    g.depth,
                    g.left,
                    inner,
                ));
            },
            StepView::Read(path) => {
                let t = served(disk, w);
                assert(t.frames == base.push(g));
                assert(t.found =~= w.found.push(
                    entry_of(disk, path, tree::child_rel(f.rel, c.name)),
                ));
                assert(collected_by(disk, base.push(g), t.found) == collected_by(
                    disk,
                    base,
                    collected(disk, g.path, g.rel, g.depth, g.left, t.found),
                ));
                assert(collected(disk, f.path, f.rel, f.depth, f.left, w.found) == collected(
                    disk,
                    g.path,
                    g.rel,
                    g.depth,
                    g.left,
                    t.found,
                ));
            },
        }
    }
}

proof fn walks_keep_the_end(disk: Disk, w: WalkView, n: nat)
    requires
        index::within_depth(w),
    ensures
        collected_by(disk, walked(disk, w, n).frames, walked(disk, w, n).found) == collected_by(
            disk,
            w.frames,
            w.found,
        ),
        index::within_depth(walked(disk, w, n)),
    decreases n,
{
    if n > 0 {
        walks_keep_the_end(disk, w, (n - 1) as nat);
        steps_keep_the_end(disk, walked(disk, w, (n - 1) as nat));
    }
}

/// A walk that is done has found the documents under its root, depth first and
/// each directory in the order of names.
pub proof fn walks_find_the_documents(disk: Disk, root: Seq<char>, n: nat)
    requires
        index::stepped(walked(disk, begun(disk, root), n)).1 is Done,
    ensures
        walked(disk, begun(disk, root), n).found == documents(disk, root),
{
    let w = begun(disk, root);
    let children = (disk.listing)(root);
    let f = FrameView {
        path: root,
        rel: seq![],
        depth: 0,
        left: index::backwards(children, children.len()),
    };
    assert(w.frames =~= seq![f]);
    assert(w.frames.drop_last() =~= seq![]);
    assert(w.found =~= seq![]);
    let all = collected(disk, f.path, f.rel, f.depth, f.left, w.found);
    assert(collected_by(disk, w.frames, w.found) == collected_by(disk, w.frames.drop_last(), all));
    assert(collected_by(disk, w.frames.drop_last(), all) == all);
    walks_keep_the_end(disk, w, n);
    steps_keep_the_end(disk, walked(disk, w, n));
}

/// A listing of documents whose paths are all different is in strict order.
pub proof fn listings_are_strictly_sorted(entries: Seq<EntryView>)
    requires
        index::rels(entries).no_duplicates(),
    ensures
        forall|i: int, j: int|
            0 <= i < j < entries.len() ==> order::comes_first(
                (#[trigger] index::sorted_entries(entries)[i]).rel,
                (#[trigger] index::sorted_entries(entries)[j]).rel,
            ),
{
    let sorted = index::sorted_entries(entries);
    let names = index::rels(entries);
    let o = order::order_of(names);
    index::listings_are_sorted(entries);
    assert forall|i: int, j: int| 0 <= i < j < entries.len() implies order::comes_first(
        (#[trigger] sorted[i]).rel,
        (#[trigger] sorted[j]).rel,
    ) by {
        let a = sorted[i].rel;
        let b = sorted[j].rel;
        assert(!order::comes_first(b, a));
        assert(o[i] != o[j]);
        assert(0 <= o[i] < names.len() && 0 <= o[j] < names.len());
        assert(names[o[i]] == a && names[o[j]] == b);
        order::names_are_told_apart((a, order::lower_text(a)), (b, order::lower_text(b)));
    }
}

/// Whether children have names that are different, not empty and no paths.
pub open spec fn named_apart(children: Seq<ChildView>) -> bool {
    &&& forall|i: int|
        0 <= i < children.len() ==> (#[trigger] children[i]).name.len() > 0
            && !children[i].name.contains('/')
    &&& forall|i: int, j: int|
        0 <= i < j < children.len() ==> (#[trigger] children[i]).name != (
        #[trigger] children[j]).name
}

/// Whether every directory holds what it holds under names that are different,
/// not empty and no paths.
pub open spec fn is_proper(disk: Disk) -> bool {
    forall|path: Seq<char>| named_apart(#[trigger] (disk.listing)(path))
}

proof fn backwards_is_named_apart(children: Seq<ChildView>, n: nat)
    requires
        n <= children.len(),
        named_apart(children),
    ensures
        named_apart(index::backwards(children, n)),
        forall|i: int|
            #![trigger index::backwards(children, n)[i]]
            0 <= i < index::backwards(children, n).len() ==> exists|k: int|
                0 <= k < n && #[trigger] children[k] == index::backwards(children, n)[i],
    decreases n,
{
    if n > 0 {
        let before = index::backwards(children, (n - 1) as nat);
        backwards_is_named_apart(children, (n - 1) as nat);
        let c = children[n - 1];
        index::child_place_bounds(before, c.name, 0);
        let p = index::child_place(before, c.name, 0);
        let r = before.insert(p, c);
        assert forall|i: int| #![trigger r[i]] 0 <= i < r.len() implies exists|k: int|
            0 <= k < n && #[trigger] children[k] == r[i] by {
            if i == p {
                assert(children[n - 1] == r[i]);
            } else {
                let j = if i < p {
                    i
                } else {
                    i - 1
                };
                assert(r[i] == before[j]);
                let k = choose|k: int|
                    0 <= k < n - 1 && #[trigger] children[k] == before[j];
                assert(children[k] == r[i]);
            }
        }
        assert forall|i: int| 0 <= i < r.len() implies (#[trigger] r[i]).name.len() > 0
            && !r[i].name.contains('/') by {
            let k = choose|k: int| 0 <= k < n && #[trigger] children[k] == r[i];
            assert(children[k].name.len() > 0);
        }
        assert forall|i: int, j: int| 0 <= i < j < r.len() implies (#[trigger] r[i]).name != (
        #[trigger] r[j]).name by {
            let a = if i < p {
                i
            } else {
                i - 1
            };
            let b = if j < p {
                j
            } else {
                j - 1
            };
            if i == p {
                assert(r[j] == before[b]);
                let k = choose|k: int|
                    0 <= k < n - 1 && #[trigger] children[k] == before[b];
                assert(children[k].name != children[n - 1].name);
            } else if j == p {
                assert(r[i] == before[a]);
                let k = choose|k: int|
                    0 <= k < n - 1 && #[trigger] children[k] == before[a];
                assert(children[k].name != children[n - 1].name);
            } else {
                assert(r[i] == before[a] && r[j] == before[b]);
            }
        }
    }
}

/// Whether a path is that of a child or below it.
pub open spec fn below(rel: Seq<char>, name: Seq<char>, path: Seq<char>) -> bool {
    let child = tree::child_rel(rel, name);
    path == child || (path.len() > child.len() && path.take(child.len() as int) == child
        && path[child.len() as int] == '/')
}

proof fn children_are_apart(rel: Seq<char>, a: Seq<char>, b: Seq<char>, path: Seq<char>)
    requires
        a != b,
        !a.contains('/'),
        !b.contains('/'),
        below(rel, a, path),
    ensures
        !below(rel, b, path),
{
    reveal_strlit("/");
    let p: int = if rel.len() == 0 {
        0
    } else {
        (rel.len() + 1) as int
    };
    let ca = tree::child_rel(rel, a);
    let cb = tree::child_rel(rel, b);
    assert(ca.len() == p + a.len());
    assert(cb.len() == p + b.len());
    assert forall|i: int| 0 <= i < a.len() implies #[trigger] ca[p + i] == a[i] by {}
    assert forall|i: int| 0 <= i < b.len() implies #[trigger] cb[p + i] == b[i] by {}
    if below(rel, b, path) {
        assert forall|i: int| 0 <= i < a.len() implies path[p + i] == #[trigger] a[i] by {
            assert(path.take(ca.len() as int)[p + i] == ca[p + i]);
        }
        assert forall|i: int| 0 <= i < b.len() implies path[p + i] == #[trigger] b[i] by {
            assert(path.take(cb.len() as int)[p + i] == cb[p + i]);
        }
        if a.len() == b.len() {
            assert forall|i: int| 0 <= i < a.len() implies a[i] == b[i] by {}
            assert(a =~= b);
        } else if a.len() < b.len() {
            assert(b[a.len() as int] == path[p + a.len()]);
            assert(b.contains(b[a.len() as int]));
        } else {
            assert(a[b.len() as int] == path[p + b.len()]);
            assert(a.contains(a[b.len() as int]));
        }
    }
}

proof fn below_is_below(rel: Seq<char>, name: Seq<char>, inner: Seq<char>, path: Seq<char>)
    requires
        name.len() > 0,
        below(tree::child_rel(rel, name), inner, path),
    ensures
        below(rel, name, path),
{
    reveal_strlit("/");
    let child = tree::child_rel(rel, name);
    let grand = tree::child_rel(child, inner);
    let n = child.len() as int;
    assert(grand.take(n) =~= child);
    assert(grand[n] == '/');
    if path != grand {
        assert(path.take(grand.len() as int).take(n) =~= path.take(n));
        assert(path.take(grand.len() as int)[n] == path[n]);
    }
}

/// Whether a path is below one of some children.
spec fn below_some(rel: Seq<char>, left: Seq<ChildView>, path: Seq<char>) -> bool {
    exists|i: int| 0 <= i < left.len() && below(rel, (#[trigger] left[i]).name, path)
}

/// Whether documents were added to others, with paths that are different and
/// below some children.
spec fn added(
    rel: Seq<char>,
    left: Seq<ChildView>,
    before: Seq<EntryView>,
    all: Seq<EntryView>,
) -> bool {
    &&& before.len() <= all.len()
    &&& all.take(before.len() as int) == before
    &&& forall|k: int|
        before.len() <= k < all.len() ==> below_some(rel, left, (#[trigger] all[k]).rel)
    &&& forall|i: int, j: int|
        before.len() <= i < j < all.len() ==> (#[trigger] all[i]).rel != (#[trigger] all[j]).rel
}

proof fn collecting_adds(
    disk: Disk,
    path: Seq<char>,
    rel: Seq<char>,
    depth: nat,
    left: Seq<ChildView>,
    found: Seq<EntryView>,
)
    requires
        is_proper(disk),
        depth <= index::MAX_DEPTH,
        named_apart(left),
    ensures
        added(rel, left, found, collected(disk, path, rel, depth, left, found)),
    decreases index::MAX_DEPTH + 1 - depth, left.len(),
{
    let all = collected(disk, path, rel, depth, left, found);
    assert(found.take(found.len() as int) =~= found);
    if left.len() == 0 || found.len() >= index::MAX_ENTRIES {
    } else {
        let c = left[left.len() - 1];
        assert(c.name.len() > 0);
        let rest = left.drop_last();
        assert forall|i: int| 0 <= i < rest.len() implies (#[trigger] rest[i]).name.len() > 0
            && !rest[i].name.contains('/') by {
            assert(rest[i] == left[i]);
        }
        assert forall|i: int, j: int| 0 <= i < j < rest.len() implies (#[trigger] rest[i]).name != (
        #[trigger] rest[j]).name by {
            assert(rest[i] == left[i] && rest[j] == left[j]);
        }
        let deeper = paths::joined(path, c.name);
        let deeper_rel = tree::child_rel(rel, c.name);
        let children = (disk.listing)(deeper);
        let inner = index::backwards(children, children.len());
        let first = if c.is_dir && index::entered(c.name) && depth < index::MAX_DEPTH {
            collected(disk, deeper, deeper_rel, depth + 1, inner, found)
        } else if !c.is_dir && index::is_listed(c.name) {
            found.push(entry_of(disk, deeper, deeper_rel))
        } else {
            found
        };
        if c.is_dir && index::entered(c.name) && depth < index::MAX_DEPTH {
            assert(named_apart(children));
            backwards_is_named_apart(children, children.len());
            collecting_adds(disk, deeper, deeper_rel, depth + 1, inner, found);
        }
        // What was added first is below the child that was looked at.
        assert(found.len() <= first.len() && first.take(found.len() as int) =~= found);
        assert forall|k: int| found.len() <= k < first.len() implies below(
            rel,
            c.name,
            (#[trigger] first[k]).rel,
        ) by {
            if c.is_dir {
                assert(below_some(deeper_rel, inner, first[k].rel));
                let i = choose|i: int|
                    0 <= i < inner.len() && below(
                        deeper_rel,
                        (#[trigger] inner[i]).name,
                        first[k].rel,
                    );
                below_is_below(rel, c.name, inner[i].name, first[k].rel);
            }
        }
        collecting_adds(disk, path, rel, depth, rest, first);
        assert(all == collected(disk, path, rel, depth, rest, first));
        assert(all.take(found.len() as int) =~= first.take(found.len() as int));
        assert forall|k: int| found.len() <= k < all.len() implies below_some(
            rel,
            left,
            (#[trigger] all[k]).rel,
        ) by {
            if k < first.len() {
                assert(all.take(first.len() as int)[k] == all[k]);
                assert(below(rel, left[left.len() - 1].name, all[k].rel));
            } else {
                let i = choose|i: int|
                    0 <= i < rest.len() && below(rel, (#[trigger] rest[i]).name, all[k].rel);
                assert(left[i] == rest[i]);
            }
        }
        assert forall|i: int, j: int| found.len() <= i < j < all.len() implies (
        #[trigger] all[i]).rel != (#[trigger] all[j]).rel by {
            if i < first.len() {
                assert(all.take(first.len() as int)[i] == all[i]);
                if j < first.len() {
                    assert(all.take(first.len() as int)[j] == all[j]);
                    assert(first[i].rel != first[j].rel);
                } else {
                    let k = choose|k: int|
                        0 <= k < rest.len() && below(rel, (#[trigger] rest[k]).name, all[j].rel);
                    assert(left[k] == rest[k]);
                    assert(left[k].name != c.name);
                    assert(below(rel, c.name, all[i].rel));
                    children_are_apart(rel, c.name, rest[k].name, all[i].rel);
                }
            }
        }
    }
}

/// A walk finds each document once: under a root whose directories hold what
/// they hold under different names, the paths of the documents are all
/// different, and so the listing of them is in strict order.
pub proof fn documents_are_found_once(disk: Disk, root: Seq<char>)
    requires
        is_proper(disk),
    ensures
        index::rels(documents(disk, root)).no_duplicates(),
        ({
            let sorted = index::sorted_entries(documents(disk, root));
            forall|i: int, j: int|
                0 <= i < j < documents(disk, root).len() ==> order::comes_first(
                    (#[trigger] sorted[i]).rel,
                    (#[trigger] sorted[j]).rel,
                )
        }),
{
    let children = (disk.listing)(root);
    assert(named_apart(children));
    backwards_is_named_apart(children, children.len());
    let left = index::backwards(children, children.len());
    collecting_adds(disk, root, seq![], 0, left, seq![]);
    let all = documents(disk, root);
    let names = index::rels(all);
    assert forall|i: int, j: int| 0 <= i < names.len() && 0 <= j < names.len() && i
        != j implies names[i] != names[j] by {
        if i < j {
            assert(all[i].rel != all[j].rel);
        } else {
            assert(all[j].rel != all[i].rel);
        }
    }
    listings_are_strictly_sorted(all);
}

/// How much there is to look at in what is left of a directory.
spec fn work(disk: Disk, path: Seq<char>, depth: nat, left: Seq<ChildView>) -> nat
    decreases index::MAX_DEPTH + 1 - depth, left.len(),
    when depth <= index::MAX_DEPTH
{
    if left.len() == 0 {
        0
    } else {
        let c = left.last();
        let deeper = paths::joined(path, c.name);
        let children = (disk.listing)(deeper);
        let inner = if c.is_dir && index::entered(c.name) && depth < index::MAX_DEPTH {
            1 + work(disk, deeper, depth + 1, index::backwards(children, children.len()))
        } else {
            0
        };
        work(disk, path, depth, left.drop_last()) + 1 + inner
    }
}

/// How much a walk has to look at.
spec fn work_in(disk: Disk, frames: Seq<FrameView>) -> nat
    decreases frames.len(),
{
    if frames.len() == 0 {
        0
    } else {
        let f = frames.last();
        work_in(disk, frames.drop_last()) + 1 + work(disk, f.path, f.depth, f.left)
    }
}

proof fn steps_shrink_the_work(disk: Disk, w: WalkView)
    requires
        index::within_depth(w),
        !(index::stepped(w).1 is Done),
    ensures
        work_in(disk, served(disk, w).frames) < work_in(disk, w.frames),
    decreases index::left_in(w.frames),
{
    if w.frames.len() == 0 || w.found.len() >= index::MAX_ENTRIES {
    } else if w.frames.last().left.len() == 0 {
        let rest = WalkView { frames: w.frames.drop_last(), ..w };
        assert forall|i: int| 0 <= i < rest.frames.len() implies (#[trigger] rest.frames[i]).depth
            <= index::MAX_DEPTH by {
            assert(rest.frames[i] == w.frames[i]);
        }
        assert(index::stepped(w) == index::stepped(rest));
        steps_shrink_the_work(disk, rest);
    } else {
        let f = w.frames.last();
        assert(f == w.frames[w.frames.len() - 1]);
        assert(f.depth <= index::MAX_DEPTH);
        let c = f.left.last();
        let g = FrameView { left: f.left.drop_last(), ..f };
        let (looked, asked) = index::look(w);
        let base = w.frames.drop_last();
        assert(looked.frames == base.push(g));
        assert(base.push(g).drop_last() =~= base);
        assert forall|i: int| 0 <= i < looked.frames.len() implies (
        #[trigger] looked.frames[i]).depth <= index::MAX_DEPTH by {
            if i < base.len() {
                assert(looked.frames[i] == w.frames[i]);
            }
        }
        assert(work_in(disk, base.push(g)) == work_in(disk, base) + 1 + work(
            disk,
            g.path,
            g.depth,
            g.left,
        ));
        assert(work(disk, f.path, f.depth, f.left) >= work(disk, g.path, g.depth, g.left) + 1);
        match asked {
            StepView::Done => {
                assert(index::stepped(w) == index::stepped(looked));
                steps_shrink_the_work(disk, looked);
            },
            StepView::List(path) => {
                let t = served(disk, w);
                let children = (disk.listing)(path);
                let sub = FrameView {
                    path,
                    rel: tree::child_rel(f.rel, c.name),
                    depth: f.depth + 1,
                    left: index::backwards(children, children.len()),
                };
                assert(t.frames == base.push(g).push(sub));
                assert(t.frames.drop_last() =~= base.push(g));
            },
            StepView::Read(path) => {},
        }
    }
}

proof fn walks_join(disk: Disk, w: WalkView, n: nat)
    ensures
        walked(disk, served(disk, w), n) == walked(disk, w, n + 1),
    decreases n,
{
    if n > 0 {
        walks_join(disk, w, (n - 1) as nat);
    } else {
        assert(walked(disk, w, 0) == w);
    }
}

proof fn walks_end_from(disk: Disk, w: WalkView) -> (n: nat)
    requires
        index::within_depth(w),
    ensures
        index::stepped(walked(disk, w, n)).1 is Done,
    decreases work_in(disk, w.frames),
{
    if index::stepped(w).1 is Done {
        0
    } else {
        steps_shrink_the_work(disk, w);
        steps_keep_the_end(disk, w);
        let n = walks_end_from(disk, served(disk, w));
        walks_join(disk, w, n);
        n + 1
    }
}

/// Every walk comes to its end, and has then found the documents under its root.
pub proof fn walks_end(disk: Disk, root: Seq<char>)
    ensures
        exists|n: nat|
            (#[trigger] index::stepped(walked(disk, begun(disk, root), n))).1 is Done && walked(
                disk,
                begun(disk, root),
                n,
            ).found == documents(disk, root),
{
    let n = walks_end_from(disk, begun(disk, root));
    walks_find_the_documents(disk, root, n);
}

} // verus!
