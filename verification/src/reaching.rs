//! Which documents a walk finds: all those that can be reached, and no others.

use vstd::prelude::*;
use crate::index;
use crate::index::{ChildView, EntryView};
use crate::paths;
use crate::strings;
use crate::tree;
use crate::walks;
use crate::walks::Disk;

verus! {

/// Whether a name is shown: it does not start with a dot.
pub open spec fn is_visible(name: Seq<char>) -> bool {
    name.len() == 0 || name[0] != '.'
}

/// Whether a directory is gone into: it is visible, and none of those that hold what
/// was built or fetched.
pub open spec fn is_open(name: Seq<char>) -> bool {
    &&& is_visible(name)
    &&& name != "node_modules"@
    &&& name != "target"@
    &&& name != "vendor"@
    &&& name != "dist"@
    &&& name != "build"@
    &&& name != "__pycache__"@
}

/// Whether a directory holds something under a name.
pub open spec fn holds(children: Seq<ChildView>, name: Seq<char>, is_dir: bool) -> bool {
    exists|i: int|
        0 <= i < children.len() && (#[trigger] children[i]).name == name && children[i].is_dir
            == is_dir
}

/// Whether names lead from a directory, which is `depth` below the first and holds some
/// children, through open directories to a visible markdown file, eight directories
/// down at most.
pub open spec fn leads(
    disk: Disk,
    path: Seq<char>,
    depth: nat,
    children: Seq<ChildView>,
    names: Seq<Seq<char>>,
) -> bool
    decreases names.len(),
{
    if names.len() == 0 {
        false
    } else if names.len() == 1 {
        holds(children, names[0], false) && is_visible(names[0]) && paths::markdown_name(names[0])
    } else {
        let next = paths::joined(path, names[0]);
        holds(children, names[0], true) && is_open(names[0]) && depth < 8 && leads(
            disk,
            next,
            depth + 1,
            (disk.listing)(next),
            names.skip(1),
        )
    }
}

/// The path that names make, behind a directory.
pub open spec fn path_of(path: Seq<char>, names: Seq<Seq<char>>) -> Seq<char>
    decreases names.len(),
{
    if names.len() == 0 {
        path
    } else {
        path_of(paths::joined(path, names[0]), names.skip(1))
    }
}

/// The entry of the file that names lead to.
pub open spec fn entry_at(
    disk: Disk,
    path: Seq<char>,
    rel: Seq<char>,
    names: Seq<Seq<char>>,
) -> EntryView {
    EntryView {
        rel: tree::path_of(rel, names),
        title: match (disk.opening)(path_of(path, names)) {
            Some(b) => index::title_in(strings::bytes_text(b)),
            None => None,
        },
        path: path_of(path, names),
    }
}

proof fn filters(name: Seq<char>)
    ensures
        index::entered(name) == is_open(name),
        index::is_listed(name) == (is_visible(name) && paths::markdown_name(name)),
{
}

proof fn backwards_holds(children: Seq<ChildView>, n: nat, c: ChildView)
    requires
        n <= children.len(),
    ensures
        index::backwards(children, n).contains(c) <==> children.take(n as int).contains(c),
    decreases n,
{
    if n > 0 {
        let before = index::backwards(children, (n - 1) as nat);
        let x = children[n - 1];
        backwards_holds(children, (n - 1) as nat, c);
        let at = index::child_place(before, x.name, 0);
        index::child_place_bounds(before, x.name, 0);
        let r = before.insert(at, x);
        let p = children.take(n as int);
        let q = children.take(n - 1);
        if r.contains(c) {
            let i = choose|i: int| 0 <= i < r.len() && r[i] == c;
            if i == at {
                assert(p[n - 1] == c);
            } else {
                let j = if i < at {
                    i
                } else {
                    i - 1
                };
                assert(before[j] == c);
                assert(before.contains(c));
                let k = choose|k: int| 0 <= k < q.len() && q[k] == c;
                assert(p[k] == c);
            }
        }
        if p.contains(c) {
            let i = choose|i: int| 0 <= i < p.len() && p[i] == c;
            if i == n - 1 {
                assert(r[at] == c);
            } else {
                assert(q[i] == c);
                assert(before.contains(c));
                let j = choose|j: int| 0 <= j < before.len() && before[j] == c;
                if j < at {
                    assert(r[j] == c);
                } else {
                    assert(r[j + 1] == c);
                }
            }
        }
    }
}

proof fn backwards_holds_names(children: Seq<ChildView>, name: Seq<char>, is_dir: bool)
    ensures
        holds(index::backwards(children, children.len()), name, is_dir) <==> holds(
            children,
            name,
            is_dir,
        ),
{
    let b = index::backwards(children, children.len());
    let all = children.take(children.len() as int);
    assert(all =~= children);
    if holds(b, name, is_dir) {
        let i = choose|i: int|
            0 <= i < b.len() && (#[trigger] b[i]).name == name && b[i].is_dir == is_dir;
        assert(b.contains(b[i]));
        backwards_holds(children, children.len(), b[i]);
        let k = choose|k: int| 0 <= k < children.len() && children[k] == b[i];
        assert(children[k].name == name);
    }
    if holds(children, name, is_dir) {
        let i = choose|i: int|
            0 <= i < children.len() && (#[trigger] children[i]).name == name && children[i].is_dir
                == is_dir;
        assert(children.contains(children[i]));
        backwards_holds(children, children.len(), children[i]);
        let k = choose|k: int| 0 <= k < b.len() && b[k] == children[i];
        assert(b[k].name == name);
    }
}

proof fn leads_backwards(
    disk: Disk,
    path: Seq<char>,
    depth: nat,
    children: Seq<ChildView>,
    names: Seq<Seq<char>>,
)
    ensures
        leads(disk, path, depth, index::backwards(children, children.len()), names) == leads(
            disk,
            path,
            depth,
            children,
            names,
        ),
{
    if names.len() > 0 {
        backwards_holds_names(children, names[0], true);
        backwards_holds_names(children, names[0], false);
    }
}

/// Whether an entry is among some.
spec fn listed(entries: Seq<EntryView>, e: EntryView) -> bool {
    exists|i: int| 0 <= i < entries.len() && #[trigger] entries[i] == e
}

proof fn collecting_keeps(
    disk: Disk,
    path: Seq<char>,
    rel: Seq<char>,
    depth: nat,
    left: Seq<ChildView>,
    found: Seq<EntryView>,
)
    requires
        depth <= 8,
    ensures
        ({
            let all = walks::collected(disk, path, rel, depth, left, found);
            &&& found.len() <= all.len()
            &&& forall|i: int| 0 <= i < found.len() ==> #[trigger] all[i] == found[i]
        }),
    decreases 9 - depth, left.len(),
{
    if left.len() > 0 && found.len() < 5000 {
        let c = left.last();
        let below = paths::joined(path, c.name);
        let below_rel = tree::child_rel(rel, c.name);
        if c.is_dir && index::entered(c.name) && depth < 8 {
            let children = (disk.listing)(below);
            let inside = index::backwards(children, children.len());
            collecting_keeps(disk, below, below_rel, depth + 1, inside, found);
            let then_found = walks::collected(disk, below, below_rel, depth + 1, inside, found);
            collecting_keeps(disk, path, rel, depth, left.drop_last(), then_found);
            let all = walks::collected(disk, path, rel, depth, left, found);
            assert forall|i: int| 0 <= i < found.len() implies #[trigger] all[i] == found[i] by {
                assert(then_found[i] == found[i]);
            }
        } else if !c.is_dir && index::is_listed(c.name) {
            let e = walks::entry_of(disk, below, below_rel);
            collecting_keeps(disk, path, rel, depth, left.drop_last(), found.push(e));
            let all = walks::collected(disk, path, rel, depth, left, found);
            assert forall|i: int| 0 <= i < found.len() implies #[trigger] all[i] == found[i] by {
                assert(found.push(e)[i] == found[i]);
            }
        } else {
            collecting_keeps(disk, path, rel, depth, left.drop_last(), found);
        }
    }
}

proof fn kept(
    disk: Disk,
    path: Seq<char>,
    rel: Seq<char>,
    depth: nat,
    left: Seq<ChildView>,
    found: Seq<EntryView>,
    e: EntryView,
)
    requires
        depth <= 8,
        listed(found, e),
    ensures
        listed(walks::collected(disk, path, rel, depth, left, found), e),
{
    collecting_keeps(disk, path, rel, depth, left, found);
    let i = choose|i: int| 0 <= i < found.len() && #[trigger] found[i] == e;
    assert(walks::collected(disk, path, rel, depth, left, found)[i] == e);
}

proof fn leads_in_part(
    disk: Disk,
    path: Seq<char>,
    depth: nat,
    left: Seq<ChildView>,
    names: Seq<Seq<char>>,
)
    requires
        left.len() > 0,
        leads(disk, path, depth, left, names),
        left.last().name != names[0] || left.last().is_dir == (names.len() == 1),
    ensures
        leads(disk, path, depth, left.drop_last(), names),
{
    let d = left.drop_last();
    let is_dir = names.len() > 1;
    let i = choose|i: int|
        0 <= i < left.len() && (#[trigger] left[i]).name == names[0] && left[i].is_dir == is_dir;
    assert(i < d.len());
    assert(d[i] == left[i]);
}

proof fn collecting_reaches(
    disk: Disk,
    path: Seq<char>,
    rel: Seq<char>,
    depth: nat,
    left: Seq<ChildView>,
    found: Seq<EntryView>,
    names: Seq<Seq<char>>,
)
    requires
        depth <= 8,
        leads(disk, path, depth, left, names),
        walks::collected(disk, path, rel, depth, left, found).len() < 5000,
    ensures
        listed(
            walks::collected(disk, path, rel, depth, left, found),
            entry_at(disk, path, rel, names),
        ),
    decreases 9 - depth, left.len(),
{
    let e = entry_at(disk, path, rel, names);
    collecting_keeps(disk, path, rel, depth, left, found);
    assert(left.len() > 0);
    let c = left.last();
    let rest = left.drop_last();
    let below = paths::joined(path, c.name);
    let below_rel = tree::child_rel(rel, c.name);
    filters(c.name);
    let here = c.name == names[0] && c.is_dir == (names.len() > 1);
    if !here {
        leads_in_part(disk, path, depth, left, names);
    }
    if c.is_dir && index::entered(c.name) && depth < 8 {
        let children = (disk.listing)(below);
        let inside = index::backwards(children, children.len());
        let then_found = walks::collected(disk, below, below_rel, depth + 1, inside, found);
        collecting_keeps(disk, path, rel, depth, rest, then_found);
        if here {
            let more = names.skip(1);
            leads_backwards(disk, below, depth + 1, children, more);
            collecting_reaches(disk, below, below_rel, depth + 1, inside, found, more);
            assert(entry_at(disk, below, below_rel, more) == e);
            kept(disk, path, rel, depth, rest, then_found, e);
        } else {
            collecting_reaches(disk, path, rel, depth, rest, then_found, names);
        }
    } else if !c.is_dir && index::is_listed(c.name) {
        let one = walks::entry_of(disk, below, below_rel);
        let then_found = found.push(one);
        if here {
            assert(names.skip(1) =~= Seq::<Seq<char>>::empty());
            assert(path_of(below, names.skip(1)) == below);
            assert(tree::path_of(below_rel, names.skip(1)) == below_rel);
            assert(e == one);
            assert(then_found[found.len() as int] == e);
            assert(listed(then_found, e));
            kept(disk, path, rel, depth, rest, then_found, e);
        } else {
            collecting_reaches(disk, path, rel, depth, rest, then_found, names);
        }
    } else {
        collecting_reaches(disk, path, rel, depth, rest, found, names);
    }
}

/// A walk misses nothing: every visible markdown file that can be reached through open
/// directories, eight down at most, is found, with its title, as long as there are
/// fewer documents than are listed.
pub proof fn reachable_documents_are_found(
    disk: Disk,
    root: Seq<char>,
    names: Seq<Seq<char>>,
)
    requires
        leads(disk, root, 0, (disk.listing)(root), names),
        walks::documents(disk, root).len() < 5000,
    ensures
        exists|i: int|
            0 <= i < walks::documents(disk, root).len() && #[trigger] walks::documents(
                disk,
                root,
            )[i] == entry_at(disk, root, seq![], names),
{
    let children = (disk.listing)(root);
    leads_backwards(disk, root, 0, children, names);
    collecting_reaches(
        disk,
        root,
        seq![],
        0,
        index::backwards(children, children.len()),
        seq![],
        names,
    );
    let e = entry_at(disk, root, seq![], names);
    let all = walks::documents(disk, root);
    assert(listed(all, e));
    let i = choose|i: int| 0 <= i < all.len() && #[trigger] all[i] == e;
    assert(walks::documents(disk, root)[i] == e);
}

/// Whether an entry is that of a file that some names lead to.
pub open spec fn is_reached(
    disk: Disk,
    path: Seq<char>,
    rel: Seq<char>,
    depth: nat,
    children: Seq<ChildView>,
    e: EntryView,
) -> bool {
    exists|names: Seq<Seq<char>>| #[trigger]
        leads(disk, path, depth, children, names) && e == entry_at(disk, path, rel, names)
}

proof fn leads_in_more(
    disk: Disk,
    path: Seq<char>,
    rel: Seq<char>,
    depth: nat,
    left: Seq<ChildView>,
    e: EntryView,
)
    requires
        left.len() > 0,
        is_reached(disk, path, rel, depth, left.drop_last(), e),
    ensures
        is_reached(disk, path, rel, depth, left, e),
{
    let d = left.drop_last();
    let names = choose|names: Seq<Seq<char>>| #[trigger]
        leads(disk, path, depth, d, names) && e == entry_at(disk, path, rel, names);
    let is_dir = names.len() > 1;
    let i = choose|i: int|
        0 <= i < d.len() && (#[trigger] d[i]).name == names[0] && d[i].is_dir == is_dir;
    assert(left[i] == d[i]);
    assert(holds(left, names[0], is_dir));
    assert(leads(disk, path, depth, left, names));
}

proof fn collecting_is_reaching(
    disk: Disk,
    path: Seq<char>,
    rel: Seq<char>,
    depth: nat,
    left: Seq<ChildView>,
    found: Seq<EntryView>,
    i: int,
)
    requires
        depth <= 8,
        found.len() <= i < walks::collected(disk, path, rel, depth, left, found).len(),
    ensures
        is_reached(
            disk,
            path,
            rel,
            depth,
            left,
            walks::collected(disk, path, rel, depth, left, found)[i],
        ),
    decreases 9 - depth, left.len(),
{
    let all = walks::collected(disk, path, rel, depth, left, found);
    if left.len() > 0 && found.len() < 5000 {
        let c = left.last();
        let rest = left.drop_last();
        let below = paths::joined(path, c.name);
        let below_rel = tree::child_rel(rel, c.name);
        filters(c.name);
        assert(left[left.len() - 1] == c);
        if c.is_dir && index::entered(c.name) && depth < 8 {
            let children = (disk.listing)(below);
            let inside = index::backwards(children, children.len());
            let then_found = walks::collected(disk, below, below_rel, depth + 1, inside, found);
            collecting_keeps(disk, path, rel, depth, rest, then_found);
            if i < then_found.len() {
                collecting_is_reaching(disk, below, below_rel, depth + 1, inside, found, i);
                let e = then_found[i];
                assert(all[i] == e);
                let more = choose|names: Seq<Seq<char>>| #[trigger]
                    leads(disk, below, depth + 1, inside, names) && e == entry_at(
                        disk,
                        below,
                        below_rel,
                        names,
                    );
                leads_backwards(disk, below, depth + 1, children, more);
                let names = seq![c.name] + more;
                assert(names.skip(1) =~= more);
                assert(names[0] == c.name);
                assert(more.len() > 0);
                assert(holds(left, names[0], true));
                assert(leads(disk, path, depth, left, names));
                assert(entry_at(disk, path, rel, names) == e);
            } else {
                collecting_is_reaching(disk, path, rel, depth, rest, then_found, i);
                leads_in_more(disk, path, rel, depth, left, all[i]);
            }
        } else if !c.is_dir && index::is_listed(c.name) {
            let one = walks::entry_of(disk, below, below_rel);
            let then_found = found.push(one);
            collecting_keeps(disk, path, rel, depth, rest, then_found);
            if i < then_found.len() {
                let names = seq![c.name];
                assert(names.skip(1) =~= Seq::<Seq<char>>::empty());
                assert(path_of(below, names.skip(1)) == below);
                assert(tree::path_of(below_rel, names.skip(1)) == below_rel);
                assert(all[i] == then_found[i]);
                assert(holds(left, names[0], false));
                assert(leads(disk, path, depth, left, names));
                assert(entry_at(disk, path, rel, names) == one);
            } else {
                collecting_is_reaching(disk, path, rel, depth, rest, then_found, i);
                leads_in_more(disk, path, rel, depth, left, all[i]);
            }
        } else {
            collecting_is_reaching(disk, path, rel, depth, rest, found, i);
            leads_in_more(disk, path, rel, depth, left, all[i]);
        }
    }
}

/// A walk makes nothing up: every document that it finds is a visible markdown file
/// that can be reached through open directories, eight down at most.
pub proof fn found_documents_are_reachable(disk: Disk, root: Seq<char>, i: int)
    requires
        0 <= i < walks::documents(disk, root).len(),
    ensures
        is_reached(
            disk,
            root,
            seq![],
            0,
            (disk.listing)(root),
            walks::documents(disk, root)[i],
        ),
{
    let children = (disk.listing)(root);
    let left = index::backwards(children, children.len());
    collecting_is_reaching(disk, root, seq![], 0, left, seq![], i);
    let e = walks::documents(disk, root)[i];
    let names = choose|names: Seq<Seq<char>>| #[trigger]
        leads(disk, root, 0, left, names) && e == entry_at(disk, root, seq![], names);
    leads_backwards(disk, root, 0, children, names);
}

// Titles.

/// Whether a line is a heading of the first level, with its text.
pub open spec fn is_title_line(line: Seq<char>, title: Seq<char>) -> bool {
    exists|rest: Seq<char>|
        #![trigger strings::trimmed(rest)]
        strings::trimmed(line) == seq!['#', ' '] + rest && strings::trimmed(rest) == title
}

proof fn headings_are_title_lines(line: Seq<char>)
    ensures
        match index::heading_of(line) {
            Some(t) => is_title_line(line, t),
            None => forall|t: Seq<char>| !is_title_line(line, t),
        },
{
    reveal_strlit("# ");
    assert("# "@ =~= seq!['#', ' ']);
    let l = strings::trimmed(line);
    if strings::stands_at(l, "# "@, 0) {
        let rest = l.skip(2);
        assert(l =~= seq!['#', ' '] + rest) by {
            assert(l.subrange(0, 2) =~= seq!['#', ' ']);
            assert(l =~= l.subrange(0, 2) + rest);
        }
        assert(is_title_line(line, strings::trimmed(rest)));
    } else {
        assert forall|t: Seq<char>| !is_title_line(line, t) by {
            if is_title_line(line, t) {
                let rest = choose|rest: Seq<char>|
                    #![trigger strings::trimmed(rest)]
                    l == seq!['#', ' '] + rest && strings::trimmed(rest) == t;
                assert(l.subrange(0, 2) =~= "# "@);
            }
        }
    }
}

/// Whether a line is the first of thirty that is a heading of the first level.
pub open spec fn is_first_title(lines: Seq<Seq<char>>, k: int, title: Seq<char>) -> bool {
    &&& 0 <= k < lines.len()
    &&& k < 30
    &&& is_title_line(lines[k], title)
    &&& forall|j: int, t: Seq<char>|
        #![trigger is_title_line(lines[j], t)]
        0 <= j < k ==> !is_title_line(lines[j], t)
}

proof fn first_titles(lines: Seq<Seq<char>>, from: int)
    requires
        0 <= from <= lines.len(),
        forall|j: int, t: Seq<char>|
            #![trigger is_title_line(lines[j], t)]
            0 <= j < from ==> !is_title_line(lines[j], t),
    ensures
        match index::heading_in(lines, from) {
            Some(t) => exists|k: int| #[trigger] is_first_title(lines, k, t),
            None => forall|j: int, t: Seq<char>|
                #![trigger is_title_line(lines[j], t)]
                0 <= j < lines.len() && j < 30 ==> !is_title_line(lines[j], t),
        },
    decreases lines.len() - from,
{
    if from < lines.len() && from < 30 {
        headings_are_title_lines(lines[from]);
        match index::heading_of(lines[from]) {
            Some(t) => {
                assert(is_first_title(lines, from, t));
            },
            None => {
                first_titles(lines, from + 1);
            },
        }
    }
}

/// The title of a document is the text of the first heading of the first level among
/// its first thirty lines; it has none where there is no such heading or it is empty.
pub proof fn titles_are_first_headings(ls: Seq<Seq<char>>)
    requires
        forall|i: int| 0 <= i < ls.len() ==> crate::coding::is_line(#[trigger] ls[i]),
    ensures
        match index::title_in(crate::coding::ended(ls)) {
            Some(t) => t.len() > 0 && exists|k: int| #[trigger] is_first_title(ls, k, t),
            None => {
                ||| exists|k: int| #[trigger] is_first_title(ls, k, seq![])
                ||| forall|j: int, t: Seq<char>|
                    #![trigger is_title_line(ls[j], t)]
                    0 <= j < ls.len() && j < 30 ==> !is_title_line(ls[j], t)
            },
        },
{
    crate::coding::lines_come_apart(ls, seq![]);
    first_titles(ls, 0);
    if let Some(t) = index::heading_in(ls, 0) {
        if t.len() == 0 {
            assert(t =~= seq![]);
        }
    }
}

} // verus!
