//! What a whole tree of rows keeps: the documents that its folders count, and the
//! order of what stands in one folder.

use vstd::prelude::*;
use crate::order;
use crate::strings;
use crate::tree;
use crate::tree::{FolderView, NodeView, SubView};

verus! {

/// The row behind the last that stands below row `k`, at or after `from`: the
/// first that is no deeper than it.
pub open spec fn end_of(rs: Seq<NodeView>, k: int, from: int) -> int
    decreases rs.len() - from,
{
    if from >= rs.len() || rs[from].depth <= rs[k].depth {
        from
    } else {
        end_of(rs, k, from + 1)
    }
}

/// The rows below row `k`.
pub open spec fn below(rs: Seq<NodeView>, k: int) -> Seq<NodeView> {
    rs.subrange(k + 1, end_of(rs, k, k + 1))
}

/// Whether a folder counts the document rows below it, and a document itself.
pub open spec fn counted_row(rs: Seq<NodeView>, k: int) -> bool {
    rs[k].doc_count == (if rs[k].is_dir {
        tree::doc_rows(below(rs, k))
    } else {
        1
    })
}

/// Whether every row has the count of its documents.
pub open spec fn counted(rs: Seq<NodeView>) -> bool {
    forall|k: int| 0 <= k < rs.len() ==> #[trigger] counted_row(rs, k)
}

proof fn end_of_bounds(rs: Seq<NodeView>, k: int, from: int)
    requires
        0 <= from <= rs.len(),
    ensures
        from <= end_of(rs, k, from) <= rs.len(),
    decreases rs.len() - from,
{
    if from < rs.len() && rs[from].depth > rs[k].depth {
        end_of_bounds(rs, k, from + 1);
    }
}

/// Rows that follow, the first no deeper than row `k`, are not below it.
proof fn end_stays(a: Seq<NodeView>, b: Seq<NodeView>, k: int, from: int)
    requires
        0 <= k < from <= a.len(),
        b.len() > 0 ==> b[0].depth <= a[k].depth,
    ensures
        end_of(a + b, k, from) == end_of(a, k, from),
    decreases a.len() - from,
{
    if from < a.len() {
        assert((a + b)[from] == a[from]);
        if a[from].depth > a[k].depth {
            end_stays(a, b, k, from + 1);
        }
    } else if b.len() > 0 {
        assert((a + b)[from] == b[0]);
    }
}

/// Rows in front move the end of what is below a row.
proof fn end_moves(a: Seq<NodeView>, b: Seq<NodeView>, k: int, from: int)
    requires
        0 <= k < from <= b.len(),
    ensures
        end_of(a + b, a.len() + k, a.len() + from) == a.len() + end_of(b, k, from),
    decreases b.len() - from,
{
    if from < b.len() {
        assert((a + b)[a.len() + from] == b[from]);
        if b[from].depth > b[k].depth {
            end_moves(a, b, k, from + 1);
        }
    }
}

proof fn all_below(rs: Seq<NodeView>, k: int, from: int)
    requires
        0 <= k < from <= rs.len(),
        forall|m: int| from <= m < rs.len() ==> (#[trigger] rs[m]).depth > rs[k].depth,
    ensures
        end_of(rs, k, from) == rs.len(),
    decreases rs.len() - from,
{
    if from < rs.len() {
        all_below(rs, k, from + 1);
    }
}

proof fn counting_joins(a: Seq<NodeView>, b: Seq<NodeView>)
    requires
        counted(a),
        counted(b),
        b.len() > 0 ==> forall|k: int|
            0 <= k < a.len() ==> b[0].depth <= (#[trigger] a[k]).depth,
    ensures
        counted(a + b),
{
    let r = a + b;
    assert forall|k: int| 0 <= k < r.len() implies #[trigger] counted_row(r, k) by {
        if k < a.len() {
            assert(counted_row(a, k));
            assert(r[k] == a[k]);
            end_stays(a, b, k, k + 1);
            end_of_bounds(a, k, k + 1);
            assert(below(r, k) =~= below(a, k));
        } else {
            let j = k - a.len();
            assert(counted_row(b, j));
            assert(r[k] == b[j]);
            end_moves(a, b, j, j + 1);
            end_of_bounds(b, j, j + 1);
            assert(below(r, k) =~= below(b, j));
        }
    }
}

/// A folder's row with its content below it.
proof fn counting_goes_up(node: NodeView, inside: Seq<NodeView>)
    requires
        node.is_dir,
        node.doc_count == tree::doc_rows(inside),
        forall|k: int| 0 <= k < inside.len() ==> (#[trigger] inside[k]).depth > node.depth,
        counted(inside),
    ensures
        counted(seq![node] + inside),
{
    let a = seq![node];
    let r = a + inside;
    assert forall|k: int| 0 <= k < r.len() implies #[trigger] counted_row(r, k) by {
        if k == 0 {
            assert forall|m: int| 1 <= m < r.len() implies (#[trigger] r[m]).depth
                > r[0].depth by {
                assert(r[m] == inside[m - 1]);
            }
            all_below(r, 0, 1);
            assert(below(r, 0) =~= inside);
        } else {
            let j = k - 1;
            assert(counted_row(inside, j));
            assert(r[k] == inside[j]);
            end_moves(a, inside, j, j + 1);
            end_of_bounds(inside, j, j + 1);
            assert(below(r, k) =~= below(inside, j));
        }
    }
}

proof fn rows_count(f: FolderView, prefix: Seq<char>, depth: nat, parent: Option<nat>, start: nat)
    ensures
        counted(tree::rows(f, prefix, depth, parent, start)),
    decreases f, 1nat, 0nat,
{
    let a = tree::sub_rows(f, f.subs.len(), prefix, depth, parent, start);
    let b = tree::file_rows(f, prefix, depth, parent);
    sub_rows_count(f, f.subs.len(), prefix, depth, parent, start);
    tree::sub_rows_nest(f, f.subs.len(), prefix, depth, parent, start);
    assert forall|k: int| 0 <= k < a.len() implies (#[trigger] a[k]).depth >= depth by {
        tree::nested_rows_are_deep(a, depth, parent, start, k);
    }
    assert forall|k: int| 0 <= k < b.len() implies #[trigger] counted_row(b, k) by {}
    counting_joins(a, b);
}

proof fn sub_rows_count(
    f: FolderView,
    n: nat,
    prefix: Seq<char>,
    depth: nat,
    parent: Option<nat>,
    start: nat,
)
    requires
        n <= f.subs.len(),
    ensures
        counted(tree::sub_rows(f, n, prefix, depth, parent, start)),
    decreases f, 0nat, n,
{
    if n > 0 {
        let before = tree::sub_rows(f, (n - 1) as nat, prefix, depth, parent, start);
        sub_rows_count(f, (n - 1) as nat, prefix, depth, parent, start);
        tree::sub_rows_nest(f, (n - 1) as nat, prefix, depth, parent, start);
        assert forall|k: int| 0 <= k < before.len() implies (#[trigger] before[k]).depth
            >= depth by {
            tree::nested_rows_are_deep(before, depth, parent, start, k);
        }
        let s = f.subs[n - 1];
        let me = start + before.len();
        let rel = tree::child_rel(prefix, s.name);
        let inside = tree::rows(s.folder, rel, depth + 1, Some(me), me + 1);
        rows_count(s.folder, rel, depth + 1, Some(me), me + 1);
        tree::rows_count_docs(s.folder, rel, depth + 1, Some(me), me + 1);
        tree::rows_nest(s.folder, rel, depth + 1, Some(me), me + 1);
        assert forall|k: int| 0 <= k < inside.len() implies (#[trigger] inside[k]).depth
            > depth by {
            tree::nested_rows_are_deep(inside, depth + 1, Some(me), me + 1, k);
        }
        let r = tree::sub_rows(f, n, prefix, depth, parent, start);
        let node = r[before.len() as int];
        counting_goes_up(node, inside);
        let b = seq![node] + inside;
        counting_joins(before, b);
        assert(r =~= before + b);
    }
}

/// A folder's row counts the document rows below it: those that follow it up to
/// the first row that is no deeper. A document counts as one.
pub proof fn folders_count_their_documents(rels: Seq<Seq<char>>)
    ensures
        counted(tree::tree_rows(rels)),
{
    rows_count(tree::folder_of(rels, rels.len()), seq![], 0, None, 0);
}

// The order of what stands in one folder.

/// A subfolder's name with its lowercase form.
spec fn sub_name(s: SubView) -> order::Keyed {
    (s.name, s.key)
}

/// Whether the subfolders at every level are in order, each name once.
spec fn tidy(f: FolderView) -> bool
    decreases f, 1nat, 0nat,
{
    subs_sorted(f.subs) && subs_tidy(f, f.subs.len())
}

spec fn subs_sorted(subs: Seq<SubView>) -> bool {
    &&& forall|i: int, j: int|
        0 <= i < j < subs.len() ==> order::key_first(
            sub_name(#[trigger] subs[i]),
            sub_name(#[trigger] subs[j]),
        )
    &&& forall|i: int|
        0 <= i < subs.len() ==> (#[trigger] subs[i]).key == order::lower_text(subs[i].name)
}

spec fn subs_tidy(f: FolderView, n: nat) -> bool
    decreases f, 0nat, n,
{
    if n == 0 || n > f.subs.len() {
        true
    } else {
        subs_tidy(f, (n - 1) as nat) && tidy(f.subs[n - 1].folder)
    }
}

proof fn subs_tidy_each(f: FolderView, n: nat, k: int)
    requires
        0 <= k < n <= f.subs.len(),
        subs_tidy(f, n),
    ensures
        tidy(f.subs[k].folder),
    decreases n,
{
    if k < n - 1 {
        subs_tidy_each(f, (n - 1) as nat, k);
    }
}

proof fn subs_tidy_all(f: FolderView, n: nat)
    requires
        n <= f.subs.len(),
        forall|k: int| 0 <= k < n ==> tidy((#[trigger] f.subs[k]).folder),
    ensures
        subs_tidy(f, n),
    decreases n,
{
    if n > 0 {
        subs_tidy_all(f, (n - 1) as nat);
        assert(tidy(f.subs[n - 1].folder));
    }
}

/// What stands in front of a name's place comes before it; what stands there does
/// not.
proof fn sub_place_sorts(subs: Seq<SubView>, name: order::Keyed, from: int)
    requires
        0 <= from <= subs.len(),
        forall|j: int| 0 <= j < from ==> order::key_first(sub_name(#[trigger] subs[j]), name),
    ensures
        0 <= tree::sub_place(subs, name, from) <= subs.len(),
        forall|j: int|
            0 <= j < tree::sub_place(subs, name, from) ==> order::key_first(
                sub_name(#[trigger] subs[j]),
                name,
            ),
        tree::sub_place(subs, name, from) < subs.len() ==> !order::key_first(
            sub_name(subs[tree::sub_place(subs, name, from)]),
            name,
        ),
    decreases subs.len() - from,
{
    if from < subs.len() && order::key_first((subs[from].name, subs[from].key), name) {
        sub_place_sorts(subs, name, from + 1);
    }
}

proof fn inserting_is_tidy(f: FolderView, parts: Seq<Seq<char>>, entry: nat)
    requires
        tidy(f),
    ensures
        tidy(tree::inserted(f, parts, entry)),
    decreases parts.len(),
{
    let g = tree::inserted(f, parts, entry);
    if parts.len() == 0 {
    } else if parts.len() == 1 {
        assert forall|k: int| 0 <= k < g.subs.len() implies tidy((#[trigger] g.subs[k]).folder) by {
            subs_tidy_each(f, f.subs.len(), k);
        }
        subs_tidy_all(g, g.subs.len());
    } else {
        let key = order::lower_text(parts[0]);
        let name = (parts[0], key);
        let i = tree::sub_place(f.subs, name, 0);
        sub_place_sorts(f.subs, name, 0);
        let rest = parts.skip(1);
        let met = i < f.subs.len() && f.subs[i].name == parts[0];
        let inner = if met {
            f.subs[i].folder
        } else {
            tree::empty_folder()
        };
        if met {
            subs_tidy_each(f, f.subs.len(), i);
        }
        assert(tidy(tree::empty_folder()));
        inserting_is_tidy(inner, rest, entry);
        assert forall|k: int| 0 <= k < g.subs.len() implies tidy((#[trigger] g.subs[k]).folder) by {
            if k < i {
                assert(g.subs[k] == f.subs[k]);
                subs_tidy_each(f, f.subs.len(), k);
            } else if k > i {
                if met {
                    assert(g.subs[k] == f.subs[k]);
                    subs_tidy_each(f, f.subs.len(), k);
                } else {
                    assert(g.subs[k] == f.subs[k - 1]);
                    subs_tidy_each(f, f.subs.len(), k - 1);
                }
            }
        }
        subs_tidy_all(g, g.subs.len());
        if met {
            assert forall|a: int, b: int| 0 <= a < b < g.subs.len() implies order::key_first(
                sub_name(#[trigger] g.subs[a]),
                sub_name(#[trigger] g.subs[b]),
            ) by {
                assert(sub_name(g.subs[a]) == sub_name(f.subs[a]));
                assert(sub_name(g.subs[b]) == sub_name(f.subs[b]));
            }
            assert forall|k: int| 0 <= k < g.subs.len() implies (#[trigger] g.subs[k]).key
                == order::lower_text(g.subs[k].name) by {
                assert(sub_name(g.subs[k]) == sub_name(f.subs[k]));
            }
        } else {
            inserting_sorts(f.subs, g.subs[i], i);
        }
    }
}

proof fn inserting_sorts(subs: Seq<SubView>, s: SubView, i: int)
    requires
        subs_sorted(subs),
        s.key == order::lower_text(s.name),
        0 <= i <= subs.len(),
        forall|j: int| 0 <= j < i ==> order::key_first(sub_name(#[trigger] subs[j]), sub_name(s)),
        i < subs.len() ==> subs[i].name != s.name && !order::key_first(
            sub_name(subs[i]),
            sub_name(s),
        ),
    ensures
        subs_sorted(subs.insert(i, s)),
{
    let g = subs.insert(i, s);
    if i < subs.len() {
        order::names_are_told_apart(sub_name(subs[i]), sub_name(s));
    }
    assert forall|b: int| i <= b < subs.len() implies order::key_first(
        sub_name(s),
        sub_name(#[trigger] subs[b]),
    ) by {
        if b > i {
            order::names_are_chained(sub_name(s), sub_name(subs[i]), sub_name(subs[b]));
        }
    }
    assert forall|k: int| 0 <= k < g.len() implies #[trigger] g[k] == (if k < i {
        subs[k]
    } else if k == i {
        s
    } else {
        subs[k - 1]
    }) by {}
    assert forall|a: int, b: int| 0 <= a < b < g.len() implies order::key_first(
        sub_name(#[trigger] g[a]),
        sub_name(#[trigger] g[b]),
    ) by {}
}

proof fn listings_are_tidy(rels: Seq<Seq<char>>, n: nat)
    requires
        n <= rels.len(),
    ensures
        tidy(tree::folder_of(rels, n)),
    decreases n,
{
    if n > 0 {
        listings_are_tidy(rels, (n - 1) as nat);
        inserting_is_tidy(
            tree::folder_of(rels, (n - 1) as nat),
            strings::split_from(rels[n - 1], '/', 0),
            (n - 1) as nat,
        );
    }
}

/// Whether two rows of one folder may stand in this order: folders before
/// documents, folders by their names, each once, and documents by their names.
pub open spec fn in_turn(a: NodeView, b: NodeView) -> bool {
    if a.is_dir {
        b.is_dir ==> order::comes_first(a.name, b.name)
    } else {
        !b.is_dir && !order::comes_first(b.name, a.name)
    }
}

/// Whether all rows of one folder stand in order.
pub open spec fn siblings_in_turn(rs: Seq<NodeView>) -> bool {
    forall|i: int, j: int|
        0 <= i < j < rs.len() && (#[trigger] rs[i]).parent == (#[trigger] rs[j]).parent ==> in_turn(
            rs[i],
            rs[j],
        )
}

/// Whether rows, the first of which is row `start`, come after their parent.
spec fn parent_before(parent: Option<nat>, start: nat) -> bool {
    parent matches Some(p) ==> p < start
}

/// Whether the rows below `parent` are those of the first `n` subfolders.
spec fn tops_are_subs(rs: Seq<NodeView>, f: FolderView, n: nat, parent: Option<nat>) -> bool {
    forall|k: int|
        0 <= k < rs.len() && (#[trigger] rs[k]).parent == parent ==> rs[k].is_dir && exists|m: int|
            0 <= m < n && rs[k].name == (#[trigger] f.subs[m]).name
}

proof fn rows_are_in_turn(
    f: FolderView,
    prefix: Seq<char>,
    depth: nat,
    parent: Option<nat>,
    start: nat,
)
    requires
        tidy(f),
        parent_before(parent, start),
    ensures
        siblings_in_turn(tree::rows(f, prefix, depth, parent, start)),
    decreases f, 1nat, 0nat,
{
    let a = tree::sub_rows(f, f.subs.len(), prefix, depth, parent, start);
    let b = tree::file_rows(f, prefix, depth, parent);
    let r = tree::rows(f, prefix, depth, parent, start);
    sub_rows_are_in_turn(f, f.subs.len(), prefix, depth, parent, start);
    let keys = order::keyed(tree::file_names(f.files));
    let o = order::order_of(tree::file_names(f.files));
    order::ordering_sorts(keys, f.files.len());
    assert forall|i: int, j: int|
        0 <= i < j < r.len() && (#[trigger] r[i]).parent == (#[trigger] r[j]).parent implies in_turn(
        r[i],
        r[j],
    ) by {
        if j < a.len() {
            assert(r[i] == a[i] && r[j] == a[j]);
        } else if i < a.len() {
            assert(r[i] == a[i] && r[j] == b[j - a.len()]);
        } else {
            let x = i - a.len();
            let y = j - a.len();
            assert(r[i] == b[x] && r[j] == b[y]);
            assert(!order::key_first(keys[o[y]], keys[o[x]]));
        }
    }
}

proof fn sub_rows_are_in_turn(
    f: FolderView,
    n: nat,
    prefix: Seq<char>,
    depth: nat,
    parent: Option<nat>,
    start: nat,
)
    requires
        n <= f.subs.len(),
        tidy(f),
        parent_before(parent, start),
    ensures
        siblings_in_turn(tree::sub_rows(f, n, prefix, depth, parent, start)),
        tops_are_subs(tree::sub_rows(f, n, prefix, depth, parent, start), f, n, parent),
    decreases f, 0nat, n,
{
    let r = tree::sub_rows(f, n, prefix, depth, parent, start);
    if n > 0 {
        let before = tree::sub_rows(f, (n - 1) as nat, prefix, depth, parent, start);
        sub_rows_are_in_turn(f, (n - 1) as nat, prefix, depth, parent, start);
        tree::sub_rows_nest(f, (n - 1) as nat, prefix, depth, parent, start);
        let s = f.subs[n - 1];
        let me = start + before.len();
        let rel = tree::child_rel(prefix, s.name);
        let inside = tree::rows(s.folder, rel, depth + 1, Some(me), me + 1);
        subs_tidy_each(f, f.subs.len(), n - 1);
        rows_are_in_turn(s.folder, rel, depth + 1, Some(me), me + 1);
        tree::rows_nest(s.folder, rel, depth + 1, Some(me), me + 1);
        let at = before.len() as int;
        assert forall|k: int| 0 <= k < at implies #[trigger] r[k] == before[k] && (r[k].parent
            == parent || (r[k].parent is Some && r[k].parent->0 < me)) by {
            assert(tree::nested_row(before, depth, parent, start, k));
        }
        assert forall|k: int| at < k < r.len() implies #[trigger] r[k] == inside[k - at - 1] && (
        r[k].parent is Some && r[k].parent->0 >= me) by {
            assert(tree::nested_row(inside, depth + 1, Some(me), me + 1, k - at - 1));
        }
        assert(r[at].parent == parent && r[at].is_dir && r[at].name == s.name);
        assert forall|i: int, j: int|
            0 <= i < j < r.len() && (#[trigger] r[i]).parent
                == (#[trigger] r[j]).parent implies in_turn(r[i], r[j]) by {
            if j < at {
                assert(r[i] == before[i] && r[j] == before[j]);
            } else if j == at {
                assert(r[i] == before[i]);
                let m = choose|m: int|
                    0 <= m < n - 1 && before[i].name == (#[trigger] f.subs[m]).name;
                assert(order::key_first(sub_name(f.subs[m]), sub_name(f.subs[n - 1])));
            } else if i > at {
                assert(r[i] == inside[i - at - 1] && r[j] == inside[j - at - 1]);
            }
        }
        assert forall|k: int| 0 <= k < r.len() && (#[trigger] r[k]).parent == parent implies
            r[k].is_dir && exists|m: int| 0 <= m < n && r[k].name == (#[trigger] f.subs[m]).name by {
            if k < at {
                assert(r[k] == before[k]);
                let m = choose|m: int|
                    0 <= m < n - 1 && before[k].name == (#[trigger] f.subs[m]).name;
                assert(r[k].name == f.subs[m].name);
            } else if k == at {
                assert(r[k].name == f.subs[n - 1].name);
            }
        }
    }
}

/// What stands in one folder is in order: its folders first, by their names, each
/// once, and then its documents, by theirs. Names go by their lowercase forms, and
/// by themselves where those are the same.
pub proof fn folders_are_in_order(rels: Seq<Seq<char>>)
    ensures
        siblings_in_turn(tree::tree_rows(rels)),
{
    listings_are_tidy(rels, rels.len());
    rows_are_in_turn(tree::folder_of(rels, rels.len()), seq![], 0, None, 0);
}

} // verus!
