//! The tree rows of a directory listing.

use vstd::prelude::*;
use crate::order;
use crate::order::{first_of, lowercase_text, ordered};
use crate::strings;
use crate::strings::{str_eq, to_chars};

verus! {

broadcast use strings::group_views;

/// One row of the directory tree: a folder or a document, in depth-first
/// order with folders before files at each level (the way file explorers
/// lay things out).
#[derive(Debug)]
pub struct Node {
    pub name: String,
    /// `/`-separated path relative to the root (folders have no trailing slash).
    pub rel: String,
    pub depth: usize,
    pub parent: Option<usize>,
    pub is_dir: bool,
    /// Index into `DirIndex::entries` for documents.
    pub entry: Option<usize>,
    /// Documents anywhere underneath a folder.
    pub doc_count: usize,
}

#[verifier::ext_equal]
pub struct NodeView {
    pub name: Seq<char>,
    pub rel: Seq<char>,
    pub depth: nat,
    pub parent: Option<nat>,
    pub is_dir: bool,
    pub entry: Option<nat>,
    pub doc_count: nat,
}

/// An optional number, as a mathematical one.
pub open spec fn opt_nat(n: Option<usize>) -> Option<nat> {
    match n {
        Some(i) => Some(i as nat),
        None => None,
    }
}

impl View for Node {
    type V = NodeView;

    open spec fn view(&self) -> NodeView {
        NodeView {
            name: self.name@,
            rel: self.rel@,
            depth: self.depth as nat,
            parent: opt_nat(self.parent),
            is_dir: self.is_dir,
            entry: opt_nat(self.entry),
            doc_count: self.doc_count as nat,
        }
    }
}

impl Clone for Node {
    fn clone(&self) -> (r: Node)
        ensures
            r@ == self@,
    {
        Node {
            name: self.name.clone(),
            rel: self.rel.clone(),
            depth: self.depth,
            parent: self.parent,
            is_dir: self.is_dir,
            entry: self.entry,
            doc_count: self.doc_count,
        }
    }
}

/// A folder: its subfolders, in the order of names, and its files.
pub struct Folder {
    pub subs: Vec<Sub>,
    pub files: Vec<(String, usize)>,
}

/// A subfolder, with the lowercase form of its name, which it is ordered by.
pub struct Sub {
    pub key: String,
    pub name: String,
    pub folder: Folder,
}

pub struct FolderView {
    pub subs: Seq<SubView>,
    pub files: Seq<(Seq<char>, nat)>,
}

pub struct SubView {
    pub key: Seq<char>,
    pub name: Seq<char>,
    pub folder: FolderView,
}

/// A folder with nothing in it.
pub open spec fn empty_folder() -> FolderView {
    FolderView { subs: seq![], files: seq![] }
}

/// The documents anywhere underneath a folder.
pub open spec fn docs(f: FolderView) -> nat
    decreases f, 1nat, 0nat,
{
    docs_in(f, f.subs.len()) + f.files.len()
}

/// The documents anywhere underneath the first `n` subfolders.
pub open spec fn docs_in(f: FolderView, n: nat) -> nat
    decreases f, 0nat, n,
{
    if n == 0 || n > f.subs.len() {
        0
    } else {
        docs_in(f, (n - 1) as nat) + docs(f.subs[n - 1].folder)
    }
}

/// How many levels of subfolders there are underneath a folder.
pub open spec fn height(f: FolderView) -> nat
    decreases f, 1nat, 0nat,
{
    height_in(f, f.subs.len())
}

pub open spec fn height_in(f: FolderView, n: nat) -> nat
    decreases f, 0nat, n,
{
    if n == 0 || n > f.subs.len() {
        0
    } else {
        let before = height_in(f, (n - 1) as nat);
        let h = height(f.subs[n - 1].folder) + 1;
        if h > before {
            h
        } else {
            before
        }
    }
}

/// Where a subfolder of a name, given with its lowercase form, stands or would
/// stand, at or after `from`.
pub open spec fn sub_place(subs: Seq<SubView>, name: order::Keyed, from: int) -> int
    decreases subs.len() - from,
{
    if from >= subs.len() || !order::key_first((subs[from].name, subs[from].key), name) {
        from
    } else {
        sub_place(subs, name, from + 1)
    }
}

/// A folder with one more document, whose path below it is given in parts.
pub open spec fn inserted(f: FolderView, parts: Seq<Seq<char>>, entry: nat) -> FolderView
    decreases parts.len(),
{
    if parts.len() == 0 {
        f
    } else if parts.len() == 1 {
        FolderView { files: f.files.push((parts[0], entry)), ..f }
    } else {
        let key = order::lower_text(parts[0]);
        let i = sub_place(f.subs, (parts[0], key), 0);
        let rest = parts.skip(1);
        if i < f.subs.len() && f.subs[i].name == parts[0] {
            let s = f.subs[i];
            FolderView {
                subs: f.subs.update(i, SubView { folder: inserted(s.folder, rest, entry), ..s }),
                ..f
            }
        } else {
            let s = SubView {
                key,
                name: parts[0],
                folder: inserted(empty_folder(), rest, entry),
            };
            FolderView { subs: f.subs.insert(i, s), ..f }
        }
    }
}

/// The path of a child of a folder.
pub open spec fn child_rel(prefix: Seq<char>, name: Seq<char>) -> Seq<char> {
    if prefix.len() == 0 {
        name
    } else {
        prefix + "/"@ + name
    }
}

/// The names of files.
pub open spec fn file_names(files: Seq<(Seq<char>, nat)>) -> Seq<Seq<char>> {
    files.map_values(|f: (Seq<char>, nat)| f.0)
}

/// The row of a document.
pub open spec fn file_node(
    file: (Seq<char>, nat),
    prefix: Seq<char>,
    depth: nat,
    parent: Option<nat>,
) -> NodeView {
    NodeView {
        name: file.0,
        rel: child_rel(prefix, file.0),
        depth,
        parent,
        is_dir: false,
        entry: Some(file.1),
        doc_count: 1,
    }
}

/// The rows of the files of a folder, in order.
pub open spec fn file_rows(
    f: FolderView,
    prefix: Seq<char>,
    depth: nat,
    parent: Option<nat>,
) -> Seq<NodeView> {
    order::order_of(file_names(f.files)).map_values(
        |i: int| file_node(f.files[i], prefix, depth, parent),
    )
}

/// The rows of a folder's content, the first of which is row `start`.
pub open spec fn rows(
    f: FolderView,
    prefix: Seq<char>,
    depth: nat,
    parent: Option<nat>,
    start: nat,
) -> Seq<NodeView>
    decreases f, 1nat, 0nat,
{
    sub_rows(f, f.subs.len(), prefix, depth, parent, start) + file_rows(f, prefix, depth, parent)
}

/// The rows of the first `n` subfolders, each with its content below it.
pub open spec fn sub_rows(
    f: FolderView,
    n: nat,
    prefix: Seq<char>,
    depth: nat,
    parent: Option<nat>,
    start: nat,
) -> Seq<NodeView>
    decreases f, 0nat, n,
{
    if n == 0 || n > f.subs.len() {
        seq![]
    } else {
        let before = sub_rows(f, (n - 1) as nat, prefix, depth, parent, start);
        let s = f.subs[n - 1];
        let me = start + before.len();
        let rel = child_rel(prefix, s.name);
        let node = NodeView {
            name: s.name,
            rel,
            depth,
            parent,
            is_dir: true,
            entry: None,
            doc_count: docs(s.folder),
        };
        before.push(node) + rows(s.folder, rel, depth + 1, Some(me), me + 1)
    }
}

/// The folder that holds the first `n` documents of a listing.
pub open spec fn folder_of(rels: Seq<Seq<char>>, n: nat) -> FolderView
    decreases n,
{
    if n == 0 {
        empty_folder()
    } else {
        inserted(
            folder_of(rels, (n - 1) as nat),
            strings::split_from(rels[n - 1], '/', 0),
            (n - 1) as nat,
        )
    }
}

/// The tree rows of a listing of documents, given by their relative paths.
pub open spec fn tree_rows(rels: Seq<Seq<char>>) -> Seq<NodeView> {
    rows(folder_of(rels, rels.len()), seq![], 0, None, 0)
}

/// The view of a folder.
pub open spec fn folder_view(f: Folder) -> FolderView
    decreases f, 1nat, 0nat,
{
    FolderView {
        subs: subs_view(f, f.subs@.len()),
        files: f.files@.map_values(|x: (String, usize)| (x.0@, x.1 as nat)),
    }
}

pub open spec fn subs_view(f: Folder, n: nat) -> Seq<SubView>
    decreases f, 0nat, n,
{
    if n == 0 || n > f.subs@.len() {
        seq![]
    } else {
        let s = f.subs@[n - 1];
        subs_view(f, (n - 1) as nat).push(
            SubView { key: s.key@, name: s.name@, folder: folder_view(s.folder) },
        )
    }
}

/// The view of a subfolder.
pub open spec fn sub_view(s: Sub) -> SubView {
    SubView { key: s.key@, name: s.name@, folder: folder_view(s.folder) }
}

proof fn subs_view_elements(f: Folder, n: nat)
    requires
        n <= f.subs@.len(),
    ensures
        subs_view(f, n).len() == n,
        forall|i: int| 0 <= i < n ==> #[trigger] subs_view(f, n)[i] == sub_view(f.subs@[i]),
    decreases n,
{
    if n > 0 {
        subs_view_elements(f, (n - 1) as nat);
    }
}

/// The subfolders of a folder, each by its view.
proof fn folder_view_subs(f: Folder)
    ensures
        folder_view(f).subs.len() == f.subs@.len(),
        forall|i: int|
            0 <= i < f.subs@.len() ==> #[trigger] folder_view(f).subs[i] == sub_view(f.subs@[i]),
{
    subs_view_elements(f, f.subs@.len());
}

proof fn sub_place_bounds(subs: Seq<SubView>, name: order::Keyed, from: int)
    requires
        0 <= from <= subs.len(),
    ensures
        from <= sub_place(subs, name, from) <= subs.len(),
    decreases subs.len() - from,
{
    if from < subs.len() && order::key_first((subs[from].name, subs[from].key), name) {
        sub_place_bounds(subs, name, from + 1);
    }
}

fn find_sub(f: &Folder, name: &str, key: &str) -> (r: usize)
    ensures
        r == sub_place(folder_view(*f).subs, (name@, key@), 0),
        r <= f.subs@.len(),
{
    let ghost subs = folder_view(*f).subs;
    let wanted = to_chars(name);
    let wanted_key = to_chars(key);
    let mut i: usize = 0;
    proof {
        folder_view_subs(*f);
    }
    while i < f.subs.len()
        invariant
            i <= f.subs@.len(),
            subs == folder_view(*f).subs,
            subs.len() == f.subs@.len(),
            forall|i: int| 0 <= i < f.subs@.len() ==> #[trigger] subs[i] == sub_view(f.subs@[i]),
            wanted@ == name@,
            wanted_key@ == key@,
            sub_place(subs, (name@, key@), 0) == sub_place(subs, (name@, key@), i as int),
        decreases f.subs@.len() - i,
    {
        assert(subs[i as int] == sub_view(f.subs@[i as int]));
        let n = to_chars(f.subs[i].name.as_str());
        let k = to_chars(f.subs[i].key.as_str());
        if !first_of(&n, &k, &wanted, &wanted_key) {
            return i;
        }
        i = i + 1;
    }
    i
}

fn empty() -> (r: Folder)
    ensures
        folder_view(r) == empty_folder(),
{
    let r = Folder { subs: Vec::new(), files: Vec::new() };
    assert(folder_view(r).files =~= seq![]);
    assert(folder_view(r).subs =~= seq![]);
    r
}

/// A folder with one more document, whose path below it is `parts[at..]`.
fn insert(f: Folder, parts: &Vec<String>, at: usize, entry: usize) -> (r: Folder)
    requires
        at <= parts@.len(),
    ensures
        folder_view(r) == inserted(
            folder_view(f),
            strings::views(parts@).skip(at as int),
            entry as nat,
        ),
    decreases parts@.len() - at,
{
    let ghost ps = strings::views(parts@).skip(at as int);
    let ghost fv = folder_view(f);
    let n: usize = parts.len();
    if at == n {
        return f;
    }
    assert(ps[0] == parts@[at as int]@);
    let name = parts[at].as_str();
    let mut subs = f.subs;
    let mut files = f.files;
    if n - at == 1 {
        files.push((name.to_owned(), entry));
        let r = Folder { subs, files };
        proof {
            folder_view_subs(f);
            folder_view_subs(r);
            assert(folder_view(r).subs =~= fv.subs);
            assert(folder_view(r).files =~= fv.files.push((name@, entry as nat)));
        }
        return r;
    }
    let key = lowercase_text(name);
    let whole = Folder { subs, files };
    let i: usize = find_sub(&whole, name, key.as_str());
    let Folder { subs: mut rest_subs, files } = whole;
    assert(ps.skip(1) =~= strings::views(parts@).skip(at + 1));
    proof {
        folder_view_subs(f);
    }
    if i < rest_subs.len() && str_eq(rest_subs[i].name.as_str(), name) {
        assert(fv.subs[i as int] == sub_view(f.subs@[i as int]));
        let s = rest_subs.remove(i);
        let folder = insert(s.folder, parts, at + 1, entry);
        let t = Sub { key: s.key, name: s.name, folder };
        let ghost tv = sub_view(t);
        rest_subs.insert(i, t);
        let r = Folder { subs: rest_subs, files };
        proof {
            folder_view_subs(r);
            assert(folder_view(r).subs =~= fv.subs.update(i as int, tv));
            assert(folder_view(r).files =~= fv.files);
        }
        r
    } else {
        let folder = insert(empty(), parts, at + 1, entry);
        let t = Sub { key, name: name.to_owned(), folder };
        let ghost tv = sub_view(t);
        rest_subs.insert(i, t);
        let r = Folder { subs: rest_subs, files };
        proof {
            folder_view_subs(r);
            assert(folder_view(r).subs =~= fv.subs.insert(i as int, tv));
            assert(folder_view(r).files =~= fv.files);
        }
        r
    }
}

proof fn docs_of_same(f: FolderView, g: FolderView, n: nat)
    requires
        n <= f.subs.len(),
        n <= g.subs.len(),
        forall|k: int| 0 <= k < n ==> f.subs[k] == #[trigger] g.subs[k],
    ensures
        docs_in(f, n) == docs_in(g, n),
    decreases n,
{
    if n > 0 {
        docs_of_same(f, g, (n - 1) as nat);
        assert(f.subs[n - 1] == g.subs[n - 1]);
    }
}

proof fn docs_of_update(f: FolderView, i: int, s: SubView, n: nat)
    requires
        0 <= i < n <= f.subs.len(),
    ensures
        ({
            let g = FolderView { subs: f.subs.update(i, s), ..f };
            docs_in(g, n) + docs(f.subs[i].folder) == docs_in(f, n) + docs(s.folder)
        }),
    decreases n,
{
    let g = FolderView { subs: f.subs.update(i, s), ..f };
    if n == i + 1 {
        docs_of_same(f, g, i as nat);
    } else {
        docs_of_update(f, i, s, (n - 1) as nat);
        assert(g.subs[n - 1] == f.subs[n - 1]);
    }
}

proof fn docs_of_insert(f: FolderView, i: int, s: SubView, n: nat)
    requires
        0 <= i <= n <= f.subs.len(),
    ensures
        ({
            let g = FolderView { subs: f.subs.insert(i, s), ..f };
            docs_in(g, n + 1) == docs_in(f, n) + docs(s.folder)
        }),
    decreases n,
{
    let g = FolderView { subs: f.subs.insert(i, s), ..f };
    if n == i {
        docs_of_same(f, g, i as nat);
        assert(g.subs[i] == s);
    } else {
        docs_of_insert(f, i, s, (n - 1) as nat);
        assert(g.subs[n as int] == f.subs[n - 1]);
    }
}

/// One more document is one document more.
proof fn inserting_adds_one(f: FolderView, parts: Seq<Seq<char>>, entry: nat)
    requires
        parts.len() > 0,
    ensures
        docs(inserted(f, parts, entry)) == docs(f) + 1,
    decreases parts.len(),
{
    let g = inserted(f, parts, entry);
    if parts.len() == 1 {
        docs_of_same(f, g, f.subs.len());
    } else {
        let key = order::lower_text(parts[0]);
        let i = sub_place(f.subs, (parts[0], key), 0);
        sub_place_bounds(f.subs, (parts[0], key), 0);
        let rest = parts.skip(1);
        if i < f.subs.len() && f.subs[i].name == parts[0] {
            let s = f.subs[i];
            inserting_adds_one(s.folder, rest, entry);
            let t = SubView { folder: inserted(s.folder, rest, entry), ..s };
            docs_of_update(f, i, t, f.subs.len());
        } else {
            inserting_adds_one(empty_folder(), rest, entry);
            assert(docs(empty_folder()) == 0);
            let t = SubView {
                key,
                name: parts[0],
                folder: inserted(empty_folder(), rest, entry),
            };
            docs_of_insert(f, i, t, f.subs.len());
        }
    }
}

proof fn height_is_bounded(f: FolderView, n: nat, b: nat)
    requires
        n <= f.subs.len(),
        forall|k: int| 0 <= k < n ==> height((#[trigger] f.subs[k]).folder) + 1 <= b,
    ensures
        height_in(f, n) <= b,
    decreases n,
{
    if n > 0 {
        height_is_bounded(f, (n - 1) as nat, b);
        assert(height(f.subs[n - 1].folder) + 1 <= b);
    }
}

proof fn subs_are_lower(f: FolderView, n: nat, k: int)
    requires
        0 <= k < n <= f.subs.len(),
    ensures
        height(f.subs[k].folder) + 1 <= height_in(f, n),
        docs(f.subs[k].folder) <= docs_in(f, n),
    decreases n,
{
    if k < n - 1 {
        subs_are_lower(f, (n - 1) as nat, k);
    }
}

/// A folder is as deep as the path of what is put into it, at most.
proof fn inserting_deepens(f: FolderView, parts: Seq<Seq<char>>, entry: nat, b: nat)
    requires
        height(f) <= b,
        parts.len() <= b + 1,
    ensures
        height(inserted(f, parts, entry)) <= b,
    decreases parts.len(),
{
    let g = inserted(f, parts, entry);
    assert forall|k: int| 0 <= k < f.subs.len() implies height((#[trigger] f.subs[k]).folder) + 1
        <= b by {
        subs_are_lower(f, f.subs.len(), k);
    }
    if parts.len() <= 1 {
        height_is_bounded(g, g.subs.len(), b);
    } else {
        let key = order::lower_text(parts[0]);
        let i = sub_place(f.subs, (parts[0], key), 0);
        sub_place_bounds(f.subs, (parts[0], key), 0);
        let rest = parts.skip(1);
        let inner = if i < f.subs.len() && f.subs[i].name == parts[0] {
            f.subs[i].folder
        } else {
            empty_folder()
        };
        assert(height(empty_folder()) == 0);
        if i < f.subs.len() {
            assert(height(f.subs[i].folder) + 1 <= b);
        }
        inserting_deepens(inner, rest, entry, (b - 1) as nat);
        assert forall|k: int| 0 <= k < g.subs.len() implies height((#[trigger] g.subs[k]).folder)
            + 1 <= b by {
            if k < i {
                assert(g.subs[k] == f.subs[k]);
            } else if k > i {
                if i < f.subs.len() && f.subs[i].name == parts[0] {
                    assert(g.subs[k] == f.subs[k]);
                } else {
                    assert(g.subs[k] == f.subs[k - 1]);
                }
            }
        }
        height_is_bounded(g, g.subs.len(), b);
    }
}

/// A listing's folder holds every document of it once.
pub proof fn listings_are_complete(rels: Seq<Seq<char>>, n: nat)
    requires
        n <= rels.len(),
    ensures
        docs(folder_of(rels, n)) == n,
    decreases n,
{
    if n > 0 {
        listings_are_complete(rels, (n - 1) as nat);
        inserting_adds_one(
            folder_of(rels, (n - 1) as nat),
            strings::split_from(rels[n - 1], '/', 0),
            (n - 1) as nat,
        );
    } else {
        assert(docs(empty_folder()) == 0);
    }
}

fn child_path(prefix: &str, name: &str) -> (r: String)
    ensures
        r@ == child_rel(prefix@, name@),
{
    if prefix.is_empty() {
        return name.to_owned();
    }
    let mut s: String = prefix.to_owned();
    s.push_str("/");
    s.push_str(name);
    s
}

/// Adds the rows of a folder's files.
fn emit_files(f: &Folder, prefix: &str, depth: usize, parent: Option<usize>, out: &mut Vec<Node>)
    ensures
        strings::views(final(out)@) == strings::views(old(out)@) + file_rows(
            folder_view(*f),
            prefix@,
            depth as nat,
            opt_nat(parent),
        ),
{
    let ghost fv = folder_view(*f);
    let ghost start = strings::views(out@);
    let mut names: Vec<String> = Vec::new();
    let mut i: usize = 0;
    while i < f.files.len()
        invariant
            i <= f.files@.len(),
            fv == folder_view(*f),
            strings::views(names@) =~= file_names(fv.files).take(i as int),
        decreases f.files@.len() - i,
    {
        names.push(f.files[i].0.clone());
        i = i + 1;
    }
    assert(strings::views(names@) =~= file_names(fv.files));
    let order = ordered(&names);
    let ghost want = file_rows(fv, prefix@, depth as nat, opt_nat(parent));
    let ghost os = order::places(order@);
    let mut k: usize = 0;
    assert(start + want.take(0) =~= start);
    while k < order.len()
        invariant
            k <= order@.len(),
            fv == folder_view(*f),
            names@.len() == f.files@.len(),
            os == order::places(order@),
            os == order::order_of(file_names(fv.files)),
            order::lists_all(os, names@.len()),
            want == file_rows(fv, prefix@, depth as nat, opt_nat(parent)),
            strings::views(out@) =~= start + want.take(k as int),
        decreases order@.len() - k,
    {
        assert(os[k as int] == order@[k as int]);
        let file = &f.files[order[k]];
        assert(fv.files[order@[k as int] as int] == (file.0@, file.1 as nat));
        let node = Node {
            name: file.0.clone(),
            rel: child_path(prefix, file.0.as_str()),
            depth,
            parent,
            is_dir: false,
            entry: Some(file.1),
            doc_count: 1,
        };
        assert(node@ =~= want[k as int]);
        out.push(node);
        k = k + 1;
    }
    assert(want.take(k as int) =~= want);
}

/// Adds the rows of a folder's content; returns the documents underneath it.
fn emit(f: &Folder, prefix: &str, depth: usize, parent: Option<usize>, out: &mut Vec<Node>) -> (r:
    usize)
    requires
        depth + height(folder_view(*f)) <= usize::MAX,
        docs(folder_view(*f)) <= usize::MAX,
    ensures
        r == docs(folder_view(*f)),
        strings::views(final(out)@) == strings::views(old(out)@) + rows(
            folder_view(*f),
            prefix@,
            depth as nat,
            opt_nat(parent),
            old(out)@.len(),
        ),
    decreases *f,
{
    let ghost fv = folder_view(*f);
    let ghost first = out@.len();
    let ghost start = strings::views(out@);
    let ghost p = opt_nat(parent);
    let mut count: usize = 0;
    let mut i: usize = 0;
    proof {
        folder_view_subs(*f);
    }
    assert(start + Seq::<NodeView>::empty() =~= start);
    while i < f.subs.len()
        invariant
            i <= f.subs@.len(),
            fv == folder_view(*f),
            fv.subs.len() == f.subs@.len(),
            forall|k: int|
                0 <= k < f.subs@.len() ==> #[trigger] fv.subs[k] == sub_view(f.subs@[k]),
            depth + height(fv) <= usize::MAX,
            docs(fv) <= usize::MAX,
            first == old(out)@.len(),
            start == strings::views(old(out)@),
            p == opt_nat(parent),
            count == docs_in(fv, i as nat),
            strings::views(out@) == start + sub_rows(fv, i as nat, prefix@, depth as nat, p, first),
        decreases f.subs@.len() - i,
    {
        let ghost before = sub_rows(fv, i as nat, prefix@, depth as nat, p, first);
        let sub = &f.subs[i];
        assert(fv.subs[i as int] == sub_view(*sub));
        proof {
            subs_are_lower(fv, fv.subs.len(), i as int);
            docs_grow(fv, (i + 1) as nat, fv.subs.len());
        }
        let rel = child_path(prefix, sub.name.as_str());
        let me: usize = out.len();
        assert(strings::views(out@).len() == out@.len());
        assert(start.len() == first);
        assert(me == first + before.len());
        let node = Node {
            name: sub.name.clone(),
            rel: rel.clone(),
            depth,
            parent,
            is_dir: true,
            entry: None,
            doc_count: 0,
        };
        let ghost nv = node@;
        out.push(node);
        let ghost mid = strings::views(out@);
        let n: usize = emit(&sub.folder, rel.as_str(), depth + 1, Some(me), out);
        let ghost below = rows(
            folder_view(sub.folder),
            rel@,
            depth as nat + 1,
            Some(me as nat),
            (me + 1) as nat,
        );
        assert(strings::views(out@) == mid + below);
        assert(out@[me as int]@ == nv) by {
            assert(strings::views(out@)[me as int] == mid[me as int]);
            assert(mid[me as int] == nv);
        }
        out[me].doc_count = n;
        proof {
            let done = NodeView { doc_count: n as nat, ..nv };
            assert(out@[me as int]@ =~= done);
            assert(strings::views(out@) =~= start + (before.push(done) + below));
        }
        count = count + n;
        i = i + 1;
    }
    let ghost above = sub_rows(fv, fv.subs.len(), prefix@, depth as nat, p, first);
    emit_files(f, prefix, depth, parent, out);
    proof {
        let files = file_rows(fv, prefix@, depth as nat, p);
        assert(start + above + files =~= start + (above + files));
    }
    count + f.files.len()
}

proof fn docs_grow(f: FolderView, n: nat, m: nat)
    requires
        n <= m <= f.subs.len(),
    ensures
        docs_in(f, n) <= docs_in(f, m),
    decreases m,
{
    if n < m {
        docs_grow(f, n, (m - 1) as nat);
    }
}

/// Builds the tree rows for a listing of documents, given by their relative
/// paths.
pub fn tree_of(rels: &Vec<String>) -> (r: Vec<Node>)
    ensures
        strings::views(r@) == tree_rows(strings::views(rels@)),
{
    let ghost rs = strings::views(rels@);
    let mut root = empty();
    let mut i: usize = 0;
    assert(height(empty_folder()) == 0);
    while i < rels.len()
        invariant
            i <= rels@.len(),
            rs == strings::views(rels@),
            folder_view(root) == folder_of(rs, i as nat),
            height(folder_view(root)) <= usize::MAX,
        decreases rels@.len() - i,
    {
        assert(rs[i as int] == rels@[i as int]@);
        let parts = strings::split(rels[i].as_str(), '/');
        let ghost ps = strings::views(parts@);
        assert(ps.skip(0) =~= ps);
        assert(parts.len() <= usize::MAX);
        proof {
            inserting_deepens(folder_view(root), ps, i as nat, usize::MAX as nat);
        }
        root = insert(root, &parts, 0, i);
        i = i + 1;
    }
    proof {
        listings_are_complete(rs, rs.len());
        assert(rels.len() <= usize::MAX);
    }
    let mut out: Vec<Node> = Vec::new();
    let prefix = "";
    proof {
        reveal_strlit("");
        assert(prefix@ =~= seq![]);
    }
    let _ = emit(&root, prefix, 0, None, &mut out);
    assert(Seq::<NodeView>::empty() + tree_rows(rs) =~= tree_rows(rs));
    out
}

/// The document rows among rows.
pub open spec fn doc_rows(rs: Seq<NodeView>) -> nat
    decreases rs.len(),
{
    if rs.len() == 0 {
        0
    } else {
        doc_rows(rs.drop_last()) + (if rs.last().is_dir {
            0nat
        } else {
            1
        })
    }
}

proof fn doc_rows_add(a: Seq<NodeView>, b: Seq<NodeView>)
    ensures
        doc_rows(a + b) == doc_rows(a) + doc_rows(b),
    decreases b.len(),
{
    if b.len() == 0 {
        assert(a + b =~= a);
    } else {
        assert((a + b).drop_last() =~= a + b.drop_last());
        doc_rows_add(a, b.drop_last());
    }
}

proof fn all_are_docs(rs: Seq<NodeView>)
    requires
        forall|i: int| 0 <= i < rs.len() ==> !(#[trigger] rs[i]).is_dir,
    ensures
        doc_rows(rs) == rs.len(),
    decreases rs.len(),
{
    if rs.len() > 0 {
        let d = rs.drop_last();
        assert forall|i: int| 0 <= i < d.len() implies !(#[trigger] d[i]).is_dir by {
            assert(!rs[i].is_dir);
        }
        all_are_docs(d);
        assert(!rs[rs.len() - 1].is_dir);
    }
}

/// The rows of a folder's content hold its documents.
pub proof fn rows_count_docs(
    f: FolderView,
    prefix: Seq<char>,
    depth: nat,
    parent: Option<nat>,
    start: nat,
)
    ensures
        doc_rows(rows(f, prefix, depth, parent, start)) == docs(f),
    decreases f, 1nat, 0nat,
{
    let a = sub_rows(f, f.subs.len(), prefix, depth, parent, start);
    let b = file_rows(f, prefix, depth, parent);
    sub_rows_count_docs(f, f.subs.len(), prefix, depth, parent, start);
    doc_rows_add(a, b);
    all_are_docs(b);
    order::ordering_sorts(order::keyed(file_names(f.files)), f.files.len());
}

proof fn sub_rows_count_docs(
    f: FolderView,
    n: nat,
    prefix: Seq<char>,
    depth: nat,
    parent: Option<nat>,
    start: nat,
)
    requires
        n <= f.subs.len(),
    ensures
        doc_rows(sub_rows(f, n, prefix, depth, parent, start)) == docs_in(f, n),
    decreases f, 0nat, n,
{
    if n > 0 {
        let before = sub_rows(f, (n - 1) as nat, prefix, depth, parent, start);
        sub_rows_count_docs(f, (n - 1) as nat, prefix, depth, parent, start);
        let s = f.subs[n - 1];
        let me = start + before.len();
        let rel = child_rel(prefix, s.name);
        let node = NodeView {
            name: s.name,
            rel,
            depth,
            parent,
            is_dir: true,
            entry: None,
            doc_count: docs(s.folder),
        };
        let below = rows(s.folder, rel, depth + 1, Some(me), me + 1);
        rows_count_docs(s.folder, rel, depth + 1, Some(me), me + 1);
        doc_rows_add(before.push(node), below);
        assert(before.push(node).drop_last() =~= before);
    }
}

/// The tree has one row for each document of the listing.
pub proof fn every_document_has_a_row(rels: Seq<Seq<char>>)
    ensures
        doc_rows(tree_rows(rels)) == rels.len(),
{
    listings_are_complete(rels, rels.len());
    rows_count_docs(folder_of(rels, rels.len()), seq![], 0, None, 0);
}

/// Whether every row, the first of which is row `start`, stands at the top, at
/// `depth` and below `parent`, or one level below a folder that is listed before
/// it, with only deeper rows in between.
pub open spec fn nested(rs: Seq<NodeView>, depth: nat, parent: Option<nat>, start: nat) -> bool {
    forall|k: int| 0 <= k < rs.len() ==> #[trigger] nested_row(rs, depth, parent, start, k)
}

pub open spec fn nested_row(
    rs: Seq<NodeView>,
    depth: nat,
    parent: Option<nat>,
    start: nat,
    k: int,
) -> bool {
    ||| rs[k].parent == parent && rs[k].depth == depth
    ||| rs[k].parent matches Some(p) && start <= p < start + k && rs[p - start].is_dir
        && rs[k].depth == rs[p - start].depth + 1 && forall|m: int|
        p - start < m < k ==> (#[trigger] rs[m]).depth > rs[p - start].depth
}

/// No row stands above the top.
pub proof fn nested_rows_are_deep(
    rs: Seq<NodeView>,
    depth: nat,
    parent: Option<nat>,
    start: nat,
    k: int,
)
    requires
        nested(rs, depth, parent, start),
        0 <= k < rs.len(),
    ensures
        rs[k].depth >= depth,
    decreases k,
{
    assert(nested_row(rs, depth, parent, start, k));
    if !(rs[k].parent == parent && rs[k].depth == depth) {
        nested_rows_are_deep(rs, depth, parent, start, rs[k].parent->0 - start);
    }
}

/// The rows of a folder's content are nested.
pub proof fn rows_nest(f: FolderView, prefix: Seq<char>, depth: nat, parent: Option<nat>, start: nat)
    ensures
        nested(rows(f, prefix, depth, parent, start), depth, parent, start),
    decreases f, 1nat, 0nat,
{
    let a = sub_rows(f, f.subs.len(), prefix, depth, parent, start);
    let b = file_rows(f, prefix, depth, parent);
    sub_rows_nest(f, f.subs.len(), prefix, depth, parent, start);
    let r = a + b;
    assert forall|k: int| 0 <= k < r.len() implies #[trigger] nested_row(
        r,
        depth,
        parent,
        start,
        k,
    ) by {
        if k < a.len() {
            assert(nested_row(a, depth, parent, start, k));
            assert(r[k] == a[k]);
            assert(forall|m: int| 0 <= m < k ==> #[trigger] r[m] == a[m]);
        } else {
            assert(r[k] == b[k - a.len()]);
        }
    }
}

/// The rows of subfolders are nested.
pub proof fn sub_rows_nest(
    f: FolderView,
    n: nat,
    prefix: Seq<char>,
    depth: nat,
    parent: Option<nat>,
    start: nat,
)
    requires
        n <= f.subs.len(),
    ensures
        nested(sub_rows(f, n, prefix, depth, parent, start), depth, parent, start),
    decreases f, 0nat, n,
{
    if n > 0 {
        let before = sub_rows(f, (n - 1) as nat, prefix, depth, parent, start);
        sub_rows_nest(f, (n - 1) as nat, prefix, depth, parent, start);
        let s = f.subs[n - 1];
        let me = start + before.len();
        let rel = child_rel(prefix, s.name);
        let below = rows(s.folder, rel, depth + 1, Some(me), me + 1);
        rows_nest(s.folder, rel, depth + 1, Some(me), me + 1);
        let r = sub_rows(f, n, prefix, depth, parent, start);
        assert forall|k: int| 0 <= k < r.len() implies #[trigger] nested_row(
            r,
            depth,
            parent,
            start,
            k,
        ) by {
            if k < before.len() {
                assert(nested_row(before, depth, parent, start, k));
                assert(r[k] == before[k]);
                assert(forall|m: int| 0 <= m < k ==> #[trigger] r[m] == before[m]);
            } else if k > before.len() {
                let j = k - before.len() - 1;
                assert(nested_row(below, depth + 1, Some(me), (me + 1) as nat, j));
                assert(r[k] == below[j]);
                let p = r[k].parent->0 - start;
                assert forall|m: int| before.len() < m < k implies (#[trigger] r[m]).depth > depth
                    && r[m] == below[m - before.len() - 1] by {
                    nested_rows_are_deep(
                        below,
                        depth + 1,
                        Some(me),
                        (me + 1) as nat,
                        m - before.len() - 1,
                    );
                }
                assert forall|m: int| p < m < k implies (#[trigger] r[m]).depth > r[p].depth by {
                    if p > before.len() {
                        assert(r[m] == below[m - before.len() - 1]);
                        assert(r[p] == below[p - before.len() - 1]);
                    }
                }
            }
        }
    }
}

/// Every row is at the top level, or one level below a folder that is listed
/// before it, with only deeper rows in between.
pub proof fn rows_follow_their_folders(rels: Seq<Seq<char>>)
    ensures
        nested(tree_rows(rels), 0, None, 0),
{
    rows_nest(folder_of(rels, rels.len()), seq![], 0, None, 0);
}

/// The path that parts below a folder make.
pub open spec fn path_of(prefix: Seq<char>, parts: Seq<Seq<char>>) -> Seq<char>
    decreases parts.len(),
{
    if parts.len() == 0 {
        prefix
    } else {
        path_of(child_rel(prefix, parts[0]), parts.skip(1))
    }
}

/// Whether every file underneath a folder is filed under its own path.
pub open spec fn filed(f: FolderView, prefix: Seq<char>, rels: Seq<Seq<char>>) -> bool
    decreases f, 1nat, 0nat,
{
    &&& forall|i: int|
        0 <= i < f.files.len() ==> 0 <= (#[trigger] f.files[i]).1 < rels.len() && child_rel(
            prefix,
            f.files[i].0,
        ) == rels[f.files[i].1 as int]
    &&& subs_filed(f, f.subs.len(), prefix, rels)
}

pub open spec fn subs_filed(f: FolderView, n: nat, prefix: Seq<char>, rels: Seq<Seq<char>>) -> bool
    decreases f, 0nat, n,
{
    if n == 0 || n > f.subs.len() {
        true
    } else {
        let s = f.subs[n - 1];
        subs_filed(f, (n - 1) as nat, prefix, rels) && filed(
            s.folder,
            child_rel(prefix, s.name),
            rels,
        )
    }
}

proof fn subs_filed_each(f: FolderView, n: nat, prefix: Seq<char>, rels: Seq<Seq<char>>, k: int)
    requires
        0 <= k < n <= f.subs.len(),
        subs_filed(f, n, prefix, rels),
    ensures
        filed(f.subs[k].folder, child_rel(prefix, f.subs[k].name), rels),
    decreases n,
{
    if k < n - 1 {
        subs_filed_each(f, (n - 1) as nat, prefix, rels, k);
    }
}

proof fn subs_filed_all(f: FolderView, n: nat, prefix: Seq<char>, rels: Seq<Seq<char>>)
    requires
        n <= f.subs.len(),
        forall|k: int|
            0 <= k < n ==> filed(
                (#[trigger] f.subs[k]).folder,
                child_rel(prefix, f.subs[k].name),
                rels,
            ),
    ensures
        subs_filed(f, n, prefix, rels),
    decreases n,
{
    if n > 0 {
        subs_filed_all(f, (n - 1) as nat, prefix, rels);
        assert(filed(f.subs[n - 1].folder, child_rel(prefix, f.subs[n - 1].name), rels));
    }
}

proof fn empty_is_filed(prefix: Seq<char>, rels: Seq<Seq<char>>)
    ensures
        filed(empty_folder(), prefix, rels),
{
}

proof fn inserting_files(
    f: FolderView,
    prefix: Seq<char>,
    parts: Seq<Seq<char>>,
    entry: nat,
    rels: Seq<Seq<char>>,
)
    requires
        filed(f, prefix, rels),
        parts.len() > 0,
        entry < rels.len(),
        path_of(prefix, parts) == rels[entry as int],
    ensures
        filed(inserted(f, parts, entry), prefix, rels),
    decreases parts.len(),
{
    let g = inserted(f, parts, entry);
    if parts.len() == 1 {
        assert(path_of(child_rel(prefix, parts[0]), parts.skip(1)) == child_rel(prefix, parts[0]));
        assert forall|i: int| 0 <= i < g.files.len() implies 0 <= (#[trigger] g.files[i]).1
            < rels.len() && child_rel(prefix, g.files[i].0) == rels[g.files[i].1 as int] by {
            if i < f.files.len() {
                assert(g.files[i] == f.files[i]);
            }
        }
        assert forall|k: int| 0 <= k < g.subs.len() implies filed(
            (#[trigger] g.subs[k]).folder,
            child_rel(prefix, g.subs[k].name),
            rels,
        ) by {
            subs_filed_each(f, f.subs.len(), prefix, rels, k);
        }
        subs_filed_all(g, g.subs.len(), prefix, rels);
    } else {
        let key = order::lower_text(parts[0]);
        let i = sub_place(f.subs, (parts[0], key), 0);
        sub_place_bounds(f.subs, (parts[0], key), 0);
        let rest = parts.skip(1);
        let met = i < f.subs.len() && f.subs[i].name == parts[0];
        let inner = if met {
            f.subs[i].folder
        } else {
            empty_folder()
        };
        let below = child_rel(prefix, parts[0]);
        empty_is_filed(below, rels);
        if met {
            subs_filed_each(f, f.subs.len(), prefix, rels, i);
        }
        inserting_files(inner, below, rest, entry, rels);
        assert forall|k: int| 0 <= k < g.subs.len() implies filed(
            (#[trigger] g.subs[k]).folder,
            child_rel(prefix, g.subs[k].name),
            rels,
        ) by {
            if k < i {
                assert(g.subs[k] == f.subs[k]);
                subs_filed_each(f, f.subs.len(), prefix, rels, k);
            } else if k > i {
                if met {
                    assert(g.subs[k] == f.subs[k]);
                    subs_filed_each(f, f.subs.len(), prefix, rels, k);
                } else {
                    assert(g.subs[k] == f.subs[k - 1]);
                    subs_filed_each(f, f.subs.len(), prefix, rels, k - 1);
                }
            }
        }
        subs_filed_all(g, g.subs.len(), prefix, rels);
    }
}

/// The parts of a path, put behind a prefix that is not empty, make the path
/// again.
proof fn parts_make_the_path(prefix: Seq<char>, s: Seq<char>, from: int)
    requires
        0 <= from <= s.len(),
        prefix.len() > 0,
    ensures
        path_of(prefix, strings::split_from(s, '/', from)) == prefix + "/"@ + s.skip(from),
    decreases s.len() - from,
{
    reveal_strlit("/");
    strings::first_at_bounds(s, '/', from);
    let end = strings::first_at(s, '/', from);
    let parts = strings::split_from(s, '/', from);
    if end < s.len() {
        let piece = s.subrange(from, end);
        let next = child_rel(prefix, piece);
        parts_make_the_path(next, s, end + 1);
        assert(parts.skip(1) =~= strings::split_from(s, '/', end + 1));
        assert(next + "/"@ + s.skip(end + 1) =~= prefix + "/"@ + s.skip(from));
    } else {
        assert(parts.skip(1) =~= seq![]);
        assert(path_of(child_rel(prefix, s.skip(from)), parts.skip(1)) == child_rel(
            prefix,
            s.skip(from),
        ));
    }
}

proof fn paths_come_apart(s: Seq<char>)
    requires
        s.len() > 0,
        s[0] != '/',
    ensures
        path_of(seq![], strings::split_from(s, '/', 0)) == s,
{
    reveal_strlit("/");
    strings::first_at_bounds(s, '/', 0);
    let end = strings::first_at(s, '/', 0);
    let parts = strings::split_from(s, '/', 0);
    if end < s.len() {
        let piece = s.subrange(0, end);
        parts_make_the_path(piece, s, end + 1);
        assert(parts.skip(1) =~= strings::split_from(s, '/', end + 1));
        assert(child_rel(seq![], piece) =~= piece);
        assert(piece + "/"@ + s.skip(end + 1) =~= s);
    } else {
        assert(parts.skip(1) =~= seq![]);
        assert(s.skip(0) =~= s);
        assert(child_rel(seq![], s.skip(0)) =~= s);
        assert(path_of(s, parts.skip(1)) == s);
    }
}

/// Whether paths are relative: none is empty or starts at the root.
pub open spec fn are_relative(rels: Seq<Seq<char>>) -> bool {
    forall|i: int| 0 <= i < rels.len() ==> (#[trigger] rels[i]).len() > 0 && rels[i][0] != '/'
}

proof fn listings_are_filed(rels: Seq<Seq<char>>, n: nat)
    requires
        n <= rels.len(),
        are_relative(rels),
    ensures
        filed(folder_of(rels, n), seq![], rels),
    decreases n,
{
    if n == 0 {
        empty_is_filed(seq![], rels);
    } else {
        listings_are_filed(rels, (n - 1) as nat);
        paths_come_apart(rels[n - 1]);
        inserting_files(
            folder_of(rels, (n - 1) as nat),
            seq![],
            strings::split_from(rels[n - 1], '/', 0),
            (n - 1) as nat,
            rels,
        );
    }
}

/// Whether every row of a document has the path of that document.
pub open spec fn rows_have_paths(rs: Seq<NodeView>, rels: Seq<Seq<char>>) -> bool {
    forall|k: int|
        0 <= k < rs.len() && (#[trigger] rs[k]).entry is Some ==> rs[k].entry->0 < rels.len()
            && rs[k].rel == rels[rs[k].entry->0 as int]
}

proof fn filed_rows(
    f: FolderView,
    prefix: Seq<char>,
    depth: nat,
    parent: Option<nat>,
    start: nat,
    rels: Seq<Seq<char>>,
)
    requires
        filed(f, prefix, rels),
    ensures
        rows_have_paths(rows(f, prefix, depth, parent, start), rels),
    decreases f, 1nat, 0nat,
{
    let a = sub_rows(f, f.subs.len(), prefix, depth, parent, start);
    let b = file_rows(f, prefix, depth, parent);
    filed_sub_rows(f, f.subs.len(), prefix, depth, parent, start, rels);
    let o = order::order_of(file_names(f.files));
    order::ordering_sorts(order::keyed(file_names(f.files)), f.files.len());
    let r = a + b;
    assert forall|k: int| 0 <= k < r.len() && (#[trigger] r[k]).entry is Some implies r[k].entry->0
        < rels.len() && r[k].rel == rels[r[k].entry->0 as int] by {
        if k < a.len() {
            assert(r[k] == a[k]);
        } else {
            let j = k - a.len();
            assert(r[k] == b[j]);
            assert(0 <= o[j] < f.files.len());
            assert(b[j] == file_node(f.files[o[j]], prefix, depth, parent));
        }
    }
}

proof fn filed_sub_rows(
    f: FolderView,
    n: nat,
    prefix: Seq<char>,
    depth: nat,
    parent: Option<nat>,
    start: nat,
    rels: Seq<Seq<char>>,
)
    requires
        n <= f.subs.len(),
        subs_filed(f, n, prefix, rels),
    ensures
        rows_have_paths(sub_rows(f, n, prefix, depth, parent, start), rels),
    decreases f, 0nat, n,
{
    if n > 0 {
        let before = sub_rows(f, (n - 1) as nat, prefix, depth, parent, start);
        filed_sub_rows(f, (n - 1) as nat, prefix, depth, parent, start, rels);
        let s = f.subs[n - 1];
        let me = start + before.len();
        let rel = child_rel(prefix, s.name);
        let below = rows(s.folder, rel, depth + 1, Some(me), me + 1);
        filed_rows(s.folder, rel, depth + 1, Some(me), me + 1, rels);
        let r = sub_rows(f, n, prefix, depth, parent, start);
        assert forall|k: int| 0 <= k < r.len() && (#[trigger] r[k]).entry is Some implies r[k].entry->0
            < rels.len() && r[k].rel == rels[r[k].entry->0 as int] by {
            if k < before.len() {
                assert(r[k] == before[k]);
            } else if k > before.len() {
                assert(r[k] == below[k - before.len() - 1]);
            }
        }
    }
}

/// The row of a document has the path of that document, relative to the root,
/// as it is spelled in the listing.
pub proof fn rows_keep_their_paths(rels: Seq<Seq<char>>)
    requires
        are_relative(rels),
    ensures
        rows_have_paths(tree_rows(rels), rels),
{
    listings_are_filed(rels, rels.len());
    filed_rows(folder_of(rels, rels.len()), seq![], 0, None, 0, rels);
}

} // verus!
