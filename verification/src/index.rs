//! Directory mode: `mdview some/dir` lists the markdown documents under a
//! directory so one can be picked and opened, with `q` returning to the
//! list.

use vstd::prelude::*;
use crate::order;
use crate::order::ordered;
use crate::paths;
use crate::strings;
use crate::strings::{bytes_to_string, from_chars, split_lines, str_eq, to_chars, trim};
use crate::text;
use crate::tree;
use crate::tree::tree_of;

pub use crate::tree::Node;

verus! {

broadcast use strings::group_views;

/// One document in a directory listing.
#[derive(Debug)]
pub struct DirEntry {
    /// Path relative to the listed directory, `/`-separated.
    pub rel: String,
    /// The document's first `#` heading, when it has one near the top.
    pub title: Option<String>,
    pub path: String,
}

#[verifier::ext_equal]
pub struct EntryView {
    pub rel: Seq<char>,
    pub title: Option<Seq<char>>,
    pub path: Seq<char>,
}

impl View for DirEntry {
    type V = EntryView;

    open spec fn view(&self) -> EntryView {
        EntryView { rel: self.rel@, title: text::opt_view(self.title), path: self.path@ }
    }
}

impl Clone for DirEntry {
    fn clone(&self) -> (r: DirEntry)
        ensures
            r@ == self@,
    {
        DirEntry {
            rel: self.rel.clone(),
            title: match &self.title {
                Some(t) => Some(t.clone()),
                None => None,
            },
            path: self.path.clone(),
        }
    }
}

/// The markdown files under a directory, sorted by relative path.
#[derive(Debug)]
pub struct DirIndex {
    pub root: String,
    pub entries: Vec<DirEntry>,
}

impl Clone for DirIndex {
    fn clone(&self) -> (r: DirIndex)
        ensures
            r.root@ == self.root@,
            strings::views(r.entries@) == strings::views(self.entries@),
    {
        let ghost all = strings::views(self.entries@);
        let mut entries: Vec<DirEntry> = Vec::new();
        let mut i: usize = 0;
        while i < self.entries.len()
            invariant
                i <= self.entries@.len(),
                all == strings::views(self.entries@),
                strings::views(entries@) =~= all.take(i as int),
            decreases self.entries@.len() - i,
        {
            entries.push(self.entries[i].clone());
            i = i + 1;
        }
        assert(all.take(i as int) =~= all);
        DirIndex { root: self.root.clone(), entries }
    }
}

/// How far below the listed directory documents are looked for.
pub const MAX_DEPTH: usize = 8;

/// The most documents that are listed.
pub const MAX_ENTRIES: usize = 5000;

/// Whether a directory is never worth descending into for documents.
pub open spec fn skipped_dir(name: Seq<char>) -> bool {
    name == "node_modules"@ || name == "target"@ || name == "vendor"@ || name == "dist"@ || name
        == "build"@ || name == "__pycache__"@
}

/// Whether a name is hidden.
pub open spec fn hidden(name: Seq<char>) -> bool {
    name.len() > 0 && name[0] == '.'
}

/// Whether a directory of this name is looked into.
pub open spec fn entered(name: Seq<char>) -> bool {
    !hidden(name) && !skipped_dir(name)
}

/// Whether a file of this name is listed.
pub open spec fn is_listed(name: Seq<char>) -> bool {
    paths::markdown_name(name) && !hidden(name)
}

fn is_hidden(name: &str) -> (r: bool)
    ensures
        r == hidden(name@),
{
    let chars = to_chars(name);
    chars.len() > 0 && chars[0] == '.'
}

fn is_entered(name: &str) -> (r: bool)
    ensures
        r == entered(name@),
{
    !(is_hidden(name) || str_eq(name, "node_modules") || str_eq(name, "target") || str_eq(
        name,
        "vendor",
    ) || str_eq(name, "dist") || str_eq(name, "build") || str_eq(name, "__pycache__"))
}

/// The heading of a line, where it is one of the first level.
pub open spec fn heading_of(line: Seq<char>) -> Option<Seq<char>> {
    let l = strings::trimmed(line);
    if strings::stands_at(l, "# "@, 0) {
        Some(strings::trimmed(l.skip(2)))
    } else {
        None
    }
}

/// The first heading among lines, of the first thirty, from `from` on.
pub open spec fn heading_in(lines: Seq<Seq<char>>, from: int) -> Option<Seq<char>>
    decreases lines.len() - from,
{
    if from >= lines.len() || from >= 30 {
        None
    } else {
        match heading_of(lines[from]) {
            Some(t) => Some(t),
            None => heading_in(lines, from + 1),
        }
    }
}

/// The title of a document that starts so.
pub open spec fn title_in(head: Seq<char>) -> Option<Seq<char>> {
    match heading_in(strings::lines_of(head), 0) {
        Some(t) => if t.len() == 0 {
            None
        } else {
            Some(t)
        },
        None => None,
    }
}

fn line_heading(line: &str) -> (r: Option<String>)
    ensures
        text::opt_view(r) == heading_of(line@),
{
    let l = trim(line);
    if !strings::starts_with(l.as_str(), "# ") {
        return None;
    }
    proof {
        reveal_strlit("# ");
    }
    let chars = to_chars(l.as_str());
    let rest = from_chars(&chars, 2, chars.len());
    assert(rest@ =~= l@.skip(2));
    Some(trim(rest.as_str()))
}

/// The first `# Heading` within the opening lines of a text, if any.
pub fn heading_of_text(head: &str) -> (r: Option<String>)
    ensures
        text::opt_view(r) == title_in(head@),
{
    let lines = split_lines(head);
    let ghost ls = strings::lines_of(head@);
    let mut i: usize = 0;
    while i < lines.len() && i < 30
        invariant
            i <= lines@.len(),
            ls == strings::views(lines@),
            ls == strings::lines_of(head@),
            heading_in(ls, 0) == heading_in(ls, i as int),
        decreases lines@.len() - i,
    {
        assert(ls[i as int] == lines@[i as int]@);
        if let Some(t) = line_heading(lines[i].as_str()) {
            if t.as_str().is_empty() {
                return None;
            }
            return Some(t);
        }
        i = i + 1;
    }
    None
}

/// The first `# Heading` within the opening bytes of a file, if any.
pub fn first_heading(head: &[u8]) -> (r: Option<String>)
    ensures
        text::opt_view(r) == title_in(strings::bytes_text(head@)),
{
    let head_text = bytes_to_string(head);
    heading_of_text(head_text.as_str())
}

/// What a directory holds under a name.
pub struct Child {
    pub name: String,
    pub is_dir: bool,
}

#[verifier::ext_equal]
pub struct ChildView {
    pub name: Seq<char>,
    pub is_dir: bool,
}

impl View for Child {
    type V = ChildView;

    open spec fn view(&self) -> ChildView {
        ChildView { name: self.name@, is_dir: self.is_dir }
    }
}

/// A directory that is being gone through.
pub struct Frame {
    pub path: String,
    /// Path relative to the listed directory; empty for that itself.
    pub rel: String,
    pub depth: usize,
    /// What is left to look at, the last first.
    pub left: Vec<Child>,
}

#[verifier::ext_equal]
pub struct FrameView {
    pub path: Seq<char>,
    pub rel: Seq<char>,
    pub depth: nat,
    pub left: Seq<ChildView>,
}

impl View for Frame {
    type V = FrameView;

    open spec fn view(&self) -> FrameView {
        FrameView {
            path: self.path@,
            rel: self.rel@,
            depth: self.depth as nat,
            left: strings::views(self.left@),
        }
    }
}

/// What a walk waits for.
pub enum Await {
    Nothing,
    /// What the directory at a path holds: path, relative path, depth.
    Listing(String, String, usize),
    /// The opening bytes of a file: path, relative path.
    Opening(String, String),
}

pub enum AwaitView {
    Nothing,
    Listing(Seq<char>, Seq<char>, nat),
    Opening(Seq<char>, Seq<char>),
}

impl View for Await {
    type V = AwaitView;

    open spec fn view(&self) -> AwaitView {
        match self {
            Await::Nothing => AwaitView::Nothing,
            Await::Listing(path, rel, depth) => AwaitView::Listing(path@, rel@, *depth as nat),
            Await::Opening(path, rel) => AwaitView::Opening(path@, rel@),
        }
    }
}

/// What to do next in a walk.
pub enum Step {
    /// List the directory at a path.
    List(String),
    /// Read the opening bytes of the file at a path.
    Read(String),
    Done,
}

pub enum StepView {
    List(Seq<char>),
    Read(Seq<char>),
    Done,
}

impl View for Step {
    type V = StepView;

    open spec fn view(&self) -> StepView {
        match self {
            Step::List(p) => StepView::List(p@),
            Step::Read(p) => StepView::Read(p@),
            Step::Done => StepView::Done,
        }
    }
}

/// A walk through the directories under a root, depth first and each in the
/// order of names. Listing and reading are done elsewhere.
pub struct Walk {
    frames: Vec<Frame>,
    found: Vec<DirEntry>,
    awaited: Await,
}

#[verifier::ext_equal]
pub struct WalkView {
    pub frames: Seq<FrameView>,
    pub found: Seq<EntryView>,
    pub awaited: AwaitView,
}

impl View for Walk {
    type V = WalkView;

    closed spec fn view(&self) -> WalkView {
        WalkView {
            frames: strings::views(self.frames@),
            found: strings::views(self.found@),
            awaited: self.awaited@,
        }
    }
}

/// How much a walk has left to look at in the directories it is in.
pub open spec fn left_in(frames: Seq<FrameView>) -> nat
    decreases frames.len(),
{
    if frames.len() == 0 {
        0
    } else {
        left_in(frames.drop_last()) + frames.last().left.len() + 1
    }
}

/// A walk that has looked at one thing more, and what that asks for. Hidden
/// directories and well-known build/dependency trees are skipped, and so is what
/// is too deep; files count by their names.
pub open spec fn look(w: WalkView) -> (WalkView, StepView) {
    let f = w.frames.last();
    let child = f.left.last();
    let path = paths::joined(f.path, child.name);
    let rel = tree::child_rel(f.rel, child.name);
    let next = WalkView {
        frames: w.frames.drop_last().push(FrameView { left: f.left.drop_last(), ..f }),
        ..w
    };
    if child.is_dir && entered(child.name) && f.depth < MAX_DEPTH {
        (
            WalkView { awaited: AwaitView::Listing(path, rel, f.depth + 1), ..next },
            StepView::List(path),
        )
    } else if !child.is_dir && is_listed(child.name) {
        (WalkView { awaited: AwaitView::Opening(path, rel), ..next }, StepView::Read(path))
    } else {
        (next, StepView::Done)
    }
}

/// A walk up to the next thing that it asks for, or to its end. What was asked
/// for and not given is not there.
pub open spec fn stepped(w: WalkView) -> (WalkView, StepView)
    decreases left_in(w.frames),
    when true via stepped_ends
{
    if w.frames.len() == 0 || w.found.len() >= MAX_ENTRIES {
        (WalkView { awaited: AwaitView::Nothing, ..w }, StepView::Done)
    } else if w.frames.last().left.len() == 0 {
        stepped(WalkView { frames: w.frames.drop_last(), ..w })
    } else {
        let (next, step) = look(w);
        if step is Done {
            stepped(next)
        } else {
            (next, step)
        }
    }
}

#[via_fn]
proof fn stepped_ends(w: WalkView) {
    if w.frames.len() > 0 && w.frames.last().left.len() > 0 {
        let f = w.frames.last();
        let g = FrameView { left: f.left.drop_last(), ..f };
        assert(look(w).0.frames == w.frames.drop_last().push(g));
        assert(w.frames.drop_last().push(g).drop_last() =~= w.frames.drop_last());
    }
}

/// The first `n` children, the last name first.
pub open spec fn backwards(children: Seq<ChildView>, n: nat) -> Seq<ChildView>
    decreases n,
{
    if n == 0 {
        seq![]
    } else {
        let before = backwards(children, (n - 1) as nat);
        let c = children[n - 1];
        before.insert(child_place(before, c.name, 0), c)
    }
}

/// Where a child of a name goes among children that are listed backwards.
pub open spec fn child_place(children: Seq<ChildView>, name: Seq<char>, from: int) -> int
    decreases children.len() - from,
{
    if from >= children.len() || strings::precedes(children[from].name, name) {
        from
    } else {
        child_place(children, name, from + 1)
    }
}

/// A walk that was given what a directory holds.
pub open spec fn given_listing(w: WalkView, children: Seq<ChildView>) -> WalkView {
    match w.awaited {
        AwaitView::Listing(path, rel, depth) => WalkView {
            frames: w.frames.push(
                FrameView { path, rel, depth, left: backwards(children, children.len()) },
            ),
            awaited: AwaitView::Nothing,
            ..w
        },
        _ => w,
    }
}

/// A walk that was given the opening bytes of a file, or that it has none.
pub open spec fn given_opening(w: WalkView, head: Option<Seq<u8>>) -> WalkView {
    match w.awaited {
        AwaitView::Opening(path, rel) => WalkView {
            found: w.found.push(
                EntryView {
                    rel,
                    title: match head {
                        Some(b) => title_in(strings::bytes_text(b)),
                        None => None,
                    },
                    path,
                },
            ),
            awaited: AwaitView::Nothing,
            ..w
        },
        _ => w,
    }
}

fn sort_backwards(children: Vec<Child>) -> (r: Vec<Child>)
    ensures
        strings::views(r@) == backwards(strings::views(children@), children@.len()),
{
    let ghost cs = strings::views(children@);
    let mut out: Vec<Child> = Vec::new();
    let mut i: usize = 0;
    while i < children.len()
        invariant
            i <= children@.len(),
            cs == strings::views(children@),
            strings::views(out@) == backwards(cs, i as nat),
        decreases children@.len() - i,
    {
        let c = &children[i];
        assert(cs[i as int] == c@);
        let name = to_chars(c.name.as_str());
        let ghost before = strings::views(out@);
        let mut p: usize = 0;
        let mut found = false;
        while p < out.len() && !found
            invariant
                p <= out@.len(),
                before == strings::views(out@),
                name@ == c@.name,
                found ==> child_place(before, c@.name, 0) == p,
                !found ==> child_place(before, c@.name, 0) == child_place(
                    before,
                    c@.name,
                    p as int,
                ),
            decreases out@.len() - p + (if found {
                0int
            } else {
                1
            }),
        {
            assert(before[p as int] == out@[p as int]@);
            let other = to_chars(out[p].name.as_str());
            if strings::comes_before(&other, &name) {
                found = true;
            } else {
                p = p + 1;
            }
        }
        let ghost was = out@;
        out.insert(p, Child { name: c.name.clone(), is_dir: c.is_dir });
        assert(strings::views(out@) =~= before.insert(p as int, c@));
        i = i + 1;
    }
    out
}

impl Walk {
    /// A walk through the directories under a root, which waits to be given what
    /// the root holds.
    pub fn new(root: &str) -> (r: Walk)
        ensures
            r@ == (WalkView {
                frames: seq![],
                found: seq![],
                awaited: AwaitView::Listing(root@, seq![], 0),
            }),
    {
        let rel = String::new();
        assert(rel@ =~= seq![]);
        let r = Walk {
            frames: Vec::new(),
            found: Vec::new(),
            awaited: Await::Listing(root.to_owned(), rel, 0),
        };
        assert(r@.frames =~= seq![]);
        assert(r@.found =~= seq![]);
        r
    }

    /// Looks at one thing more.
    fn look(&mut self) -> (r: Step)
        requires
            old(self)@.frames.len() > 0,
            old(self)@.frames.last().left.len() > 0,
        ensures
            (final(self)@, r@) == look(old(self)@),
    {
        let ghost frames = self.frames@;
        let mut f = self.frames.pop().unwrap();
        assert(strings::views(self.frames@) =~= strings::views(frames).drop_last());
        assert(strings::views(frames).last() == f@);
        let ghost left = f.left@;
        let child = f.left.pop().unwrap();
        assert(strings::views(f.left@) =~= strings::views(left).drop_last());
        assert(strings::views(left).last() == child@);
        let depth: usize = f.depth;
        let path = paths::join(f.path.as_str(), child.name.as_str());
        let rel = if f.rel.as_str().is_empty() {
            child.name.clone()
        } else {
            let mut r = f.rel.clone();
            r.push_str("/");
            r.push_str(child.name.as_str());
            r
        };
        self.frames.push(f);
        let name = child.name.as_str();
        if child.is_dir && is_entered(name) && depth < MAX_DEPTH {
            self.awaited = Await::Listing(path.clone(), rel, depth + 1);
            assert(self@ =~= look(old(self)@).0);
            return Step::List(path);
        }
        if !child.is_dir && paths::is_markdown_name(name) && !is_hidden(name) {
            self.awaited = Await::Opening(path.clone(), rel);
            assert(self@ =~= look(old(self)@).0);
            return Step::Read(path);
        }
        assert(self@ =~= look(old(self)@).0);
        Step::Done
    }

    /// Goes on to the next thing that the walk asks for.
    pub fn step(&mut self) -> (r: Step)
        ensures
            (final(self)@, r@) == stepped(old(self)@),
    {
        let ghost want = stepped(self@);
        loop
            invariant
                want == stepped(self@),
                want == stepped(old(self)@),
            decreases left_in(self@.frames),
        {
            let n: usize = self.frames.len();
            if n == 0 || self.found.len() >= MAX_ENTRIES {
                self.awaited = Await::Nothing;
                assert(self@ =~= want.0);
                return Step::Done;
            }
            let ghost before = self.frames@;
            assert(self@.frames.last() == self.frames@[n - 1]@);
            if self.frames[n - 1].left.len() == 0 {
                let ghost was = self@;
                let _ = self.frames.pop();
                assert(strings::views(self.frames@) =~= strings::views(before).drop_last());
                assert(self@ =~= WalkView { frames: was.frames.drop_last(), ..was });
            } else {
                proof {
                    let f = self@.frames.last();
                    let g = FrameView { left: f.left.drop_last(), ..f };
                    assert(self@.frames.drop_last().push(g).drop_last()
                        =~= self@.frames.drop_last());
                }
                let step = self.look();
                match step {
                    Step::Done => {},
                    _ => {
                        return step;
                    },
                }
            }
        }
    }

    /// Takes in what a directory that was asked for holds.
    pub fn listed(&mut self, children: Vec<Child>)
        ensures
            final(self)@ == given_listing(old(self)@, strings::views(children@)),
    {
        let mut awaited = Await::Nothing;
        std::mem::swap(&mut awaited, &mut self.awaited);
        match awaited {
            Await::Listing(path, rel, depth) => {
                let left = sort_backwards(children);
                self.frames.push(Frame { path, rel, depth, left });
            },
            other => {
                self.awaited = other;
            },
        }
        assert(self@ =~= given_listing(old(self)@, strings::views(children@)));
    }

    /// Takes in the opening bytes of a file that was asked for, if it could be
    /// read.
    pub fn opened(&mut self, head: Option<&[u8]>)
        ensures
            final(self)@ == given_opening(
                old(self)@,
                match head {
                    Some(b) => Some(b@),
                    None => None,
                },
            ),
    {
        let mut awaited = Await::Nothing;
        std::mem::swap(&mut awaited, &mut self.awaited);
        match awaited {
            Await::Opening(path, rel) => {
                let title = match head {
                    Some(b) => first_heading(b),
                    None => None,
                };
                self.found.push(DirEntry { rel, title, path });
            },
            other => {
                self.awaited = other;
            },
        }
        assert(self@ =~= given_opening(
            old(self)@,
            match head {
                Some(b) => Some(b@),
                None => None,
            },
        ));
    }

    /// The documents found so far.
    pub fn found(self) -> (r: Vec<DirEntry>)
        ensures
            strings::views(r@) == self@.found,
    {
        self.found
    }
}

/// The relative paths of documents.
pub open spec fn rels(entries: Seq<EntryView>) -> Seq<Seq<char>> {
    entries.map_values(|e: EntryView| e.rel)
}

/// Documents in the order of their relative paths.
pub open spec fn sorted_entries(entries: Seq<EntryView>) -> Seq<EntryView> {
    order::order_of(rels(entries)).map_values(|i: int| entries[i])
}

fn rels_of(entries: &[DirEntry]) -> (r: Vec<String>)
    ensures
        strings::views(r@) == rels(strings::views(entries@)),
{
    let ghost want = rels(strings::views(entries@));
    let mut out: Vec<String> = Vec::new();
    let mut i: usize = 0;
    while i < entries.len()
        invariant
            i <= entries@.len(),
            want == rels(strings::views(entries@)),
            strings::views(out@) =~= want.take(i as int),
        decreases entries@.len() - i,
    {
        out.push(entries[i].rel.clone());
        i = i + 1;
    }
    assert(want.take(i as int) =~= want);
    out
}

/// The listing of the documents that a walk found under a root.
pub fn scan(root: &str, found: Vec<DirEntry>) -> (r: DirIndex)
    ensures
        r.root@ == root@,
        strings::views(r.entries@) == sorted_entries(strings::views(found@)),
{
    let ghost fs = strings::views(found@);
    let names = rels_of(found.as_slice());
    let order = ordered(&names);
    let ghost os = order::places(order@);
    let ghost want = sorted_entries(fs);
    let mut entries: Vec<DirEntry> = Vec::new();
    let mut k: usize = 0;
    assert(names@.len() == found@.len()) by {
        assert(strings::views(names@).len() == names@.len());
    }
    while k < order.len()
        invariant
            k <= order@.len(),
            fs == strings::views(found@),
            names@.len() == found@.len(),
            os == order::places(order@),
            os == order::order_of(rels(fs)),
            order::lists_all(os, names@.len()),
            want == sorted_entries(fs),
            strings::views(entries@) =~= want.take(k as int),
        decreases order@.len() - k,
    {
        assert(os[k as int] == order@[k as int]);
        let e = found[order[k]].clone();
        assert(fs[order@[k as int] as int] == found@[order@[k as int] as int]@);
        assert(e@ == want[k as int]);
        entries.push(e);
        k = k + 1;
    }
    assert(want.take(k as int) =~= want);
    DirIndex { root: root.to_owned(), entries }
}

/// Builds the tree rows for a listing.
pub fn tree(entries: &[DirEntry]) -> (r: Vec<Node>)
    ensures
        strings::views(r@) == tree::tree_rows(rels(strings::views(entries@))),
{
    let names = rels_of(entries);
    tree_of(&names)
}

/// A listing holds each document that was found once, in order.
pub proof fn listings_are_sorted(entries: Seq<EntryView>)
    ensures
        sorted_entries(entries).len() == entries.len(),
        order::lists_all(order::order_of(rels(entries)), entries.len()),
        forall|i: int, j: int|
            0 <= i < j < entries.len() ==> !order::comes_first(
                (#[trigger] sorted_entries(entries)[j]).rel,
                (#[trigger] sorted_entries(entries)[i]).rel,
            ),
{
    let names = rels(entries);
    let o = order::order_of(names);
    let keys = order::keyed(names);
    order::ordering_sorts(keys, names.len());
    assert forall|i: int, j: int| 0 <= i < j < entries.len() implies !order::comes_first(
        (#[trigger] sorted_entries(entries)[j]).rel,
        (#[trigger] sorted_entries(entries)[i]).rel,
    ) by {
        assert(!order::key_first(keys[o[j]], keys[o[i]]));
        assert(0 <= o[i] < names.len() && 0 <= o[j] < names.len());
        assert(names[o[i]] == entries[o[i]].rel);
        assert(names[o[j]] == entries[o[j]].rel);
    }
}

/// Whether none of the directories that a walk is in or waits for is too deep.
pub open spec fn within_depth(w: WalkView) -> bool {
    &&& forall|i: int| 0 <= i < w.frames.len() ==> (#[trigger] w.frames[i]).depth <= MAX_DEPTH
    &&& w.awaited matches AwaitView::Listing(path, rel, depth) ==> depth <= MAX_DEPTH
}

/// A walk never asks for a directory that is too deep, and asks for nothing once
/// it has found as much as is listed.
pub proof fn walks_are_bounded(w: WalkView)
    requires
        within_depth(w),
    ensures
        within_depth(stepped(w).0),
        w.found.len() >= MAX_ENTRIES ==> stepped(w).1 is Done,
        stepped(w).0.found == w.found,
    decreases left_in(w.frames),
{
    if w.frames.len() == 0 || w.found.len() >= MAX_ENTRIES {
    } else if w.frames.last().left.len() == 0 {
        walks_are_bounded(WalkView { frames: w.frames.drop_last(), ..w });
    } else {
        let (next, step) = look(w);
        let f = w.frames.last();
        let g = FrameView { left: f.left.drop_last(), ..f };
        assert(next.frames == w.frames.drop_last().push(g));
        assert(w.frames.drop_last().push(g).drop_last() =~= w.frames.drop_last());
        assert(f == w.frames[w.frames.len() - 1]);
        assert forall|i: int| 0 <= i < next.frames.len() implies (#[trigger] next.frames[i]).depth
            <= MAX_DEPTH by {
            if i < w.frames.len() - 1 {
                assert(next.frames[i] == w.frames[i]);
            }
        }
        if step is Done {
            walks_are_bounded(next);
        }
    }
}

/// Where a child goes, what is before it does not come before it in the order of
/// names, and what is behind it does.
pub proof fn child_place_bounds(children: Seq<ChildView>, name: Seq<char>, from: int)
    requires
        0 <= from <= children.len(),
    ensures
        from <= child_place(children, name, from) <= children.len(),
        forall|j: int|
            from <= j < child_place(children, name, from) ==> !strings::precedes(
                (#[trigger] children[j]).name,
                name,
            ),
        child_place(children, name, from) < children.len() ==> strings::precedes(
            children[child_place(children, name, from)].name,
            name,
        ),
    decreases children.len() - from,
{
    if from < children.len() && !strings::precedes(children[from].name, name) {
        child_place_bounds(children, name, from + 1);
    }
}

/// What a directory holds is gone through in the order of names: since the last
/// of what is left is looked at first, no name comes before one that is left
/// behind it.
pub proof fn children_come_in_order(children: Seq<ChildView>, n: nat)
    requires
        n <= children.len(),
    ensures
        backwards(children, n).len() == n,
        forall|i: int, j: int|
            0 <= i < j < n ==> !strings::precedes(
                (#[trigger] backwards(children, n)[i]).name,
                (#[trigger] backwards(children, n)[j]).name,
            ),
    decreases n,
{
    if n > 0 {
        let before = backwards(children, (n - 1) as nat);
        children_come_in_order(children, (n - 1) as nat);
        let c = children[n - 1];
        child_place_bounds(before, c.name, 0);
        let p = child_place(before, c.name, 0);
        let r = before.insert(p, c);
        assert forall|i: int, j: int| 0 <= i < j < n implies !strings::precedes(
            (#[trigger] r[i]).name,
            (#[trigger] r[j]).name,
        ) by {
            if i == p {
                assert(r[j] == before[j - 1]);
                if strings::precedes(c.name, before[j - 1].name) {
                    strings::order_is_transitive(before[p].name, c.name, before[j - 1].name);
                    if p == j - 1 {
                        strings::order_is_total(before[p].name, before[p].name);
                    }
                }
            } else if j == p {
                assert(r[i] == before[i]);
            }
        }
    }
}

} // verus!
