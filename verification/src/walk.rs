//! Export of a live key, one visit at a time.
//!
//! A key of the live store cannot be held as a whole: it is visited. The
//! walk says which key is to be visited next; whoever holds the store opens
//! and enumerates that key and hands back what the enumeration gave; the
//! walk converts the values, adds the key to the document and says where to
//! go from there. Keys waiting for their children are kept on a stack, so
//! the depth of the store costs no call depth.
//!
//! The holder of the store keeps one handle for every key on the stack, the
//! deepest last. `Visit { depth, name, .. }` asks to drop every handle above
//! position `depth`, to open the child `name` of the key at that position
//! and to enumerate the child.

use vstd::prelude::*;
use vstd::string::*;

use crate::error::{Error, ErrorView};
use crate::types::KeyRecordView;
use crate::writer::{
    child_path, entries_of, exported, exported_children, key_entries, lemma_children_stop,
    ChildEntry, KeySnapshot, RegWriter, ValueEntry, ValueEntryView,
};

verus! {

/// What the enumeration of one key gave: its values and the names of its
/// children, in order. `None` is an entry for which the enumeration
/// reported an error.
#[derive(Debug, PartialEq, Eq)]
pub struct Listing {
    pub values: Vec<Option<ValueEntry>>,
    pub children: Vec<Option<String>>,
}

/// What a [`Listing`] is, mathematically.
pub struct ListingView {
    pub values: Seq<Option<ValueEntryView>>,
    pub children: Seq<Option<Seq<char>>>,
}

impl View for Listing {
    type V = ListingView;

    open spec fn view(&self) -> ListingView {
        ListingView { values: self.values.deep_view(), children: self.children.deep_view() }
    }
}

/// The answer to a visit.
#[derive(Debug, PartialEq, Eq)]
pub enum Answer {
    /// The key was opened, and this is what its enumeration gave.
    Listed(Listing),
    /// The store did not open the key.
    Refused,
}

/// What an [`Answer`] is, mathematically.
pub enum AnswerView {
    Listed(ListingView),
    Refused,
}

impl View for Answer {
    type V = AnswerView;

    open spec fn view(&self) -> AnswerView {
        match self {
            Answer::Listed(listing) => AnswerView::Listed(listing@),
            Answer::Refused => AnswerView::Refused,
        }
    }
}

/// A key whose children are being visited.
struct Frame {
    path: String,
    children: Vec<Option<String>>,
    /// The index of the child that is being visited.
    next: usize,
}

/// What a key on the stack of a walk is, mathematically.
pub struct FrameView {
    /// The path of the key in the document.
    pub path: Seq<char>,
    /// What the enumeration gave for the children of the key.
    pub children: Seq<Option<Seq<char>>>,
    /// The index of the child that is being visited.
    pub next: nat,
}

impl View for Frame {
    type V = FrameView;

    closed spec fn view(&self) -> FrameView {
        FrameView {
            path: self.path@,
            children: self.children.deep_view(),
            next: self.next as nat,
        }
    }
}

impl DeepView for Frame {
    type V = FrameView;

    closed spec fn deep_view(&self) -> FrameView {
        self@
    }
}

/// An export under way: the keys added so far, and the keys whose children
/// are being visited, the deepest last. The walk waits for the answer to
/// one visit: that of the key it started at while the stack is empty, and
/// else that of the child `next` of the deepest key.
pub struct ExportWalk {
    writer: RegWriter,
    root: String,
    frames: Vec<Frame>,
}

/// What an [`ExportWalk`] is, mathematically.
pub struct WalkView {
    /// The keys of the document so far.
    pub records: Seq<KeyRecordView>,
    /// The path at which the document has the key that the walk started at.
    pub root: Seq<char>,
    /// The keys whose children are being visited, the deepest last.
    pub frames: Seq<FrameView>,
}

/// What comes of an answer.
pub enum Progress {
    /// The child `name`, which the enumeration gave at position `index`
    /// for the key at position `depth` of the stack, is to be visited.
    Visit { walk: ExportWalk, depth: usize, index: usize, name: String },
    /// Every key was visited, and this is the document.
    Done(RegWriter),
    /// The export ended with an error, and there is no document.
    Failed(Error),
}

/// What a [`Progress`] is, mathematically.
pub enum ProgressView {
    Visit { walk: WalkView, depth: nat, index: nat, name: Seq<char> },
    Done(Seq<KeyRecordView>),
    Failed(ErrorView),
}

impl View for Progress {
    type V = ProgressView;

    open spec fn view(&self) -> ProgressView {
        match self {
            Progress::Visit { walk, depth, index, name } => ProgressView::Visit {
                walk: walk@,
                depth: *depth as nat,
                index: *index as nat,
                name: name@,
            },
            Progress::Done(writer) => ProgressView::Done(writer@),
            Progress::Failed(e) => ProgressView::Failed(e@),
        }
    }
}

/// Whether an entry of an enumeration of children is one to visit: its
/// name was read, and is not the empty name, which is the key itself.
pub open spec fn visitable(child: Option<Seq<char>>) -> bool {
    child is Some && child->0.len() > 0
}

/// The first position at or behind `from` that holds a child to visit, or
/// the number of entries where there is none.
pub open spec fn next_child(children: Seq<Option<Seq<char>>>, from: nat) -> nat
    decreases children.len() - from,
{
    if from >= children.len() {
        children.len()
    } else if visitable(children[from as int]) {
        from
    } else {
        next_child(children, from + 1)
    }
}

/// A frame with another child in turn.
pub open spec fn turned_to(frame: FrameView, next: nat) -> FrameView {
    FrameView { path: frame.path, children: frame.children, next }
}

/// Where a walk goes from a stack whose deepest key is looked through from
/// its position `next` on. The first child to visit at or behind that
/// position is next. Where the deepest key has none, it is done: it leaves
/// the stack, and the key above it is looked through from behind the child
/// that was just done. With the stack empty the walk is over.
pub open spec fn sought(frames: Seq<FrameView>) -> (Seq<FrameView>, Option<(nat, Seq<char>)>)
    decreases frames.len(),
{
    if frames.len() == 0 {
        (frames, None)
    } else {
        let top = frames.last();
        let index = next_child(top.children, top.next);
        if index < top.children.len() {
            (
                frames.drop_last().push(turned_to(top, index)),
                Some((index, top.children[index as int]->0)),
            )
        } else {
            let above = frames.drop_last();
            if above.len() == 0 {
                (above, None)
            } else {
                sought(above.drop_last().push(turned_to(above.last(), above.last().next + 1)))
            }
        }
    }
}

/// Whether every key on the stack has a child to visit in turn.
pub open spec fn in_turn(frames: Seq<FrameView>) -> bool {
    forall|j: int|
        0 <= j < frames.len() ==> (#[trigger] frames[j]).next < frames[j].children.len()
            && visitable(frames[j].children[frames[j].next as int])
}

/// The path of the key whose visit a walk waits for.
pub open spec fn awaited_path(walk: WalkView) -> Seq<char> {
    if walk.frames.len() == 0 {
        walk.root
    } else {
        let top = walk.frames.last();
        child_path(top.path, top.children[top.next as int]->0)
    }
}

/// Where a walk goes on from a stack whose deepest key is looked through
/// from its position `next` on: to the next child to visit, as [`sought`]
/// finds it, or to its end.
pub open spec fn went_on(
    root: Seq<char>,
    records: Seq<KeyRecordView>,
    frames: Seq<FrameView>,
) -> ProgressView {
    match sought(frames) {
        (found, Some((index, name))) => ProgressView::Visit {
            walk: WalkView { records, root, frames: found },
            depth: (found.len() - 1) as nat,
            index,
            name,
        },
        (_, None) => ProgressView::Done(records),
    }
}

/// What comes of an answer to the visit that a walk waits for.
///
/// - Where the store did not open the key, the export fails with
///   `SegmentNotFound`: it names the key above and the child that did not
///   open.
/// - Where a value of the key has no typed value, the export fails with
///   `UnsupportedValueType`.
/// - Else the key is added to the document with its values, its children
///   are looked through from the first on, and the walk goes on from there.
pub open spec fn advanced(walk: WalkView, answer: AnswerView) -> ProgressView {
    match answer {
        AnswerView::Refused => ProgressView::Failed(
            if walk.frames.len() == 0 {
                ErrorView::SegmentNotFound { path: walk.root, segment: Seq::empty() }
            } else {
                let top = walk.frames.last();
                ErrorView::SegmentNotFound {
                    path: top.path,
                    segment: top.children[top.next as int]->0,
                }
            },
        ),
        AnswerView::Listed(listing) => {
            let path = awaited_path(walk);
            match entries_of(path, listing.values) {
                Err(e) => ProgressView::Failed(e),
                Ok(values) => went_on(
                    walk.root,
                    walk.records.push(KeyRecordView { path, values }),
                    walk.frames.push(FrameView { path, children: listing.children, next: 0 }),
                ),
            }
        },
    }
}

/// What comes of the end of the visit that a walk waits for, with all that
/// was below the visited key: the walk goes on behind the child that was
/// visited, or is done where it waited for the key it started at.
pub open spec fn resumed(walk: WalkView, records: Seq<KeyRecordView>) -> ProgressView {
    if walk.frames.len() == 0 {
        ProgressView::Done(records)
    } else {
        let top = walk.frames.last();
        went_on(walk.root, records, walk.frames.drop_last().push(turned_to(top, top.next + 1)))
    }
}

/// Looking for the next child to visit keeps every key on the stack with a
/// child in turn, and the child it finds is the one in turn at the deepest
/// key.
pub proof fn lemma_sought_in_turn(frames: Seq<FrameView>)
    requires
        frames.len() > 0 ==> in_turn(frames.drop_last()),
        frames.len() > 0 ==> frames.last().next <= frames.last().children.len(),
    ensures
        in_turn(sought(frames).0),
        sought(frames).1 matches Some((index, name)) ==> {
            let found = sought(frames).0;
            &&& found.len() > 0
            &&& found.len() <= frames.len()
            &&& index == found.last().next
            &&& name == found.last().children[found.last().next as int]->0
        },
        sought(frames).1 is None ==> sought(frames).0.len() == 0,
    decreases frames.len(),
{
    if frames.len() > 0 {
        let top = frames.last();
        lemma_next_child(top.children, top.next);
        let index = next_child(top.children, top.next);
        if index < top.children.len() {
            let found = frames.drop_last().push(turned_to(top, index));
            assert forall|j: int| 0 <= j < found.len() implies (#[trigger] found[j]).next
                < found[j].children.len() && visitable(found[j].children[found[j].next as int]) by {
                if j < found.len() - 1 {
                    assert(found[j] == frames.drop_last()[j]);
                }
            }
        } else {
            let above = frames.drop_last();
            if above.len() > 0 {
                let turned = above.drop_last().push(turned_to(above.last(), above.last().next + 1));
                assert(turned.drop_last() =~= above.drop_last());
                assert forall|j: int| 0 <= j < turned.drop_last().len() implies (
                #[trigger] turned.drop_last()[j]).next < turned.drop_last()[j].children.len()
                    && visitable(
                    turned.drop_last()[j].children[turned.drop_last()[j].next as int],
                ) by {
                    assert(turned.drop_last()[j] == above[j]);
                }
                assert(above[above.len() - 1].next < above[above.len() - 1].children.len());
                lemma_sought_in_turn(turned);
            }
        }
    }
}

/// The position that [`next_child`] gives is at or behind `from`, holds a
/// child to visit unless it is the end, and has no child to visit between
/// `from` and itself.
pub proof fn lemma_next_child(children: Seq<Option<Seq<char>>>, from: nat)
    requires
        from <= children.len(),
    ensures
        from <= next_child(children, from) <= children.len(),
        next_child(children, from) < children.len() ==> visitable(
            children[next_child(children, from) as int],
        ),
        forall|i: int|
            from <= i < next_child(children, from) ==> !visitable(#[trigger] children[i]),
    decreases children.len() - from,
{
    if from < children.len() && !visitable(children[from as int]) {
        lemma_next_child(children, from + 1);
    }
}

/// The next child to visit on a stack of keys, and the stack as it is then.
fn seek(stack: Vec<Frame>) -> (out: (Vec<Frame>, Option<(usize, String)>))
    requires
        stack.len() > 0 ==> in_turn(stack.deep_view().drop_last()),
        stack.len() > 0 ==> stack[stack.len() - 1].next <= stack[stack.len() - 1].children.len(),
    ensures
        out.0.deep_view() == sought(stack.deep_view()).0,
        match out.1 {
            Some((index, name)) => sought(stack.deep_view()).1 == Some((index as nat, name@)),
            None => sought(stack.deep_view()).1 is None,
        },
{
    let ghost start = stack.deep_view();
    let mut frames = stack;
    loop
        invariant
            start == stack.deep_view(),
            sought(frames.deep_view()) == sought(start),
            frames.len() > 0 ==> in_turn(frames.deep_view().drop_last()),
            frames.len() > 0 ==> frames[frames.len() - 1].next <= frames[frames.len()
                - 1].children.len(),
        decreases frames.len(),
    {
        let ghost here = frames.deep_view();
        let mut top = match frames.pop() {
            Some(top) => top,
            None => {
                assert(frames.deep_view() =~= here);
                return (frames, None);
            },
        };
        assert(here.len() > 0);
        assert(frames.deep_view() =~= here.drop_last());
        assert(top@ == here.last());
        let ghost from = top.next as nat;
        proof {
            lemma_next_child(top@.children, from);
        }
        while top.next < top.children.len() && !is_visitable(&top.children[top.next])
            invariant
                here.len() > 0,
                from <= top.next <= top.children.len(),
                top@.path == here.last().path,
                top@.children == here.last().children,
                next_child(top@.children, top.next as nat) == next_child(top@.children, from),
            decreases top.children.len() - top.next,
        {
            top.next = top.next + 1;
        }
        if top.next < top.children.len() {
            let index = top.next;
            let name = match &top.children[index] {
                Some(name) => name.clone(),
                None => {
                    // The search stopped at an entry with a name.
                    assert(false);
                    String::new()
                },
            };
            let ghost turned = top@;
            frames.push(top);
            assert(frames.deep_view() =~= here.drop_last().push(turned));
            return (frames, Some((index, name)));
        }
        let ghost above = frames.deep_view();
        match frames.pop() {
            None => {
                return (frames, None);
            },
            Some(parent) => {
                assert(frames.deep_view() =~= above.drop_last());
                assert(parent@ == above.last());
                assert(above[above.len() - 1].next < above[above.len() - 1].children.len());
                assert(parent.children.deep_view().len() == parent.children.len());
                let turned = Frame {
                    path: parent.path,
                    children: parent.children,
                    next: parent.next + 1,
                };
                let ghost after = turned@;
                frames.push(turned);
                assert(frames.deep_view() =~= above.drop_last().push(after));
                let ghost rest = frames.deep_view().drop_last();
                assert forall|j: int| 0 <= j < rest.len() implies (#[trigger] rest[j]).next
                    < rest[j].children.len() && visitable(
                    rest[j].children[rest[j].next as int],
                ) by {
                    assert(rest[j] == above[j]);
                }
            },
        }
    }
}

/// Whether an entry of an enumeration of children is one to visit.
fn is_visitable(child: &Option<String>) -> (out: bool)
    ensures
        out == visitable(child.deep_view()),
{
    match child {
        Some(name) => !name.as_str().is_empty(),
        None => false,
    }
}

impl View for ExportWalk {
    type V = WalkView;

    closed spec fn view(&self) -> WalkView {
        WalkView { records: self.writer@, root: self.root@, frames: self.frames.deep_view() }
    }
}

impl ExportWalk {
    /// Every key on the stack has a child to visit in turn: that of the
    /// deepest key is the one whose visit the walk waits for.
    #[verifier::type_invariant]
    closed spec fn well_formed(self) -> bool {
        in_turn(self.frames.deep_view())
    }

    /// A walk that adds to `writer` the key at which it starts, which the
    /// document is to have at the path `name`, and every key below it. It
    /// waits for the answer to the visit of the key at which it starts.
    pub fn start(writer: RegWriter, name: String) -> (out: Self)
        ensures
            out@ == (WalkView { records: writer@, root: name@, frames: Seq::empty() }),
    {
        let out = ExportWalk { writer, root: name, frames: Vec::new() };
        assert(out.frames.deep_view() =~= Seq::empty());
        out
    }

    /// The number of keys on the stack: the number of keys that the holder
    /// of the store keeps open below the key it started at, that key
    /// included.
    pub fn depth(&self) -> (out: usize)
        ensures
            out == self@.frames.len(),
            in_turn(self@.frames),
    {
        proof {
            use_type_invariant(self);
        }
        self.frames.len()
    }

    /// The path of the key whose visit the walk waits for.
    fn awaited(&self) -> (out: String)
        ensures
            out@ == awaited_path(self@),
    {
        proof {
            use_type_invariant(self);
        }
        if self.frames.len() == 0 {
            self.root.clone()
        } else {
            let top = &self.frames[self.frames.len() - 1];
            assert(top@ == self.frames.deep_view().last());
            let mut path = top.path.clone();
            path.append("\\");
            match &top.children[top.next] {
                Some(name) => {
                    path.append(name.as_str());
                },
                None => {
                    // The child in turn is an entry with a name.
                    assert(false);
                },
            }
            proof {
                reveal_strlit("\\");
                assert(path@ =~= child_path(top@.path, top@.children[top@.next as int]->0));
            }
            path
        }
    }

    /// The error of a visit that the store refused.
    fn refused(&self) -> (out: Error)
        ensures
            advanced(self@, AnswerView::Refused) == ProgressView::Failed(out@),
    {
        proof {
            use_type_invariant(self);
        }
        if self.frames.len() == 0 {
            Error::SegmentNotFound { path: self.root.clone(), segment: String::new() }
        } else {
            let top = &self.frames[self.frames.len() - 1];
            assert(top@ == self.frames.deep_view().last());
            let segment = match &top.children[top.next] {
                Some(name) => name.clone(),
                None => {
                    // The child in turn is an entry with a name.
                    assert(false);
                    String::new()
                },
            };
            Error::SegmentNotFound { path: top.path.clone(), segment }
        }
    }

    /// Takes the answer to the visit that the walk waits for, and says what
    /// comes of it: the next visit, the finished document, or the error
    /// that ends the export.
    pub fn advance(self, answer: Answer) -> (out: Progress)
        ensures
            out@ == advanced(self@, answer@),
    {
        proof {
            use_type_invariant(&self);
        }
        match answer {
            Answer::Refused => Progress::Failed(self.refused()),
            Answer::Listed(listing) => {
                let path = self.awaited();
                match key_entries(&path, &listing.values) {
                    Err(e) => Progress::Failed(e),
                    Ok(values) => {
                        let ghost before = self.frames.deep_view();
                        let ghost frame = FrameView {
                            path: path@,
                            children: listing.children.deep_view(),
                            next: 0,
                        };
                        let writer = self.writer.with_key(path.clone(), values);
                        let root = self.root;
                        let mut frames = self.frames;
                        frames.push(Frame { path, children: listing.children, next: 0 });
                        assert(frames.deep_view() =~= before.push(frame));
                        assert(frames.deep_view().drop_last() =~= before);
                        proof {
                            lemma_sought_in_turn(frames.deep_view());
                        }
                        match seek(frames) {
                            (frames, Some((index, name))) => {
                                let depth = frames.len() - 1;
                                Progress::Visit {
                                    walk: ExportWalk { writer, root, frames },
                                    depth,
                                    index,
                                    name,
                                }
                            },
                            (_, None) => Progress::Done(writer),
                        }
                    },
                }
            },
        }
    }
}

/// What the enumeration of a key gives for one child: its name, unless the
/// enumeration reported an error in its place.
pub open spec fn listed_child(child: ChildEntry) -> Option<Seq<char>> {
    match child {
        ChildEntry::Unreadable => None,
        ChildEntry::Unopened { name } => Some(name@),
        ChildEntry::Opened { name, .. } => Some(name@),
    }
}

/// What the enumeration of a key gives for its children.
pub open spec fn listed_children(key: KeySnapshot) -> Seq<Option<Seq<char>>> {
    Seq::new(key.children.len() as nat, |i: int| listed_child(key.children[i]))
}

/// What the enumeration of a key gives.
pub open spec fn listing_of(key: KeySnapshot) -> ListingView {
    ListingView { values: key.values.deep_view(), children: listed_children(key) }
}

/// What comes of a walk that waits for the visit of `key`, once `key` and
/// every key below it were visited as the walk asked: each visit is
/// answered with what the snapshot holds for the child that the walk asked
/// for, or with a refusal where the store did not open that child.
pub open spec fn visited(walk: WalkView, key: KeySnapshot) -> ProgressView
    decreases key, 1nat, 0nat,
{
    visited_children(
        advanced(walk, AnswerView::Listed(listing_of(key))),
        key,
        walk.frames.len(),
        0,
    )
}

/// What comes of `progress` once every visit that it asks for among the
/// children of `key` at the positions from `from` on was answered. `key`
/// is at position `depth` of the stack.
pub open spec fn visited_children(
    progress: ProgressView,
    key: KeySnapshot,
    depth: nat,
    from: nat,
) -> ProgressView
    decreases key, 0nat, key.children.len() - from,
{
    match progress {
        ProgressView::Visit { walk, depth: asked, index, name } => {
            if asked == depth && from <= index < key.children.len() {
                match key.children[index as int] {
                    ChildEntry::Opened { name: _, key: child } => visited_children(
                        visited(walk, child),
                        key,
                        depth,
                        index + 1,
                    ),
                    _ => visited_children(
                        advanced(walk, AnswerView::Refused),
                        key,
                        depth,
                        index + 1,
                    ),
                }
            } else {
                progress
            }
        },
        _ => progress,
    }
}

/// Children that are not visited add nothing to a document.
pub proof fn lemma_passed_over(key: KeySnapshot, path: Seq<char>, from: nat, to: nat)
    requires
        from <= to <= key.children.len(),
        forall|j: int| from <= j < to ==> !visitable(#[trigger] listed_children(key)[j]),
    ensures
        exported_children(key, to, path) == exported_children(key, from, path),
    decreases to - from,
{
    if from < to {
        lemma_passed_over(key, path, from, (to - 1) as nat);
        assert(!visitable(listed_children(key)[to - 1]));
    }
}

/// A stack whose deepest key has no child left to visit goes on as the
/// stack does with that key looked through to its end.
pub proof fn lemma_sought_at_end(below: Seq<FrameView>, frame: FrameView, from: nat)
    requires
        from <= frame.children.len(),
        next_child(frame.children, from) == frame.children.len(),
    ensures
        sought(below.push(turned_to(frame, from))) == sought(
            below.push(turned_to(frame, frame.children.len())),
        ),
{
    let here = below.push(turned_to(frame, from));
    let there = below.push(turned_to(frame, frame.children.len()));
    assert(here.drop_last() =~= below);
    assert(there.drop_last() =~= below);
    assert(next_child(frame.children, frame.children.len()) == frame.children.len());
}

/// The walk gives what the export of a snapshot gives, children.
///
/// The walk has `key` on its stack above `below`, and has visited the
/// children of `key` before position `from`, with all that is below them.
pub proof fn lemma_visited_children(
    root: Seq<char>,
    start: Seq<KeyRecordView>,
    below: Seq<FrameView>,
    key: KeySnapshot,
    path: Seq<char>,
    from: nat,
)
    requires
        in_turn(below),
        from <= key.children.len(),
        exported_children(key, from, path) is Ok,
    ensures
        ({
            let frame = FrameView { path, children: listed_children(key), next: from };
            let progress = went_on(
                root,
                start + exported_children(key, from, path)->Ok_0,
                below.push(frame),
            );
            let end = visited_children(progress, key, below.len(), from);
            match exported_children(key, key.children.len() as nat, path) {
                Err(e) => end == ProgressView::Failed(e),
                Ok(all) => end == went_on(
                    root,
                    start + all,
                    below.push(turned_to(frame, key.children.len() as nat)),
                ),
            }
        }),
    decreases key, 0nat, key.children.len() - from,
{
    let names = listed_children(key);
    let count = key.children.len() as nat;
    let frame = FrameView { path, children: names, next: from };
    let so_far = exported_children(key, from, path)->Ok_0;
    let records = start + so_far;
    let stack = below.push(frame);
    let progress = went_on(root, records, stack);
    let end = visited_children(progress, key, below.len(), from);
    lemma_next_child(names, from);
    let index = next_child(names, from);
    assert(stack.drop_last() =~= below);
    assert(stack.last() == frame);
    lemma_passed_over(key, path, from, index);
    if index == count {
        assert(turned_to(frame, from) == frame);
        lemma_sought_at_end(below, frame, from);
        // The key leaves the stack, so whatever the walk asks for next is
        // asked of a key above it.
        let done = below.push(turned_to(frame, count));
        assert(done.drop_last() =~= below);
        if below.len() > 0 {
            let turned = below.drop_last().push(
                turned_to(below.last(), below.last().next + 1),
            );
            assert(turned.drop_last() =~= below.drop_last());
            assert forall|j: int| 0 <= j < turned.drop_last().len() implies (
            #[trigger] turned.drop_last()[j]).next < turned.drop_last()[j].children.len()
                && visitable(turned.drop_last()[j].children[turned.drop_last()[j].next as int]) by {
                assert(turned.drop_last()[j] == below[j]);
            }
            assert(below[below.len() - 1].next < below[below.len() - 1].children.len());
            lemma_sought_in_turn(turned);
            assert(sought(done) == sought(turned));
        } else {
            assert(sought(done).1 is None);
        }
        assert(progress == went_on(root, records, done));
        assert(end == progress);
    } else {
        let turned = below.push(turned_to(frame, index));
        let walk = WalkView { records, root, frames: turned };
        assert(progress == ProgressView::Visit {
            walk,
            depth: below.len(),
            index,
            name: names[index as int]->0,
        });
        assert(turned.drop_last() =~= below);
        assert(turned.last() == turned_to(frame, index));
        assert forall|j: int| 0 <= j < turned.len() implies (#[trigger] turned[j]).next
            < turned[j].children.len() && visitable(turned[j].children[turned[j].next as int]) by {
            if j < below.len() {
                assert(turned[j] == below[j]);
            }
        }
        let before = exported_children(key, index, path)->Ok_0;
        assert(before == so_far);
        match key.children[index as int] {
            ChildEntry::Opened { name, key: child } => {
                assert(names[index as int] == Some(name@));
                assert(awaited_path(walk) == child_path(path, name@));
                lemma_visited(walk, child);
                match exported(child, child_path(path, name@)) {
                    Err(e) => {
                        assert(exported_children(key, index + 1, path) == Err::<
                            Seq<KeyRecordView>,
                            ErrorView,
                        >(e));
                        lemma_children_stop(key, path, index + 1);
                        assert(visited(walk, child) == ProgressView::Failed(e));
                        assert(end == ProgressView::Failed(e));
                    },
                    Ok(found) => {
                        assert(exported_children(key, index + 1, path) == Ok::<
                            Seq<KeyRecordView>,
                            ErrorView,
                        >(before + found));
                        assert(records + found =~= start + (before + found));
                        assert(turned_to(turned.last(), turned.last().next + 1) == (FrameView {
                            path,
                            children: names,
                            next: index + 1,
                        }));
                        lemma_visited_children(root, start, below, key, path, index + 1);
                        let next = FrameView { path, children: names, next: index + 1 };
                        assert(turned_to(next, count) == turned_to(frame, count));
                        assert(visited(walk, child) == went_on(
                            root,
                            start + (before + found),
                            below.push(next),
                        ));
                        assert(end == visited_children(
                            visited(walk, child),
                            key,
                            below.len(),
                            index + 1,
                        ));
                    },
                }
            },
            ChildEntry::Unopened { name } => {
                assert(names[index as int] == Some(name@));
                let e = ErrorView::SegmentNotFound { path, segment: name@ };
                assert(exported_children(key, index + 1, path) == Err::<
                    Seq<KeyRecordView>,
                    ErrorView,
                >(e));
                lemma_children_stop(key, path, index + 1);
                assert(advanced(walk, AnswerView::Refused) == ProgressView::Failed(e));
                assert(visited_children(ProgressView::Failed(e), key, below.len(), index + 1)
                    == ProgressView::Failed(e));
                assert(end == ProgressView::Failed(e));
            },
            ChildEntry::Unreadable => {
                assert(names[index as int] is None);
            },
        }
    }
}

/// The walk gives what the export of a snapshot gives.
///
/// A walk that waits for the visit of `key`, and gets for an answer to
/// every visit what the snapshot holds, adds to the document the keys that
/// [`exported`] gives for `key` at the path at which the walk waits for it,
/// and goes on behind `key`. Where [`exported`] gives an error, the walk
/// ends with that error.
pub proof fn lemma_visited(walk: WalkView, key: KeySnapshot)
    requires
        in_turn(walk.frames),
    ensures
        match exported(key, awaited_path(walk)) {
            Err(e) => visited(walk, key) == ProgressView::Failed(e),
            Ok(found) => visited(walk, key) == resumed(walk, walk.records + found),
        },
    decreases key, 1nat, 0nat,
{
    let path = awaited_path(walk);
    let count = key.children.len() as nat;
    match entries_of(path, key.values.deep_view()) {
        Err(e) => {},
        Ok(values) => {
            let first = KeyRecordView { path, values };
            let start = walk.records.push(first);
            let frame = FrameView { path, children: listed_children(key), next: 0 };
            assert(start + Seq::<KeyRecordView>::empty() =~= start);
            lemma_visited_children(walk.root, start, walk.frames, key, path, 0);
            match exported_children(key, count, path) {
                Err(e) => {},
                Ok(below) => {
                    assert(start + below =~= walk.records + (seq![first] + below));
                    let done = walk.frames.push(turned_to(frame, count));
                    assert(done.drop_last() =~= walk.frames);
                    assert(next_child(frame.children, count) == count);
                },
            }
        },
    }
}

/// A walk from its start gives the document that the export of a snapshot
/// gives, behind the keys that the writer had, or the error with which the
/// export of the snapshot ends.
pub proof fn lemma_walk_exports(records: Seq<KeyRecordView>, name: Seq<char>, key: KeySnapshot)
    ensures
        match exported(key, name) {
            Err(e) => visited(
                WalkView { records, root: name, frames: Seq::empty() },
                key,
            ) == ProgressView::Failed(e),
            Ok(found) => visited(
                WalkView { records, root: name, frames: Seq::empty() },
                key,
            ) == ProgressView::Done(records + found),
        },
{
    lemma_visited(WalkView { records, root: name, frames: Seq::empty() }, key);
}

} // verus!
