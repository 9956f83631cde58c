//! Removing the allocations of working directories that no longer exist, one
//! decision at a time.

use vstd::prelude::*;

use crate::table;
use crate::table::Table;
use crate::text;
use crate::text::decimal_text;

verus! {

/// What to do next.
#[derive(Debug)]
pub enum CollectAction {
    /// Find out whether the working directory exists.
    CheckDirectory { dir: String },
    /// Delete the rows of the working directory.
    DeleteRows { dir: String },
    /// Nothing: every working directory has been seen.
    Finished,
}

/// An action, with texts for its strings.
pub enum CollectActionView {
    CheckDirectory { dir: Seq<char> },
    DeleteRows { dir: Seq<char> },
    Finished,
}

impl View for CollectAction {
    type V = CollectActionView;

    open spec fn view(&self) -> CollectActionView {
        match *self {
            CollectAction::CheckDirectory { dir } => CollectActionView::CheckDirectory {
                dir: dir@,
            },
            CollectAction::DeleteRows { dir } => CollectActionView::DeleteRows { dir: dir@ },
            CollectAction::Finished => CollectActionView::Finished,
        }
    }
}

/// The answer to an action.
#[derive(Clone, Copy, Debug, PartialEq, Eq, Structural)]
pub enum CollectReply {
    /// Whether the working directory exists.
    Directory { exists: bool },
    /// How many rows were deleted.
    Deleted { rows: usize },
}

/// A collection: the working directories in front have been seen.
pub struct CollectView {
    pub dirs: Seq<Seq<char>>,
    pub seen: int,
    pub missing: bool,
    pub freed: int,
}

/// A collection at its start.
pub open spec fn collect_start(dirs: Seq<Seq<char>>) -> CollectView {
    CollectView { dirs, seen: 0, missing: false, freed: 0 }
}

/// What the collection asks for.
pub open spec fn collect_pending(c: CollectView) -> CollectActionView {
    if c.seen >= c.dirs.len() {
        CollectActionView::Finished
    } else if c.missing {
        CollectActionView::DeleteRows { dir: c.dirs[c.seen] }
    } else {
        CollectActionView::CheckDirectory { dir: c.dirs[c.seen] }
    }
}

/// Whether `reply` is an answer to `action`.
pub open spec fn collect_answers(action: CollectActionView, reply: CollectReply) -> bool {
    match action {
        CollectActionView::CheckDirectory { dir } => reply is Directory,
        CollectActionView::DeleteRows { dir } => reply is Deleted,
        CollectActionView::Finished => false,
    }
}

/// The collection after an answer to what it asked for.
pub open spec fn collect_after(c: CollectView, reply: CollectReply) -> CollectView {
    match reply {
        CollectReply::Directory { exists } => if exists {
            CollectView { seen: c.seen + 1, ..c }
        } else {
            CollectView { missing: true, ..c }
        },
        CollectReply::Deleted { rows } => CollectView {
            seen: c.seen + 1,
            missing: false,
            freed: c.freed + rows,
            ..c
        },
    }
}

/// Every answer brings the collection nearer to its end.
pub proof fn collection_makes_progress(c: CollectView, reply: CollectReply)
    requires
        collect_answers(collect_pending(c), reply),
    ensures
        ({
            let next = collect_after(c, reply);
            ||| next.seen == c.seen + 1 && next.seen <= next.dirs.len()
            ||| next.seen == c.seen && next.missing && !c.missing
        }),
        collect_after(c, reply).dirs == c.dirs,
{
}

/// Rows are deleted only of a working directory that was answered not to
/// exist.
pub proof fn only_missing_directories_are_deleted(
    c: CollectView,
    reply: CollectReply,
    dir: Seq<char>,
)
    requires
        collect_answers(collect_pending(c), reply),
        collect_pending(collect_after(c, reply)) == (CollectActionView::DeleteRows { dir }),
    ensures
        collect_pending(c) == (CollectActionView::CheckDirectory { dir }),
        reply == (CollectReply::Directory { exists: false }),
{
}

/// A collection of the allocations of missing working directories.
#[derive(Debug)]
pub struct Collector {
    dirs: Vec<String>,
    seen: usize,
    missing: bool,
    freed: usize,
}

impl View for Collector {
    type V = CollectView;

    closed spec fn view(&self) -> CollectView {
        CollectView {
            dirs: text::texts(self.dirs@),
            seen: self.seen as int,
            missing: self.missing,
            freed: self.freed as int,
        }
    }
}

impl Collector {
    /// Starts a collection over the working directories of the table.
    pub fn new(dirs: Vec<String>) -> (r: Self)
        ensures
            r@ == collect_start(text::texts(dirs@)),
    {
        Collector { dirs, seen: 0, missing: false, freed: 0 }
    }

    /// What is to be done next.
    pub fn action(&self) -> (r: CollectAction)
        ensures
            r@ == collect_pending(self@),
    {
        if self.seen >= self.dirs.len() {
            return CollectAction::Finished;
        }
        let dir = self.dirs[self.seen].as_str().to_owned();
        assert(self@.dirs[self.seen as int] == dir@);
        if self.missing {
            CollectAction::DeleteRows { dir }
        } else {
            CollectAction::CheckDirectory { dir }
        }
    }

    /// Takes the answer to the action. An answer to another action is not
    /// taken, and changes nothing.
    pub fn advance(&mut self, reply: CollectReply) -> (taken: bool)
        requires
            reply matches CollectReply::Deleted { rows } ==> old(self)@.freed + rows <= usize::MAX,
        ensures
            taken == collect_answers(collect_pending(old(self)@), reply),
            final(self)@ == (if taken {
                collect_after(old(self)@, reply)
            } else {
                old(self)@
            }),
    {
        if self.seen >= self.dirs.len() {
            return false;
        }
        match reply {
            CollectReply::Directory { exists } => {
                if self.missing {
                    return false;
                }
                if exists {
                    self.seen = self.seen + 1;
                } else {
                    self.missing = true;
                }
            },
            CollectReply::Deleted { rows } => {
                if !self.missing {
                    return false;
                }
                self.freed = self.freed + rows;
                self.missing = false;
                self.seen = self.seen + 1;
            },
        }
        true
    }

    /// How many rows have been deleted.
    pub fn freed(&self) -> (r: usize)
        ensures
            r == self@.freed,
    {
        self.freed
    }

    /// The line that is printed at the end.
    pub fn summary(&self) -> (r: String)
        ensures
            r@ == (if self@.freed == 0 {
                "Nothing to collect."@
            } else {
                "Freed "@ + text::decimal(self@.freed as nat) + " total allocation(s)."@
            }),
    {
        if self.freed == 0 {
            "Nothing to collect.".to_owned()
        } else {
            let mut out = "Freed ".to_owned();
            out.append(decimal_text(self.freed as u64).as_str());
            out.append(" total allocation(s).");
            out
        }
    }
}

/// The line that is printed of a working directory whose rows were deleted.
pub fn removal_line(rows: usize, dir: &str) -> (r: String)
    ensures
        r@ == "GC: removed "@ + text::decimal(rows as nat)
            + " allocation(s) for missing working directory "@ + dir@,
{
    let mut out = "GC: removed ".to_owned();
    out.append(decimal_text(rows as u64).as_str());
    out.append(" allocation(s) for missing working directory ");
    out.append(dir);
    out
}

/// The keys of the rows of a working directory.
pub open spec fn rows_of(t: Table, dir: Seq<char>) -> Set<(Seq<char>, Seq<char>)> {
    t.dom().filter(|k: (Seq<char>, Seq<char>)| k.0 == dir)
}

/// What an action makes of the table, and the true answer to it, on a host
/// with the directories `existing`.
pub open spec fn collect_performed(
    t: Table,
    existing: Set<Seq<char>>,
    action: CollectActionView,
) -> (Table, CollectReply) {
    match action {
        CollectActionView::CheckDirectory { dir } => (
            t,
            CollectReply::Directory { exists: existing.contains(dir) },
        ),
        CollectActionView::DeleteRows { dir } => (
            table::released(t, dir),
            CollectReply::Deleted { rows: rows_of(t, dir).len() as usize },
        ),
        CollectActionView::Finished => (t, CollectReply::Directory { exists: true }),
    }
}

/// The collection and the table at the end, when every action is performed
/// and answered truly.
pub open spec fn collect_to_end(c: CollectView, t: Table, existing: Set<Seq<char>>) -> (
    CollectView,
    Table,
)
    decreases
            c.dirs.len() - c.seen,
            (if c.missing {
                0int
            } else {
                1int
            }),
{
    if collect_pending(c) is Finished {
        (c, t)
    } else {
        let (next, reply) = collect_performed(t, existing, collect_pending(c));
        collect_to_end(collect_after(c, reply), next, existing)
    }
}

/// A collection over the working directories of the table, performed and
/// answered truly, leaves exactly the rows whose working directories exist,
/// as they were, and counts the rows that went.
pub proof fn collection_removes_missing_directories(
    t: Table,
    existing: Set<Seq<char>>,
    dirs: Seq<Seq<char>>,
)
    requires
        t.dom().finite(),
        t.dom().len() <= usize::MAX,
        forall|k: (Seq<char>, Seq<char>)| #[trigger] t.contains_key(k) ==> dirs.contains(k.0),
    ensures
        ({
            let (end, after) = collect_to_end(collect_start(dirs), t, existing);
            &&& collect_pending(end) is Finished
            &&& forall|k: (Seq<char>, Seq<char>)|
                #[trigger] after.contains_key(k) <==> t.contains_key(k) && existing.contains(k.0)
            &&& forall|k: (Seq<char>, Seq<char>)| #[trigger]
                after.contains_key(k) ==> after[k] == t[k]
            &&& end.freed == t.dom().len() - after.dom().len()
        }),
{
    collect_from(collect_start(dirs), t, existing);
}

proof fn collect_from(c: CollectView, t: Table, existing: Set<Seq<char>>)
    requires
        !c.missing,
        0 <= c.seen,
        t.dom().finite(),
        t.dom().len() <= usize::MAX,
        forall|k: (Seq<char>, Seq<char>)| #[trigger]
            t.contains_key(k) && !existing.contains(k.0) ==> exists|i: int|
                c.seen <= i < c.dirs.len() && c.dirs[i] == k.0,
    ensures
        ({
            let (end, after) = collect_to_end(c, t, existing);
            &&& collect_pending(end) is Finished
            &&& forall|k: (Seq<char>, Seq<char>)|
                #[trigger] after.contains_key(k) <==> t.contains_key(k) && existing.contains(k.0)
            &&& forall|k: (Seq<char>, Seq<char>)| #[trigger]
                after.contains_key(k) ==> after[k] == t[k]
            &&& end.freed == c.freed + t.dom().len() - after.dom().len()
        }),
    decreases c.dirs.len() - c.seen,
{
    if c.seen < c.dirs.len() {
        let dir = c.dirs[c.seen];
        if existing.contains(dir) {
            let next = CollectView { seen: c.seen + 1, ..c };
            assert(collect_after(c, CollectReply::Directory { exists: true }) == next);
            assert(collect_to_end(c, t, existing) == collect_to_end(next, t, existing));
            assert forall|k: (Seq<char>, Seq<char>)| #[trigger]
                t.contains_key(k) && !existing.contains(k.0) implies exists|i: int|
                next.seen <= i < next.dirs.len() && next.dirs[i] == k.0 by {
                let i = choose|i: int| c.seen <= i < c.dirs.len() && c.dirs[i] == k.0;
                assert(i != c.seen);
            }
            collect_from(next, t, existing);
        } else {
            let gone = CollectView { missing: true, ..c };
            assert(collect_after(c, CollectReply::Directory { exists: false }) == gone);
            assert(collect_to_end(c, t, existing) == collect_to_end(gone, t, existing));
            let left = table::released(t, dir);
            removal_counts_rows(t, dir);
            let rows = rows_of(t, dir).len() as usize;
            let next = CollectView { seen: c.seen + 1, freed: c.freed + rows, ..c };
            assert(collect_after(gone, CollectReply::Deleted { rows }) == next);
            assert(collect_to_end(gone, t, existing) == collect_to_end(next, left, existing));
            assert forall|k: (Seq<char>, Seq<char>)| #[trigger]
                left.contains_key(k) && !existing.contains(k.0) implies exists|i: int|
                next.seen <= i < next.dirs.len() && next.dirs[i] == k.0 by {
                assert(t.contains_key(k));
                let i = choose|i: int| c.seen <= i < c.dirs.len() && c.dirs[i] == k.0;
                assert(i != c.seen);
            }
            collect_from(next, left, existing);
        }
    } else {
        assert(collect_to_end(c, t, existing) == (c, t));
        assert forall|k: (Seq<char>, Seq<char>)| #[trigger] t.contains_key(k) implies existing.contains(
            k.0,
        ) by {
            if !existing.contains(k.0) {
                let i = choose|i: int| c.seen <= i < c.dirs.len() && c.dirs[i] == k.0;
                assert(false);
            }
        }
    }
}

/// The rows that a release removes are those of the working directory.
proof fn removal_counts_rows(t: Table, dir: Seq<char>)
    requires
        t.dom().finite(),
    ensures
        table::released(t, dir).dom().finite(),
        table::released(t, dir).dom().len() + rows_of(t, dir).len() == t.dom().len(),
{
    let left = table::released(t, dir).dom();
    let own = rows_of(t, dir);
    assert(left =~= t.dom().difference(own));
    assert(t.dom() =~= left.union(own));
    assert(left.disjoint(own));
    vstd::set_lib::lemma_set_disjoint_lens(left, own);
}

/// What each action does to the table, and what is answered truly to it: a
/// check changes nothing and gives whether the directory exists; a deletion
/// removes the rows of the directory, and gives their number.
pub proof fn collect_actions_do_what_they_name(
    t: Table,
    existing: Set<Seq<char>>,
    dir: Seq<char>,
    key: (Seq<char>, Seq<char>),
)
    requires
        t.dom().finite(),
        t.dom().len() <= usize::MAX,
    ensures
        collect_performed(t, existing, CollectActionView::CheckDirectory { dir }) == (
            t,
            CollectReply::Directory { exists: existing.contains(dir) },
        ),
        ({
            let (left, reply) = collect_performed(
                t,
                existing,
                CollectActionView::DeleteRows { dir },
            );
            &&& left.contains_key(key) <==> t.contains_key(key) && key.0 != dir
            &&& left.contains_key(key) ==> left[key] == t[key]
            &&& reply matches CollectReply::Deleted { rows } && rows == t.dom().len()
                - left.dom().len()
        }),
{
    removal_counts_rows(t, dir);
}

/// A collection goes on from each answer to its action until it asks for
/// nothing.
pub proof fn collection_goes_from_answer_to_answer(
    c: CollectView,
    t: Table,
    existing: Set<Seq<char>>,
)
    ensures
        collect_to_end(c, t, existing) == (match collect_pending(c) {
            CollectActionView::Finished => (c, t),
            action => {
                let (next, reply) = collect_performed(t, existing, action);
                collect_to_end(collect_after(c, reply), next, existing)
            },
        }),
{
}

/// A true answer to what a collection asks for is one that it takes.
pub proof fn true_collect_answers_are_taken(c: CollectView, t: Table, existing: Set<Seq<char>>)
    ensures
        match collect_pending(c) {
            CollectActionView::Finished => true,
            action => collect_answers(action, collect_performed(t, existing, action).1),
        },
{
}

/// An action of a collection is seen as it is, with its directory as a text.
pub proof fn collect_actions_are_seen_as_they_are(a: CollectAction)
    ensures
        match a {
            CollectAction::CheckDirectory { dir } => a@ == (CollectActionView::CheckDirectory {
                dir: dir@,
            }),
            CollectAction::DeleteRows { dir } => a@ == (CollectActionView::DeleteRows { dir: dir@ }),
            CollectAction::Finished => a@ is Finished,
        },
{
}

/// A reply is an answer only to the kind of action that it replies to.
pub proof fn collect_replies_answer_their_own_actions(
    action: CollectActionView,
    reply: CollectReply,
)
    ensures
        collect_answers(action, reply) <==> {
            ||| action is CheckDirectory && reply is Directory
            ||| action is DeleteRows && reply is Deleted
        },
{
}

} // verus!
