//! Snapshots of files taken before the tools change them, newest first.
use vstd::prelude::*;

use crate::protocol::opt_view;
use crate::text::{decimal, owned, push_str, u64_to_string};

verus! {

/// The content a file had before a change; `None` where it did not exist.
#[derive(Debug, Clone, PartialEq, Eq)]
pub struct FileSnapshot {
    pub path: String,
    pub previous_content: Option<String>,
}

/// The files that one change touched.
#[derive(Debug, Clone, PartialEq, Eq)]
pub struct WorkspaceSnapshot {
    pub id: String,
    pub summary: String,
    pub created_at_epoch: u64,
    pub files: Vec<FileSnapshot>,
}

pub ghost struct FileView {
    pub path: Seq<char>,
    pub previous_content: Option<Seq<char>>,
}

pub ghost struct SnapshotView {
    pub id: Seq<char>,
    pub summary: Seq<char>,
    pub created_at_epoch: u64,
    pub files: Seq<FileView>,
}

impl View for FileSnapshot {
    type V = FileView;

    open spec fn view(&self) -> FileView {
        FileView { path: self.path@, previous_content: opt_view(self.previous_content) }
    }
}

pub open spec fn file_views(files: Seq<FileSnapshot>) -> Seq<FileView> {
    files.map_values(|f: FileSnapshot| f@)
}

impl View for WorkspaceSnapshot {
    type V = SnapshotView;

    open spec fn view(&self) -> SnapshotView {
        SnapshotView {
            id: self.id@,
            summary: self.summary@,
            created_at_epoch: self.created_at_epoch,
            files: file_views(self.files@),
        }
    }
}

pub open spec fn snapshot_views(s: Seq<WorkspaceSnapshot>) -> Seq<SnapshotView> {
    s.map_values(|x: WorkspaceSnapshot| x@)
}

/// The most snapshots that are kept.
pub const MAX_SNAPSHOTS: usize = 50;

/// The snapshots, newest first, and the number of the last one taken.
pub ghost struct HistoryView {
    pub snapshots: Seq<SnapshotView>,
    pub next_id: u64,
}

/// The recorded snapshots, newest first.
#[derive(Debug)]
pub struct WorkspaceHistory {
    snapshots: Vec<WorkspaceSnapshot>,
    next_id: u64,
}

impl View for WorkspaceHistory {
    type V = HistoryView;

    closed spec fn view(&self) -> HistoryView {
        HistoryView { snapshots: snapshot_views(self.snapshots@), next_id: self.next_id }
    }
}

/// The id `snapshot-<n>`.
pub open spec fn snapshot_id(n: nat) -> Seq<char> {
    "snapshot-"@ + decimal(n)
}

/// The history after recording a snapshot of `files`: none is taken for no
/// files; otherwise the counter goes up (stopping at its largest value) and
/// the new snapshot goes first, the oldest beyond fifty dropping out.
pub open spec fn recorded(h: HistoryView, summary: Seq<char>, created_at_epoch: u64, files: Seq<FileView>) -> HistoryView {
    if files.len() == 0 {
        h
    } else {
        let n: u64 = if h.next_id < u64::MAX {
            (h.next_id + 1) as u64
        } else {
            h.next_id
        };
        let s = SnapshotView { id: snapshot_id(n as nat), summary, created_at_epoch, files };
        HistoryView { snapshots: seq![s].add(h.snapshots).take(if h.snapshots.len() + 1 > 50 { 50 } else { (h.snapshots.len() + 1) as int }), next_id: n }
    }
}

impl FileSnapshot {
    pub fn copy(&self) -> (r: FileSnapshot)
        ensures
            r@ == self@,
    {
        FileSnapshot {
            path: self.path.clone(),
            previous_content: crate::protocol::copy_opt_string(&self.previous_content),
        }
    }
}

impl WorkspaceSnapshot {
    pub fn copy(&self) -> (r: WorkspaceSnapshot)
        ensures
            r@ == self@,
    {
        let mut files: Vec<FileSnapshot> = Vec::new();
        let mut i: usize = 0;
        while i < self.files.len()
            invariant
                i <= self.files@.len(),
                file_views(files@) == file_views(self.files@).take(i as int),
            decreases self.files@.len() - i,
        {
            let ghost before = files@;
            files.push(self.files[i].copy());
            assert(file_views(files@) =~= file_views(before).push(self.files@[i as int]@));
            assert(file_views(self.files@).take(i + 1) =~= file_views(self.files@).take(i as int).push(
                self.files@[i as int]@,
            ));
            i += 1;
        }
        assert(file_views(self.files@).take(i as int) =~= file_views(self.files@));
        WorkspaceSnapshot {
            id: self.id.clone(),
            summary: self.summary.clone(),
            created_at_epoch: self.created_at_epoch,
            files,
        }
    }
}

fn copy_snapshots(s: &Vec<WorkspaceSnapshot>) -> (r: Vec<WorkspaceSnapshot>)
    ensures
        snapshot_views(r@) == snapshot_views(s@),
{
    let mut r: Vec<WorkspaceSnapshot> = Vec::new();
    let mut i: usize = 0;
    while i < s.len()
        invariant
            i <= s@.len(),
            snapshot_views(r@) == snapshot_views(s@).take(i as int),
        decreases s@.len() - i,
    {
        let ghost before = r@;
        r.push(s[i].copy());
        assert(snapshot_views(r@) =~= snapshot_views(before).push(s@[i as int]@));
        assert(snapshot_views(s@).take(i + 1) =~= snapshot_views(s@).take(i as int).push(s@[i as int]@));
        i += 1;
    }
    assert(snapshot_views(s@).take(i as int) =~= snapshot_views(s@));
    r
}

impl WorkspaceHistory {
    pub fn new() -> (r: WorkspaceHistory)
        ensures
            r@ == (HistoryView { snapshots: Seq::empty(), next_id: 0 }),
    {
        let r = WorkspaceHistory { snapshots: Vec::new(), next_id: 0 };
        assert(snapshot_views(r.snapshots@) =~= Seq::<SnapshotView>::empty());
        r
    }

    /// Records the previous contents of `files` as a new snapshot, newest
    /// first, and returns it; records nothing for no files.
    pub fn record(&mut self, summary: &str, created_at_epoch: u64, files: Vec<FileSnapshot>) -> (r: Option<WorkspaceSnapshot>)
        ensures
            final(self)@ == recorded(old(self)@, summary@, created_at_epoch, file_views(files@)),
            files@.len() == 0 <==> r is None,
            r matches Some(s) ==> s@ == final(self)@.snapshots[0],
    {
        if files.len() == 0 {
            return None;
        }
        let next = if self.next_id < u64::MAX {
            self.next_id + 1
        } else {
            self.next_id
        };
        self.next_id = next;
        let mut id = owned("snapshot-");
        let digits = u64_to_string(next);
        push_str(&mut id, digits.as_str());
        let snapshot = WorkspaceSnapshot { id, summary: owned(summary), created_at_epoch, files };
        let ghost before = self.snapshots@;
        let result = snapshot.copy();
        self.snapshots.insert(0, snapshot);
        let ghost inserted = self.snapshots@;
        if self.snapshots.len() > MAX_SNAPSHOTS {
            self.snapshots.truncate(MAX_SNAPSHOTS);
        }
        proof {
            assert(inserted =~= seq![inserted[0]].add(before));
            assert(snapshot_views(inserted) =~= seq![inserted[0]@].add(snapshot_views(before)));
            let len: int = if before.len() + 1 > 50 { 50 } else { (before.len() + 1) as int };
            assert(self.snapshots@ =~= inserted.take(len));
            assert(snapshot_views(self.snapshots@) =~= snapshot_views(inserted).take(len));
        }
        Some(result)
    }

    /// All snapshots, newest first.
    pub fn list(&self) -> (r: Vec<WorkspaceSnapshot>)
        ensures
            snapshot_views(r@) == self@.snapshots,
    {
        copy_snapshots(&self.snapshots)
    }

    /// The newest snapshot.
    pub fn latest(&self) -> (r: Option<WorkspaceSnapshot>)
        ensures
            match r {
                Some(s) => self@.snapshots.len() > 0 && s@ == self@.snapshots[0],
                None => self@.snapshots.len() == 0,
            },
    {
        if self.snapshots.len() == 0 {
            None
        } else {
            Some(self.snapshots[0].copy())
        }
    }

    /// The newest snapshot with the id `id`.
    pub fn find(&self, id: &str) -> (r: Option<WorkspaceSnapshot>)
        ensures
            match r {
                Some(s) => exists|i: int|
                    0 <= i < self@.snapshots.len() && s@ == self@.snapshots[i] && self@.snapshots[i].id == id@
                        && forall|k: int| 0 <= k < i ==> #[trigger] self@.snapshots[k].id != id@,
                None => forall|i: int| 0 <= i < self@.snapshots.len() ==> #[trigger] self@.snapshots[i].id != id@,
            },
    {
        let key = owned(id);
        let mut i: usize = 0;
        while i < self.snapshots.len()
            invariant
                i <= self.snapshots@.len(),
                key@ == id@,
                forall|k: int| 0 <= k < i ==> #[trigger] self@.snapshots[k].id != id@,
            decreases self.snapshots@.len() - i,
        {
            assert(self@.snapshots[i as int] == self.snapshots@[i as int]@);
            if self.snapshots[i].id == key {
                return Some(self.snapshots[i].copy());
            }
            i += 1;
        }
        None
    }
}

impl Default for WorkspaceHistory {
    fn default() -> (r: WorkspaceHistory)
        ensures
            r@ == (HistoryView { snapshots: Seq::empty(), next_id: 0 }),
    {
        WorkspaceHistory::new()
    }
}

/// Recording then asking for the latest snapshot gives the one recorded,
/// and the history never holds more than fifty snapshots.
pub proof fn law_record_then_latest(h: HistoryView, summary: Seq<char>, created_at_epoch: u64, files: Seq<FileView>)
    requires
        files.len() > 0,
        h.snapshots.len() <= 50,
    ensures
        recorded(h, summary, created_at_epoch, files).snapshots[0].summary == summary,
        recorded(h, summary, created_at_epoch, files).snapshots[0].files == files,
        recorded(h, summary, created_at_epoch, files).snapshots.len() <= 50,
        recorded(h, summary, created_at_epoch, files).snapshots.len() == if h.snapshots.len() < 50 {
            h.snapshots.len() + 1
        } else {
            50
        },
        forall|k: int| 1 <= k < recorded(h, summary, created_at_epoch, files).snapshots.len()
            ==> #[trigger] recorded(h, summary, created_at_epoch, files).snapshots[k] == h.snapshots[k - 1],
{
}

} // verus!
