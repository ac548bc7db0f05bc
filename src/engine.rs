use vstd::prelude::*;
use crossbeam::queue::SegQueue;
use crate::ext::{is_target_file_name, is_target_name};
use crate::paths::{ScanPath, is_prefix_of};
use crate::queue::{
    dir_queue_is_empty, dir_queue_new, dir_queue_pop, dir_queue_push, dirs_queued,
    record_queue_new, record_queue_pop, record_queue_push, records_queued,
};
use crate::record::{FileError, FileInfo, process_file};
use crate::storage::{StorageType, permits_for};

verus! {

/// What a directory listing says an entry is.
#[derive(Debug, Clone, Copy, PartialEq, Eq, Structural)]
pub enum EntryKind {
    Directory,
    /// Anything that is not a directory (a file, a link to one, ...).
    NotDirectory,
    /// The entry's type could not be read.
    Undetermined,
}

/// One entry of a directory listing.
#[derive(Debug)]
pub struct DirEntryInfo {
    pub name: Vec<u8>,
    pub kind: EntryKind,
}

/// The files of a listing of `dir` that a scan reports, in listing order.
pub open spec fn files_in(dir: Seq<Seq<u8>>, entries: Seq<DirEntryInfo>) -> Seq<Seq<Seq<u8>>>
    decreases entries.len(),
{
    if entries.len() == 0 {
        Seq::empty()
    } else {
        let prev = files_in(dir, entries.drop_last());
        let e = entries.last();
        if e.kind == EntryKind::NotDirectory && is_target_name(e.name@) {
            prev.push(dir.push(e.name@))
        } else {
            prev
        }
    }
}

/// The subdirectories of a listing of `dir`, in listing order.
pub open spec fn subdirs_in(dir: Seq<Seq<u8>>, entries: Seq<DirEntryInfo>) -> Seq<Seq<Seq<u8>>>
    decreases entries.len(),
{
    if entries.len() == 0 {
        Seq::empty()
    } else {
        let prev = subdirs_in(dir, entries.drop_last());
        let e = entries.last();
        if e.kind == EntryKind::Directory {
            prev.push(dir.push(e.name@))
        } else {
            prev
        }
    }
}

pub open spec fn views_of(paths: Seq<ScanPath>) -> Seq<Seq<Seq<u8>>> {
    paths.map_values(|p: ScanPath| p@)
}

/// Splits a listing of `dir` into the chart files it holds and its
/// subdirectories. Entries of other kinds, or of unknown kind, are left out.
pub fn process_directory(dir: &ScanPath, entries: &Vec<DirEntryInfo>) -> (r: (Vec<ScanPath>, Vec<ScanPath>))
    ensures
        views_of(r.0@) == files_in(dir@, entries@),
        views_of(r.1@) == subdirs_in(dir@, entries@),
{
    let mut files: Vec<ScanPath> = Vec::new();
    let mut subdirs: Vec<ScanPath> = Vec::new();
    let mut i: usize = 0;
    while i < entries.len()
        invariant
            i <= entries@.len(),
            views_of(files@) == files_in(dir@, entries@.subrange(0, i as int)),
            views_of(subdirs@) == subdirs_in(dir@, entries@.subrange(0, i as int)),
        decreases entries@.len() - i,
    {
        let e = &entries[i];
        let ghost pre = entries@.subrange(0, i as int);
        assert(entries@.subrange(0, i + 1).drop_last() =~= pre);
        assert(entries@.subrange(0, i + 1).last() == entries@[i as int]);
        let ghost f0 = views_of(files@);
        let ghost s0 = views_of(subdirs@);
        match e.kind {
            EntryKind::Directory => {
                let p = dir.join(e.name.as_slice());
                subdirs.push(p);
                assert(views_of(subdirs@) =~= s0.push(dir@.push(e.name@)));
            },
            EntryKind::NotDirectory => {
                if is_target_file_name(e.name.as_slice()) {
                    let p = dir.join(e.name.as_slice());
                    files.push(p);
                    assert(views_of(files@) =~= f0.push(dir@.push(e.name@)));
                }
            },
            EntryKind::Undetermined => {},
        }
        i = i + 1;
    }
    assert(entries@.subrange(0, entries@.len() as int) =~= entries@);
    (files, subdirs)
}

/// The walk of one scan: directories still to list, how many have been handed
/// out and not yet reported back, and the I/O budget of the medium.
pub struct Traversal {
    root: ScanPath,
    pending: SegQueue<ScanPath>,
    outstanding: usize,
    permits: usize,
    cancelled: bool,
}

impl Traversal {
    pub closed spec fn root_view(&self) -> Seq<Seq<u8>> {
        self.root@
    }

    pub closed spec fn pending_view(&self) -> Seq<Seq<Seq<u8>>> {
        dirs_queued(self.pending)
    }

    pub closed spec fn outstanding_view(&self) -> nat {
        self.outstanding as nat
    }

    pub closed spec fn permits_view(&self) -> nat {
        self.permits as nat
    }

    pub closed spec fn cancelled_view(&self) -> bool {
        self.cancelled
    }

    /// Every directory waiting to be listed lies under the root.
    pub open spec fn wf(&self) -> bool {
        forall|i: int| 0 <= i < self.pending_view().len() ==> is_prefix_of(self.root_view(), #[trigger] self.pending_view()[i])
    }

    /// The walk has nothing left to hand out.
    pub open spec fn exhausted(&self) -> bool {
        self.pending_view().len() == 0 || self.cancelled_view()
    }

    /// A walk of the tree under `root`, on a medium of kind `storage`: only
    /// `root` waits to be listed.
    pub fn new(root: ScanPath, storage: StorageType) -> (r: Traversal)
        ensures
            r.root_view() == root@,
            r.pending_view() == seq![root@],
            r.wf(),
            r.outstanding_view() == 0,
            r.permits_view() == (if storage == StorageType::SSD { 16nat } else { 1nat }),
            !r.cancelled_view(),
    {
        let mut pending = dir_queue_new();
        dir_queue_push(&mut pending, root.duplicate());
        assert(dirs_queued(pending) =~= seq![root@]);
        assert(root@.subrange(0, root@.len() as int) =~= root@);
        Traversal { root, pending, outstanding: 0, permits: permits_for(storage), cancelled: false }
    }

    pub fn root(&self) -> (r: &ScanPath)
        ensures
            r@ == self.root_view(),
    {
        &self.root
    }

    /// How many listings and reads may be in flight at once.
    pub fn permits(&self) -> (r: usize)
        ensures
            r == self.permits_view(),
    {
        self.permits
    }

    /// Stops the walk: no directory is handed out after this.
    pub fn cancel(&mut self)
        ensures
            final(self).cancelled_view(),
            final(self).root_view() == old(self).root_view(),
            final(self).pending_view() == old(self).pending_view(),
            final(self).outstanding_view() == old(self).outstanding_view(),
            final(self).permits_view() == old(self).permits_view(),
    {
        self.cancelled = true;
    }

    /// Hands out the next directory to list, unless the walk is cancelled or no
    /// directory waits.
    pub fn next_directory(&mut self) -> (r: Option<ScanPath>)
        requires
            old(self).outstanding_view() < usize::MAX,
        ensures
            final(self).root_view() == old(self).root_view(),
            final(self).permits_view() == old(self).permits_view(),
            final(self).cancelled_view() == old(self).cancelled_view(),
            old(self).wf() ==> final(self).wf(),
            old(self).wf() && r is Some ==> is_prefix_of(old(self).root_view(), r->Some_0@),
            old(self).exhausted() ==> r is None && final(self).pending_view() == old(self).pending_view()
                && final(self).outstanding_view() == old(self).outstanding_view(),
            !old(self).exhausted() ==> (r matches Some(d) && d@ == old(self).pending_view()[0]
                && final(self).pending_view() == old(self).pending_view().drop_first()
                && final(self).outstanding_view() == old(self).outstanding_view() + 1),
    {
        if self.cancelled {
            return None;
        }
        let ghost pre = *self;
        let r = dir_queue_pop(&mut self.pending);
        if r.is_some() {
            self.outstanding = self.outstanding + 1;
        }
        proof {
            if pre.wf() {
                if pre.pending_view().len() > 0 {
                    assert(is_prefix_of(pre.root_view(), pre.pending_view()[0]));
                    assert forall|i: int| 0 <= i < self.pending_view().len() implies is_prefix_of(self.root_view(), #[trigger] self.pending_view()[i]) by {
                        assert(self.pending_view()[i] == pre.pending_view()[i + 1]);
                    }
                }
            }
        }
        r
    }

    /// Takes back a directory handed out by `next_directory`, with its listing,
    /// or `None` when it could not be listed. Its subdirectories join the queue;
    /// the chart files in it are returned, to be read.
    pub fn finish_directory(&mut self, dir: &ScanPath, listing: Option<Vec<DirEntryInfo>>) -> (r: Vec<ScanPath>)
        requires
            old(self).outstanding_view() > 0,
        ensures
            final(self).root_view() == old(self).root_view(),
            final(self).permits_view() == old(self).permits_view(),
            final(self).cancelled_view() == old(self).cancelled_view(),
            final(self).outstanding_view() == old(self).outstanding_view() - 1,
            old(self).wf() && is_prefix_of(old(self).root_view(), dir@) ==> final(self).wf()
                && forall|k: int| 0 <= k < r@.len() ==> is_prefix_of(old(self).root_view(), #[trigger] r@[k]@),
            listing is None ==> r@.len() == 0 && final(self).pending_view() == old(self).pending_view(),
            listing matches Some(es) ==> views_of(r@) == files_in(dir@, es@)
                && final(self).pending_view() == old(self).pending_view() + subdirs_in(dir@, es@),
    {
        let ghost pre = *self;
        self.outstanding = self.outstanding - 1;
        let entries = match listing {
            Some(es) => es,
            None => {
                assert(self.pending_view() == pre.pending_view());
                assert(self.root_view() == pre.root_view());
                return Vec::new();
            },
        };
        let (files, subdirs) = process_directory(dir, &entries);
        proof {
            lemma_listing_extends(dir@, entries@);
            if is_prefix_of(self.root@, dir@) {
                assert forall|k: int| 0 <= k < files@.len() implies is_prefix_of(self.root@, #[trigger] files@[k]@) by {
                    assert(views_of(files@)[k] == files@[k]@);
                    lemma_prefix_trans(self.root@, dir@, files@[k]@);
                }
            }
        }
        let ghost start = dirs_queued(self.pending);
        let ghost mid = *self;
        let mut i: usize = 0;
        while i < subdirs.len()
            invariant
                i <= subdirs@.len(),
                self.root == mid.root,
                self.permits == mid.permits,
                self.cancelled == mid.cancelled,
                self.outstanding == mid.outstanding,
                dirs_queued(self.pending) == start + views_of(subdirs@.subrange(0, i as int)),
                views_of(subdirs@) == subdirs_in(dir@, entries@),
                forall|k: int| 0 <= k < subdirs_in(dir@, entries@).len() ==> is_prefix_of(dir@, #[trigger] subdirs_in(dir@, entries@)[k]),
            decreases subdirs@.len() - i,
        {
            let d = subdirs[i].duplicate();
            dir_queue_push(&mut self.pending, d);
            assert(views_of(subdirs@.subrange(0, i + 1)) =~= views_of(subdirs@.subrange(0, i as int)).push(subdirs@[i as int]@));
            i = i + 1;
        }
        assert(subdirs@.subrange(0, subdirs@.len() as int) =~= subdirs@);
        proof {
            if mid.wf() && is_prefix_of(mid.root@, dir@) {
                assert forall|i: int| 0 <= i < self.pending_view().len() implies is_prefix_of(self.root_view(), #[trigger] self.pending_view()[i]) by {
                    if i >= start.len() {
                        let k = i - start.len();
                        assert(self.pending_view() == start + views_of(subdirs@));
                        assert(self.pending_view()[i] == views_of(subdirs@)[k]);
                        assert(views_of(subdirs@)[k] == subdirs_in(dir@, entries@)[k]);
                        assert(is_prefix_of(dir@, subdirs_in(dir@, entries@)[k]));
                        lemma_prefix_trans(self.root@, dir@, self.pending_view()[i]);
                    } else {
                        assert(start == mid.pending_view());
                        assert(self.pending_view()[i] == mid.pending_view()[i]);
                        assert(is_prefix_of(mid.root_view(), mid.pending_view()[i]));
                    }
                }
            }
        }
        files
    }

    /// Whether the walk is over: nothing left to hand out and nothing handed
    /// out still being listed.
    pub fn is_finished(&self) -> (r: bool)
        ensures
            r == (self.exhausted() && self.outstanding_view() == 0),
    {
        (self.cancelled || dir_queue_is_empty(&self.pending)) && self.outstanding == 0
    }
}

/// Where a scan delivers its records: a first-in first-out queue and a
/// completion flag that is set once, after the last record.
pub struct ResultChannel {
    queue: SegQueue<FileInfo>,
    completed: bool,
    delivered: Ghost<nat>,
}

impl ResultChannel {
    pub closed spec fn records(&self) -> Seq<FileInfo> {
        records_queued(self.queue)
    }

    pub closed spec fn completed_view(&self) -> bool {
        self.completed
    }

    /// How many records were ever pushed.
    pub closed spec fn delivered_view(&self) -> nat {
        self.delivered@
    }

    pub fn new() -> (r: ResultChannel)
        ensures
            r.records().len() == 0,
            !r.completed_view(),
            r.delivered_view() == 0,
    {
        ResultChannel { queue: record_queue_new(), completed: false, delivered: Ghost(0) }
    }

    /// Adds a record at the back. Only a scan that has not completed pushes.
    pub fn push(&mut self, rec: FileInfo)
        requires
            !old(self).completed_view(),
        ensures
            final(self).records() == old(self).records().push(rec),
            !final(self).completed_view(),
            final(self).delivered_view() == old(self).delivered_view() + 1,
    {
        record_queue_push(&mut self.queue, rec);
        self.delivered = Ghost(self.delivered@ + 1);
    }

    /// Takes the record at the front, if any.
    pub fn pop(&mut self) -> (r: Option<FileInfo>)
        ensures
            final(self).completed_view() == old(self).completed_view(),
            final(self).delivered_view() == old(self).delivered_view(),
            old(self).records().len() == 0 ==> r is None && final(self).records() == old(self).records(),
            old(self).records().len() > 0 ==> r == Some(old(self).records()[0])
                && final(self).records() == old(self).records().drop_first(),
    {
        record_queue_pop(&mut self.queue)
    }

    /// Marks the scan complete. It happens once: no record can be pushed after.
    pub fn mark_complete(&mut self)
        requires
            !old(self).completed_view(),
        ensures
            final(self).completed_view(),
            final(self).records() == old(self).records(),
            final(self).delivered_view() == old(self).delivered_view(),
    {
        self.completed = true;
    }

    pub fn is_completed(&self) -> (r: bool)
        ensures
            r == self.completed_view(),
    {
        self.completed
    }
}

} // verus!

verus! {

proof fn lemma_prefix_trans(a: Seq<Seq<u8>>, b: Seq<Seq<u8>>, c: Seq<Seq<u8>>)
    requires
        is_prefix_of(a, b),
        is_prefix_of(b, c),
    ensures
        is_prefix_of(a, c),
{
    assert(c.subrange(0, a.len() as int) =~= c.subrange(0, b.len() as int).subrange(0, a.len() as int));
}

/// Every path taken from a listing of `dir` lies directly under `dir`.
pub proof fn lemma_listing_extends(dir: Seq<Seq<u8>>, entries: Seq<DirEntryInfo>)
    ensures
        forall|k: int| 0 <= k < files_in(dir, entries).len() ==> is_prefix_of(dir, #[trigger] files_in(dir, entries)[k])
            && files_in(dir, entries)[k].len() == dir.len() + 1,
        forall|k: int| 0 <= k < subdirs_in(dir, entries).len() ==> is_prefix_of(dir, #[trigger] subdirs_in(dir, entries)[k])
            && subdirs_in(dir, entries)[k].len() == dir.len() + 1,
    decreases entries.len(),
{
    if entries.len() > 0 {
        let rest = entries.drop_last();
        lemma_listing_extends(dir, rest);
        let n = entries.last().name@;
        assert(dir.push(n).subrange(0, dir.len() as int) =~= dir);
        let f = files_in(dir, entries);
        let g = subdirs_in(dir, entries);
        assert forall|k: int| 0 <= k < f.len() implies is_prefix_of(dir, #[trigger] f[k]) && f[k].len() == dir.len() + 1 by {
            if k < files_in(dir, rest).len() {
                assert(f[k] == files_in(dir, rest)[k]);
            } else {
                assert(f[k] == dir.push(n));
            }
        }
        assert forall|k: int| 0 <= k < g.len() implies is_prefix_of(dir, #[trigger] g[k]) && g[k].len() == dir.len() + 1 by {
            if k < subdirs_in(dir, rest).len() {
                assert(g[k] == subdirs_in(dir, rest)[k]);
            } else {
                assert(g[k] == dir.push(n));
            }
        }
    }
}

/// An entry of a listing that a scan reports as a chart file.
pub open spec fn is_reported_entry(e: DirEntryInfo) -> bool {
    e.kind == EntryKind::NotDirectory && is_target_name(e.name@)
}

/// The files taken from a listing are exactly its reported entries, each
/// joined to the directory: one path per such entry, and no other.
pub proof fn lemma_files_in_exact(dir: Seq<Seq<u8>>, entries: Seq<DirEntryInfo>)
    ensures
        files_in(dir, entries).len() == entries.filter(|e: DirEntryInfo| is_reported_entry(e)).len(),
        files_in(dir, entries) == entries.filter(|e: DirEntryInfo| is_reported_entry(e)).map_values(
            |e: DirEntryInfo| dir.push(e.name@),
        ),
    decreases entries.len(),
{
    let f = |e: DirEntryInfo| is_reported_entry(e);
    let g = |e: DirEntryInfo| dir.push(e.name@);
    if entries.len() == 0 {
        assert(entries.filter(f) =~= Seq::<DirEntryInfo>::empty());
        assert(entries.filter(f).map_values(g) =~= Seq::<Seq<Seq<u8>>>::empty());
    } else {
        let rest = entries.drop_last();
        lemma_files_in_exact(dir, rest);
        assert(entries =~= rest.push(entries.last()));
        rest.lemma_filter_push(entries.last(), f);
        if f(entries.last()) {
            assert(entries.filter(f).map_values(g) =~= rest.filter(f).map_values(g).push(g(entries.last())));
        } else {
            assert(entries.filter(f).map_values(g) =~= rest.filter(f).map_values(g));
        }
    }
}

/// A directory that cannot be listed adds no file and no subdirectory.
pub proof fn lemma_unlisted_directory_adds_nothing(dir: Seq<Seq<u8>>)
    ensures
        files_in(dir, Seq::empty()).len() == 0,
        subdirs_in(dir, Seq::empty()).len() == 0,
{
}

} // verus!

verus! {

/// Turns one file handed out by `Traversal::finish_directory` into a record
/// and pushes it, given its bytes, or `None` when it could not be read.
/// A file that yields no record is skipped: the error says why.
pub fn deliver_file(
    walk: &Traversal,
    channel: &mut ResultChannel,
    path: &ScanPath,
    content: Option<Vec<u8>>,
) -> (r: Result<(), FileError>)
    requires
        !old(channel).completed_view(),
    ensures
        !final(channel).completed_view(),
        content is None ==> r == Err::<(), FileError>(FileError::Unreadable),
        content is Some && !is_prefix_of(walk.root_view(), path@) ==> r == Err::<(), FileError>(
            FileError::NotUnderRoot,
        ),
        r is Err ==> final(channel).records() == old(channel).records()
            && final(channel).delivered_view() == old(channel).delivered_view(),
        content is Some && is_prefix_of(walk.root_view(), path@) ==> {
            &&& r is Ok
            &&& final(channel).delivered_view() == old(channel).delivered_view() + 1
            &&& final(channel).records().len() == old(channel).records().len() + 1
            &&& final(channel).records().drop_last() == old(channel).records()
            &&& final(channel).records().last().absolute_view() == path@
            &&& final(channel).records().last().content_view() == content->Some_0@
            &&& final(channel).records().last().made_under(walk.root_view())
        },
{
    let bytes = match content {
        Some(c) => c,
        None => return Err(FileError::Unreadable),
    };
    match process_file(path, walk.root(), bytes) {
        Ok(rec) => {
            channel.push(rec);
            Ok(())
        },
        Err(e) => Err(e),
    }
}

/// Sets the channel's completion flag when the walk is over and the flag is
/// not yet set; says whether it did.
pub fn complete_if_finished(walk: &Traversal, channel: &mut ResultChannel) -> (r: bool)
    ensures
        r == (walk.exhausted() && walk.outstanding_view() == 0 && !old(channel).completed_view()),
        final(channel).completed_view() == (old(channel).completed_view() || r),
        final(channel).records() == old(channel).records(),
        final(channel).delivered_view() == old(channel).delivered_view(),
{
    if !channel.is_completed() && walk.is_finished() {
        channel.mark_complete();
        true
    } else {
        false
    }
}

} // verus!
