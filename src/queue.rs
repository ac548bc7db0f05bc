use vstd::prelude::*;
use crossbeam::queue::SegQueue;
use crate::paths::ScanPath;
use crate::record::FileInfo;

verus! {

#[verifier::external_type_specification]
#[verifier::external_body]
#[verifier::reject_recursive_types(T)]
pub struct ExSegQueue<T>(SegQueue<T>);

/// The directories a queue of paths holds, front first.
pub uninterp spec fn dirs_queued(q: SegQueue<ScanPath>) -> Seq<Seq<Seq<u8>>>;

/// The records a queue of records holds, front first.
pub uninterp spec fn records_queued(q: SegQueue<FileInfo>) -> Seq<FileInfo>;

/// Relies on `SegQueue::new`: a new queue is empty.
#[verifier::external_body]
pub(crate) fn dir_queue_new() -> (r: SegQueue<ScanPath>)
    ensures
        dirs_queued(r) == Seq::<Seq<Seq<u8>>>::empty(),
{
    SegQueue::new()
}

/// Relies on `SegQueue::push`: the value goes to the back.
#[verifier::external_body]
pub(crate) fn dir_queue_push(q: &mut SegQueue<ScanPath>, p: ScanPath)
    ensures
        dirs_queued(*final(q)) == dirs_queued(*old(q)).push(p@),
{
    q.push(p)
}

/// Relies on `SegQueue::pop`: the front value leaves, or `None` when empty.
#[verifier::external_body]
pub(crate) fn dir_queue_pop(q: &mut SegQueue<ScanPath>) -> (r: Option<ScanPath>)
    ensures
        dirs_queued(*old(q)).len() == 0 ==> r is None && dirs_queued(*final(q)) == dirs_queued(*old(q)),
        dirs_queued(*old(q)).len() > 0 ==> (r matches Some(p) && p@ == dirs_queued(*old(q))[0]
            && dirs_queued(*final(q)) == dirs_queued(*old(q)).drop_first()),
{
    q.pop()
}

/// Relies on `SegQueue::is_empty`.
#[verifier::external_body]
pub(crate) fn dir_queue_is_empty(q: &SegQueue<ScanPath>) -> (r: bool)
    ensures
        r == (dirs_queued(*q).len() == 0),
{
    q.is_empty()
}

/// Relies on `SegQueue::new`: a new queue is empty.
#[verifier::external_body]
pub(crate) fn record_queue_new() -> (r: SegQueue<FileInfo>)
    ensures
        records_queued(r) == Seq::<FileInfo>::empty(),
{
    SegQueue::new()
}

/// Relies on `SegQueue::push`: the value goes to the back.
#[verifier::external_body]
pub(crate) fn record_queue_push(q: &mut SegQueue<FileInfo>, rec: FileInfo)
    ensures
        records_queued(*final(q)) == records_queued(*old(q)).push(rec),
{
    q.push(rec)
}

/// Relies on `SegQueue::pop`: the front value leaves, or `None` when empty.
#[verifier::external_body]
pub(crate) fn record_queue_pop(q: &mut SegQueue<FileInfo>) -> (r: Option<FileInfo>)
    ensures
        records_queued(*old(q)).len() == 0 ==> r is None && records_queued(*final(q)) == records_queued(*old(q)),
        records_queued(*old(q)).len() > 0 ==> r == Some(records_queued(*old(q))[0])
            && records_queued(*final(q)) == records_queued(*old(q)).drop_first(),
{
    q.pop()
}

} // verus!
