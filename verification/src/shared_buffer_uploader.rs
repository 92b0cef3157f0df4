//! Uploading of shared buffers: tasks are flushed one after another, and the outcome of each is
//! reported to whoever asked for them.
//!
//! The compaction of a buffer into tables is the caller's work, and so is the running of several
//! items at once. What is flushed, what is reported and when the uploader stops is decided here:
//! in one go, where compaction is a plain function, and also step by step, for a caller that has
//! to wait for it.
use crate::shared::share;
use std::collections::BTreeMap;
use std::sync::atomic::{AtomicU64, Ordering};
use std::sync::Arc;
use tokio::sync::{mpsc, oneshot};
use vstd::prelude::*;

verus! {

/// `tokio::sync::oneshot::Sender`, only carried and consumed.
#[verifier::external_type_specification]
#[verifier::external_body]
#[verifier::reject_recursive_types(T)]
pub struct ExOneshotSender<T>(tokio::sync::oneshot::Sender<T>);

/// `tokio::sync::mpsc::UnboundedReceiver`, only carried.
#[verifier::external_type_specification]
#[verifier::external_body]
#[verifier::reject_recursive_types(T)]
pub struct ExUnboundedReceiver<T>(tokio::sync::mpsc::UnboundedReceiver<T>);

/// `tokio::sync::oneshot::Sender::send`: hands the value to the receiving end, or gives the same
/// value back where that end is gone. Whether it is gone is up to the receiver, so nothing is said
/// of that.
pub assume_specification<T>[ tokio::sync::oneshot::Sender::<T>::send ](
    sender: tokio::sync::oneshot::Sender<T>,
    t: T,
) -> (r: Result<(), T>)
    ensures
        r matches Err(unsent) ==> unsent == t,
;

pub type HummockEpoch = u64;

pub type OrderIndex = usize;

#[derive(Debug, PartialEq, Eq)]
pub enum HummockError {
    SharedBufferError(String),
    /// Any other error of the storage engine, passed on as it came.
    Engine(String),
}

impl HummockError {
    pub fn shared_buffer_error(message: &str) -> (r: Self)
        ensures
            r.is_shared_buffer_error(message@),
    {
        HummockError::SharedBufferError(message.to_owned())
    }

    pub open spec fn is_shared_buffer_error(self, message: Seq<char>) -> bool {
        self matches HummockError::SharedBufferError(text) && text@ == message
    }
}

pub type HummockResult<T> = Result<T, HummockError>;

/// The keys that a table covers.
#[derive(Debug, PartialEq, Eq)]
pub struct KeyRange {
    pub left: Vec<u8>,
    pub right: Vec<u8>,
    pub inf: bool,
}

/// What is known of an uploaded table. `B` is the engine's bitmap of virtual nodes.
#[derive(Debug, PartialEq, Eq)]
pub struct SstableInfo<B> {
    pub id: u64,
    pub key_range: Option<KeyRange>,
    pub file_size: u64,
    pub vnode_bitmaps: Vec<B>,
}

#[derive(Debug, PartialEq, Eq)]
pub struct SstableMeta {
    pub smallest_key: Vec<u8>,
    pub largest_key: Vec<u8>,
    pub estimated_size: u32,
}

/// A table that a compaction wrote.
#[derive(Debug, PartialEq, Eq)]
pub struct Sstable {
    pub id: u64,
    pub meta: SstableMeta,
}

/// Uncommitted data, as a list of lists. `D` is one piece of it.
pub type UploadTaskPayload<D> = Vec<Vec<D>>;

/// The outcome of each task of an item.
pub type UploadTaskResult<B> = BTreeMap<
    (HummockEpoch, OrderIndex),
    HummockResult<Vec<SstableInfo<B>>>,
>;

#[derive(Debug)]
pub struct UploadTask<D> {
    pub order_index: OrderIndex,
    pub epoch: HummockEpoch,
    pub payload: UploadTaskPayload<D>,
    pub is_local: bool,
}

impl<D> UploadTask<D> {
    pub fn new(
        order_index: OrderIndex,
        epoch: HummockEpoch,
        payload: UploadTaskPayload<D>,
        is_local: bool,
    ) -> (r: Self)
        ensures
            r == (UploadTask { order_index, epoch, payload, is_local }),
    {
        UploadTask { order_index, epoch, payload, is_local }
    }

    /// What the outcome of the task is reported under.
    pub open spec fn key(self) -> (HummockEpoch, OrderIndex) {
        (self.epoch, self.order_index)
    }
}

/// Tasks to be flushed in order, and where to report to.
#[verifier::reject_recursive_types(B)]
pub struct UploadItem<D, B> {
    pub tasks: Vec<UploadTask<D>>,
    pub notifier: oneshot::Sender<UploadTaskResult<B>>,
}

impl<D, B> UploadItem<D, B> {
    pub fn new(
        tasks: Vec<UploadTask<D>>,
        notifier: oneshot::Sender<UploadTaskResult<B>>,
    ) -> (r: Self)
        ensures
            r == (UploadItem { tasks, notifier }),
    {
        UploadItem { tasks, notifier }
    }
}

/// How far the tasks of one item have come.
#[verifier::reject_recursive_types(B)]
pub struct InnerRun<D, B> {
    pub tasks: Vec<UploadTask<D>>,
    /// The number of tasks that have an outcome.
    pub next: usize,
    pub task_results: UploadTaskResult<B>,
    /// Whether one of these tasks failed.
    pub failed: bool,
    pub notifier: oneshot::Sender<UploadTaskResult<B>>,
}

/// What an item needs next.
pub enum InnerRequest<'a, D> {
    /// Flush the task and [`record`](InnerRun::record) the outcome.
    Flush(&'a UploadTask<D>),
    /// A task before this one failed: [`skip`](InnerRun::skip) it.
    Skip(&'a UploadTask<D>),
    /// Every task has an outcome: [`notify`](InnerRun::notify).
    Notify,
}

/// The outcome of a task that comes after a failed one.
pub open spec fn is_previous_failure<T>(outcome: HummockResult<T>) -> bool {
    outcome matches Err(e) && e.is_shared_buffer_error("failed due to previous failure"@)
}

impl<D, B> InnerRun<D, B> {
    /// The outcome of task `k`.
    pub open spec fn outcome(self, k: int) -> HummockResult<Vec<SstableInfo<B>>> {
        self.task_results@[self.tasks@[k].key()]
    }

    /// The tasks that have an outcome differ in their keys, the outcomes are kept under these
    /// keys and no others, and behind a failed task no task has an outcome of its own.
    pub open spec fn inv(self) -> bool {
        &&& self.next <= self.tasks@.len()
        &&& forall|j: int, k: int|
            0 <= j < k < self.next ==> (#[trigger] self.tasks@[j]).key() != (
            #[trigger] self.tasks@[k]).key()
        &&& forall|key: (HummockEpoch, OrderIndex)| #[trigger]
            self.task_results@.contains_key(key) <==> exists|k: int|
                0 <= k < self.next && (#[trigger] self.tasks@[k]).key() == key
        &&& forall|j: int, k: int|
            0 <= j < k < self.next && (#[trigger] self.outcome(j)) is Err ==> is_previous_failure(
                #[trigger] self.outcome(k),
            )
        &&& self.failed <==> exists|k: int| 0 <= k < self.next && (#[trigger] self.outcome(k)) is Err
    }

    /// The key of the next task is already taken by a task before it.
    pub open spec fn next_is_duplicate(self) -> bool {
        self.task_results@.contains_key(self.tasks@[self.next as int].key())
    }

    /// `self` is `before` with `outcome` for the next task.
    pub open spec fn advances(self, before: Self, outcome: HummockResult<Vec<SstableInfo<B>>>) -> bool {
        &&& self.tasks == before.tasks
        &&& self.notifier == before.notifier
        &&& self.next == before.next + 1
        &&& self.task_results@ == before.task_results@.insert(
            before.tasks@[before.next as int].key(),
            outcome,
        )
        &&& self.failed == (before.failed || outcome is Err)
    }

    proof fn lemma_advance(self, before: Self, outcome: HummockResult<Vec<SstableInfo<B>>>)
        requires
            before.inv(),
            before.next < before.tasks@.len(),
            !before.next_is_duplicate(),
            before.failed ==> is_previous_failure(outcome),
            self.advances(before, outcome),
        ensures
            self.inv(),
    {
        let n = before.next as int;
        assert forall|j: int| 0 <= j < n implies (#[trigger] self.tasks@[j]).key()
            != self.tasks@[n].key() && self.outcome(j) == before.outcome(j) by {
            assert(before.task_results@.contains_key(before.tasks@[j].key()));
        }
        assert(self.outcome(n) == outcome);
        assert forall|key: (HummockEpoch, OrderIndex)| #[trigger]
            self.task_results@.contains_key(key) <==> exists|k: int|
                0 <= k < self.next && (#[trigger] self.tasks@[k]).key() == key by {
            if before.task_results@.contains_key(key) {
                let k = choose|k: int|
                    0 <= k < before.next && (#[trigger] before.tasks@[k]).key() == key;
                assert(self.tasks@[k].key() == key);
            }
            if key == self.tasks@[n].key() {
                assert(0 <= n < self.next && self.tasks@[n].key() == key);
            }
        }
        if before.failed {
            let k = choose|k: int| 0 <= k < before.next && (#[trigger] before.outcome(k)) is Err;
            assert(self.outcome(k) is Err);
        }
        assert(self.failed <==> exists|k: int|
            0 <= k < self.next && (#[trigger] self.outcome(k)) is Err) by {
            if exists|k: int| 0 <= k < self.next && (#[trigger] self.outcome(k)) is Err {
                let k = choose|k: int| 0 <= k < self.next && (#[trigger] self.outcome(k)) is Err;
                if k < n {
                    assert(before.outcome(k) is Err);
                }
            }
        }
        assert forall|j: int, k: int|
            0 <= j < k < self.next && (#[trigger] self.outcome(j)) is Err implies is_previous_failure(
            #[trigger] self.outcome(k),
        ) by {
            assert(before.outcome(j) is Err);
            if k < n {
                assert(is_previous_failure(before.outcome(k)));
            }
        }
    }

    /// Starts on the tasks of an item.
    pub fn new(item: UploadItem<D, B>) -> (r: Self)
        ensures
            r.inv(),
            r.tasks == item.tasks,
            r.notifier == item.notifier,
            r.next == 0,
            r.task_results@ == Map::<
                (HummockEpoch, OrderIndex),
                HummockResult<Vec<SstableInfo<B>>>,
            >::empty(),
            !r.failed,
    {
        InnerRun {
            tasks: item.tasks,
            next: 0,
            task_results: BTreeMap::new(),
            failed: false,
            notifier: item.notifier,
        }
    }

    /// What to do next: flush the next task, unless one before it failed; or report, once every
    /// task has an outcome.
    pub fn request(&self) -> (r: InnerRequest<'_, D>)
        requires
            self.inv(),
        ensures
            match r {
                InnerRequest::Flush(task) => self.next < self.tasks@.len() && !self.failed && *task
                    == self.tasks@[self.next as int],
                InnerRequest::Skip(task) => self.next < self.tasks@.len() && self.failed && *task
                    == self.tasks@[self.next as int],
                InnerRequest::Notify => self.next == self.tasks@.len(),
            },
    {
        if self.next == self.tasks.len() {
            InnerRequest::Notify
        } else if self.failed {
            InnerRequest::Skip(&self.tasks[self.next])
        } else {
            InnerRequest::Flush(&self.tasks[self.next])
        }
    }

    /// Whether the key of the next task is already taken by a task before it.
    pub fn is_duplicate(&self) -> (r: bool)
        requires
            self.next < self.tasks@.len(),
        ensures
            r == self.next_is_duplicate(),
    {
        broadcast use vstd::laws_cmp::group_laws_cmp;
        broadcast use vstd::std_specs::btree::group_btree_axioms;

        let task = &self.tasks[self.next];
        self.task_results.contains_key(&(task.epoch, task.order_index))
    }

    fn advance(&mut self, outcome: HummockResult<Vec<SstableInfo<B>>>)
        requires
            old(self).inv(),
            old(self).next < old(self).tasks@.len(),
            !old(self).next_is_duplicate(),
            old(self).failed ==> is_previous_failure(outcome),
        ensures
            final(self).inv(),
            final(self).advances(*old(self), outcome),
    {
        broadcast use vstd::laws_cmp::group_laws_cmp;
        broadcast use vstd::std_specs::btree::group_btree_axioms;

        assert(self.next < self.tasks.len());
        let task = &self.tasks[self.next];
        let key: (HummockEpoch, OrderIndex) = (task.epoch, task.order_index);
        if outcome.is_err() {
            self.failed = true;
        }
        self.task_results.insert(key, outcome);
        self.next = self.next + 1;
        proof {
            self.lemma_advance(*old(self), outcome);
        }
    }

    /// Keeps the outcome of flushing the next task.
    pub fn record(&mut self, flushed: HummockResult<Vec<SstableInfo<B>>>)
        requires
            old(self).inv(),
            old(self).next < old(self).tasks@.len(),
            !old(self).failed,
            !old(self).next_is_duplicate(),
        ensures
            final(self).inv(),
            final(self).advances(*old(self), flushed),
    {
        self.advance(flushed);
    }

    /// Fails the next task because one before it failed.
    pub fn skip(&mut self)
        requires
            old(self).inv(),
            old(self).next < old(self).tasks@.len(),
            old(self).failed,
            !old(self).next_is_duplicate(),
        ensures
            final(self).inv(),
            exists|outcome: HummockResult<Vec<SstableInfo<B>>>|
                is_previous_failure(outcome) && #[trigger] final(self).advances(
                    *old(self),
                    outcome,
                ),
    {
        let outcome: HummockResult<Vec<SstableInfo<B>>> = Err(
            HummockError::shared_buffer_error("failed due to previous failure"),
        );
        self.advance(outcome);
    }

    /// Reports the outcomes. This fails where they cannot be handed over.
    pub fn notify(self) -> (r: HummockResult<()>)
        requires
            self.inv(),
            self.next == self.tasks@.len(),
        ensures
            exists|sent: Result<(), UploadTaskResult<B>>| #[trigger]
                may_send(self.notifier, self.task_results, sent) && is_notification(sent, r),
    {
        let sent: Result<(), UploadTaskResult<B>> = self.notifier.send(self.task_results);
        assert(may_send(self.notifier, self.task_results, sent));
        notification(sent)
    }
}

/// Sending `value` through `sender` may come out as `sent`.
pub open spec fn may_send<T>(sender: oneshot::Sender<T>, value: T, sent: Result<(), T>) -> bool {
    call_ensures(oneshot::Sender::<T>::send, (sender, value), sent)
}

/// `r` is what an item ends with when its report came out as `sent`.
pub open spec fn is_notification<T>(sent: Result<(), T>, r: HummockResult<()>) -> bool {
    match r {
        Ok(_) => sent is Ok,
        Err(e) => sent is Err && e.is_shared_buffer_error("failed to send result"@),
    }
}

/// What an item ends with when its report came out as `sent`.
pub fn notification<T>(sent: Result<(), T>) -> (r: HummockResult<()>)
    ensures
        is_notification(sent, r),
{
    match sent {
        Ok(_) => Ok(()),
        Err(_) => Err(HummockError::shared_buffer_error("failed to send result")),
    }
}

/// What the storage configuration says of uploading.
#[derive(Debug, PartialEq, Eq)]
pub struct StorageConfig {
    /// The number of threads that compact shared buffers. With none, compaction runs on the
    /// threads of the caller.
    pub share_buffer_compaction_worker_threads_number: u32,
    /// How many items are uploaded at once.
    pub share_buffer_upload_concurrency: usize,
}

/// Threads of their own for compaction.
#[derive(Debug, PartialEq, Eq)]
pub struct CompactionExecutor {
    pub worker_threads_num: Option<usize>,
}

impl CompactionExecutor {
    pub fn new(worker_threads_num: Option<usize>) -> (r: Self)
        ensures
            r == (CompactionExecutor { worker_threads_num }),
    {
        CompactionExecutor { worker_threads_num }
    }
}

/// Where the ids of new tables come from.
pub enum SstableIdGenerator<M> {
    /// Numbers counted up here, marked as local.
    Local(Arc<AtomicU64>),
    /// Numbers that the meta service hands out.
    Remote(Arc<M>),
}

/// `counter` is what `AtomicU64::new` makes of `start`.
pub open spec fn is_counter_from(counter: AtomicU64, start: u64) -> bool {
    call_ensures(AtomicU64::new, (start,), counter)
}

/// Adding `by` to `counter` may give back `drawn`, the number that it held before.
pub open spec fn may_draw(counter: &AtomicU64, by: u64, drawn: u64) -> bool {
    call_ensures(AtomicU64::fetch_add, (counter, by, Ordering::Relaxed), drawn)
}

/// A counter of table ids, used by value: whoever draws from it gives it up and has it back as it
/// is after the draw. Nothing else can be done to it.
pub trait IdCounter: Sized {
    /// Adding `by` to the counter may draw `drawn`, the number held before, and leave `after`.
    spec fn adds(self, by: u64, drawn: u64, after: Self) -> bool;

    /// Adds to the counter and draws the number that it held before.
    fn add_to(self, by: u64) -> (r: (Self, u64))
        ensures
            self.adds(by, r.1, r.0),
    ;
}

impl<'a> IdCounter for &'a AtomicU64 {
    open spec fn adds(self, by: u64, drawn: u64, after: Self) -> bool {
        after == self && may_draw(self, by, drawn)
    }

    fn add_to(self, by: u64) -> (r: (Self, u64)) {
        let drawn: u64 = self.fetch_add(by, Ordering::Relaxed);
        assert(may_draw(self, by, drawn));
        (self, drawn)
    }
}

impl<'a> IdCounter for &'a Arc<AtomicU64> {
    open spec fn adds(self, by: u64, drawn: u64, after: Self) -> bool {
        after == self && may_draw(&**self, by, drawn)
    }

    fn add_to(self, by: u64) -> (r: (Self, u64)) {
        let counter: &AtomicU64 = self;
        let (_, drawn) = counter.add_to(by);
        (self, drawn)
    }
}

/// Drawing a local id from `before` may give `id` and leave the counter as `after`: the number that
/// the counter held is drawn, one is added to it, and the number is marked as local.
pub open spec fn draws_id<K: IdCounter, G: Fn(u64) -> u64>(
    before: K,
    get_local_sst_id: G,
    after: K,
    id: u64,
) -> bool {
    exists|number: u64| #[trigger]
        before.adds(1, number, after) && call_ensures(get_local_sst_id, (number,), id)
}

/// Draws the id of a new local table, and gives the counter back as it is after that.
pub fn draw_local_id<K: IdCounter, G: Fn(u64) -> u64>(counter: K, get_local_sst_id: &G) -> (r: (
    K,
    u64,
))
    requires
        forall|number: u64| call_requires(*get_local_sst_id, (number,)),
    ensures
        draws_id(counter, *get_local_sst_id, r.0, r.1),
{
    let (after, number) = counter.add_to(1);
    assert(counter.adds(1, number, after));
    (after, get_local_sst_id(number))
}

/// Draws the id of a new local table: the number that the counter held, which goes up by one,
/// marked as local by `get_local_sst_id`.
pub fn next_local_id<K: IdCounter, G: Fn(u64) -> u64>(counter: K, get_local_sst_id: &G) -> (r: u64)
    requires
        forall|number: u64| call_requires(*get_local_sst_id, (number,)),
    ensures
        exists|after: K| draws_id(counter, *get_local_sst_id, after, r),
{
    let (_, id) = draw_local_id(counter, get_local_sst_id);
    id
}

/// What a compaction of a shared buffer works with.
pub struct CompactorContext<S, M, T> {
    pub options: Arc<StorageConfig>,
    pub hummock_meta_client: Arc<M>,
    pub sstable_store: Arc<S>,
    pub stats: Arc<T>,
    pub is_share_buffer_compact: bool,
    pub sstable_id_generator: SstableIdGenerator<M>,
    pub compaction_executor: Option<Arc<CompactionExecutor>>,
}

/// How the flush of a task goes on.
pub enum FlushStep<S, M, T, B> {
    /// It is over, with this outcome.
    Done(HummockResult<Vec<SstableInfo<B>>>),
    /// The task's data is to be compacted, and [`uploaded`] makes the outcome of the tables.
    Compact(CompactorContext<S, M, T>),
}

/// Uploads items of tasks. `S` is the store of tables, `M` the client of the meta service, `T` the
/// metrics and `W` the detector of write conflicts.
#[verifier::reject_recursive_types(D)]
#[verifier::reject_recursive_types(B)]
pub struct SharedBufferUploader<S, M, T, W, D, B> {
    pub options: Arc<StorageConfig>,
    pub write_conflict_detector: Option<Arc<W>>,
    pub uploader_rx: Option<mpsc::UnboundedReceiver<UploadItem<D, B>>>,
    pub sstable_store: Arc<S>,
    pub hummock_meta_client: Arc<M>,
    pub next_local_sstable_id: Arc<AtomicU64>,
    pub stats: Arc<T>,
    pub compaction_executor: Option<Arc<CompactionExecutor>>,
}

/// An uploader at work.
#[verifier::reject_recursive_types(D)]
#[verifier::reject_recursive_types(B)]
pub struct UploaderRun<S, M, T, W, D, B> {
    pub this: Arc<SharedBufferUploader<S, M, T, W, D, B>>,
    /// Where the items come from.
    pub rx: mpsc::UnboundedReceiver<UploadItem<D, B>>,
    /// How many items may be uploaded at once.
    pub concurrency: usize,
}

impl<S, M, T, W, D, B> SharedBufferUploader<S, M, T, W, D, B> {
    /// The uploader is as it was made with these parts: it still has its receiver, its counter of
    /// local ids starts at 0, and it has threads of its own for compaction where the configuration
    /// gives a number of them that is not zero.
    pub open spec fn made_with(
        self,
        options: Arc<StorageConfig>,
        sstable_store: Arc<S>,
        hummock_meta_client: Arc<M>,
        uploader_rx: mpsc::UnboundedReceiver<UploadItem<D, B>>,
        stats: Arc<T>,
        write_conflict_detector: Option<Arc<W>>,
    ) -> bool {
        &&& self.options == options
        &&& self.sstable_store == sstable_store
        &&& self.hummock_meta_client == hummock_meta_client
        &&& self.uploader_rx == Some(uploader_rx)
        &&& self.stats == stats
        &&& self.write_conflict_detector == write_conflict_detector
        &&& is_counter_from(*self.next_local_sstable_id, 0)
        &&& self.compaction_executor == (if options.share_buffer_compaction_worker_threads_number
            == 0 {
            None
        } else {
            Some(
                Arc::new(
                    CompactionExecutor {
                        worker_threads_num: Some(
                            options.share_buffer_compaction_worker_threads_number as usize,
                        ),
                    },
                ),
            )
        })
    }

    /// `r` is the uploader at work: its receiver is out, and everything else is as it was.
    pub open spec fn starts(self, r: UploaderRun<S, M, T, W, D, B>) -> bool {
        &&& self.uploader_rx == Some(r.rx)
        &&& *r.this == (SharedBufferUploader { uploader_rx: None, ..self })
        &&& r.concurrency == self.options.share_buffer_upload_concurrency
    }

    /// An uploader that takes its items from `uploader_rx`. It has threads of its own for
    /// compaction where the configuration gives a number of them that is not zero.
    ///
    /// The counter of local ids is new and starts at 0.
    pub fn new(
        options: Arc<StorageConfig>,
        sstable_store: Arc<S>,
        hummock_meta_client: Arc<M>,
        uploader_rx: mpsc::UnboundedReceiver<UploadItem<D, B>>,
        stats: Arc<T>,
        write_conflict_detector: Option<Arc<W>>,
    ) -> (r: Self)
        ensures
            r.made_with(
                options,
                sstable_store,
                hummock_meta_client,
                uploader_rx,
                stats,
                write_conflict_detector,
            ),
    {
        let threads: u32 = options.share_buffer_compaction_worker_threads_number;
        let compaction_executor = if threads == 0 {
            None
        } else {
            Some(Arc::new(CompactionExecutor::new(Some(threads as usize))))
        };
        SharedBufferUploader {
            options,
            write_conflict_detector,
            uploader_rx: Some(uploader_rx),
            sstable_store,
            hummock_meta_client,
            next_local_sstable_id: Arc::new(AtomicU64::new(0)),
            stats,
            compaction_executor,
        }
    }

    /// Starts the work: takes the receiver out of the uploader, which is shared from then on.
    pub fn run(self) -> (r: UploaderRun<S, M, T, W, D, B>)
        requires
            self.uploader_rx is Some,
        ensures
            self.starts(r),
    {
        let mut this = self;
        let rx = this.uploader_rx.take().unwrap();
        let concurrency: usize = this.options.share_buffer_upload_concurrency;
        UploaderRun { this: Arc::new(this), rx, concurrency }
    }

    /// What a compaction works with, for a local task or for any other.
    pub open spec fn compactor_context(self, is_local: bool) -> CompactorContext<S, M, T> {
        CompactorContext {
            options: self.options,
            hummock_meta_client: self.hummock_meta_client,
            sstable_store: self.sstable_store,
            stats: self.stats,
            is_share_buffer_compact: true,
            sstable_id_generator: if is_local {
                SstableIdGenerator::Local(self.next_local_sstable_id)
            } else {
                SstableIdGenerator::Remote(self.hummock_meta_client)
            },
            compaction_executor: self.compaction_executor,
        }
    }

    /// Starts the flush of a task's data.
    ///
    /// Where there is no data, the flush is over and uploaded no table. Otherwise the data is to
    /// be compacted, with ids that are counted here for a local task and come from the meta
    /// service for any other.
    pub fn start_flush(&self, is_local: bool, payload: &UploadTaskPayload<D>) -> (r: FlushStep<
        S,
        M,
        T,
        B,
    >)
        ensures
            match r {
                FlushStep::Done(outcome) => {
                    &&& payload@.len() == 0
                    &&& outcome matches Ok(uploaded) && uploaded@.len() == 0
                },
                FlushStep::Compact(context) => {
                    &&& payload@.len() > 0
                    &&& context == self.compactor_context(is_local)
                },
            },
    {
        if payload.len() == 0 {
            return FlushStep::Done(Ok(Vec::new()));
        }
        let sstable_id_generator = if is_local {
            SstableIdGenerator::Local(share(&self.next_local_sstable_id))
        } else {
            SstableIdGenerator::Remote(share(&self.hummock_meta_client))
        };
        let compaction_executor = match &self.compaction_executor {
            Some(executor) => Some(share(executor)),
            None => None,
        };
        FlushStep::Compact(
            CompactorContext {
                options: share(&self.options),
                hummock_meta_client: share(&self.hummock_meta_client),
                sstable_store: share(&self.sstable_store),
                stats: share(&self.stats),
                is_share_buffer_compact: true,
                sstable_id_generator,
                compaction_executor,
            },
        )
    }
}

/// What is known of a table that a compaction wrote: its id, the range of its keys, both ends
/// included, its estimated size and its bitmaps.
pub open spec fn info_of<B>(table: (Sstable, Vec<B>)) -> SstableInfo<B> {
    SstableInfo {
        id: table.0.id,
        key_range: Some(
            KeyRange {
                left: table.0.meta.smallest_key,
                right: table.0.meta.largest_key,
                inf: false,
            },
        ),
        file_size: table.0.meta.estimated_size as u64,
        vnode_bitmaps: table.1,
    }
}

/// `r` is the outcome of a flush whose compaction came to `tables`: what is known of each table, in
/// order, or the compaction's error.
pub open spec fn describes<B>(
    tables: HummockResult<Vec<(Sstable, Vec<B>)>>,
    r: HummockResult<Vec<SstableInfo<B>>>,
) -> bool {
    match tables {
        Ok(tables) => r matches Ok(infos) && infos@ == tables@.map_values(
            |table: (Sstable, Vec<B>)| info_of(table),
        ),
        Err(e) => r == Err::<Vec<SstableInfo<B>>, HummockError>(e),
    }
}

/// The outcome of a flush, from what its compaction came to.
pub fn uploaded<B>(tables: HummockResult<Vec<(Sstable, Vec<B>)>>) -> (r: HummockResult<
    Vec<SstableInfo<B>>,
>)
    ensures
        describes(tables, r),
{
    let tables: Vec<(Sstable, Vec<B>)> = match tables {
        Ok(tables) => tables,
        Err(e) => {
            return Err(e);
        },
    };
    let ghost all = tables@;
    let mut uploaded_sst_info: Vec<SstableInfo<B>> = Vec::new();
    for table in it: tables
        invariant
            it.seq() == all,
            uploaded_sst_info@ == all.take(it.index() as int).map_values(
                |table: (Sstable, Vec<B>)| info_of(table),
            ),
    {
        let (sst, vnode_bitmaps) = table;
        uploaded_sst_info.push(
            SstableInfo {
                id: sst.id,
                key_range: Some(
                    KeyRange {
                        left: sst.meta.smallest_key,
                        right: sst.meta.largest_key,
                        inf: false,
                    },
                ),
                file_size: sst.meta.estimated_size as u64,
                vnode_bitmaps,
            },
        );
        assert(all.take(it.index() + 1) == all.take(it.index() as int).push(
            all[it.index() as int],
        ));
    }
    assert(all.take(all.len() as int) == all);
    Ok(uploaded_sst_info)
}

/// With the engine in the state `before`, its compaction of `payload` may come to `tables` and leave
/// it in the state `after`.
pub open spec fn compacts<S, M, T, D, B, E, F>(
    compact: F,
    before: E,
    context: CompactorContext<S, M, T>,
    payload: UploadTaskPayload<D>,
    after: E,
    tables: HummockResult<Vec<(Sstable, Vec<B>)>>,
) -> bool where
    F: Fn(E, CompactorContext<S, M, T>, &UploadTaskPayload<D>) -> (
        E,
        HummockResult<Vec<(Sstable, Vec<B>)>>,
    ),
 {
    call_ensures(compact, (before, context, &payload), (after, tables))
}

/// The engine can be asked to compact anything, in any state.
pub open spec fn compacts_anything<S, M, T, D, B, E, F>(compact: F) -> bool where
    F: Fn(E, CompactorContext<S, M, T>, &UploadTaskPayload<D>) -> (
        E,
        HummockResult<Vec<(Sstable, Vec<B>)>>,
    ),
 {
    forall|engine: E, context: CompactorContext<S, M, T>, payload: &UploadTaskPayload<D>|
        call_requires(compact, (engine, context, payload))
}

/// The outcomes of the tasks of an item, by their keys.
pub type Report<B> = Map<(HummockEpoch, OrderIndex), HummockResult<Vec<SstableInfo<B>>>>;

/// The outcome of task `k` in a report.
pub open spec fn reported<D, B>(
    tasks: Seq<UploadTask<D>>,
    report: Report<B>,
    k: int,
) -> HummockResult<Vec<SstableInfo<B>>> {
    report[tasks[k].key()]
}

/// A task before task `k` failed.
pub open spec fn failed_before<D, B>(tasks: Seq<UploadTask<D>>, report: Report<B>, k: int) -> bool {
    exists|j: int| 0 <= j < k && (#[trigger] reported(tasks, report, j)) is Err
}

/// No two tasks have the same key.
pub open spec fn distinct_keys<D>(tasks: Seq<UploadTask<D>>) -> bool {
    forall|j: int, k: int|
        0 <= j < k < tasks.len() ==> (#[trigger] tasks[j]).key() != (#[trigger] tasks[k]).key()
}

impl<S, M, T, W, D, B> SharedBufferUploader<S, M, T, W, D, B> {
    /// With the engine in the state `before`, flushing `payload` may come to `outcome` and leave
    /// the engine in the state `after`. It compacts once where there is data, and not at all where
    /// there is none.
    pub open spec fn flushes<E, F>(
        self,
        compact: F,
        before: E,
        is_local: bool,
        payload: UploadTaskPayload<D>,
        after: E,
        outcome: HummockResult<Vec<SstableInfo<B>>>,
    ) -> bool where
        F: Fn(E, CompactorContext<S, M, T>, &UploadTaskPayload<D>) -> (
            E,
            HummockResult<Vec<(Sstable, Vec<B>)>>,
        ),
     {
        if payload@.len() == 0 {
            &&& after == before
            &&& outcome matches Ok(uploaded) && uploaded@.len() == 0
        } else {
            exists|tables: HummockResult<Vec<(Sstable, Vec<B>)>>|
                {
                    &&& #[trigger] compacts(
                        compact,
                        before,
                        self.compactor_context(is_local),
                        payload,
                        after,
                        tables,
                    )
                    &&& describes(tables, outcome)
                }
        }
    }

    /// Flushes a task's data: nothing where there is none, and otherwise what the compaction makes
    /// of it. The engine goes into the compaction and comes back in its new state.
    pub fn flush<E, F>(
        &self,
        _epoch: HummockEpoch,
        is_local: bool,
        payload: &UploadTaskPayload<D>,
        engine: E,
        compact: &F,
    ) -> (r: (E, HummockResult<Vec<SstableInfo<B>>>)) where
        F: Fn(E, CompactorContext<S, M, T>, &UploadTaskPayload<D>) -> (
            E,
            HummockResult<Vec<(Sstable, Vec<B>)>>,
        ),

        requires
            compacts_anything(*compact),
        ensures
            self.flushes(*compact, engine, is_local, *payload, r.0, r.1),
    {
        match self.start_flush(is_local, payload) {
            FlushStep::Done(outcome) => (engine, outcome),
            FlushStep::Compact(context) => {
                let (after, tables) = compact(engine, context, payload);
                assert(compacts(
                    *compact,
                    engine,
                    self.compactor_context(is_local),
                    *payload,
                    after,
                    tables,
                ));
                (after, uploaded(tables))
            },
        }
    }

    /// Task `k` is dealt with as it is due: flushed, which takes the engine from `states[k]` to
    /// `states[k + 1]`, unless a task before it failed. Then the engine is left alone.
    pub open spec fn settles<E, F>(
        self,
        compact: F,
        tasks: Seq<UploadTask<D>>,
        report: Report<B>,
        states: Seq<E>,
        k: int,
    ) -> bool where
        F: Fn(E, CompactorContext<S, M, T>, &UploadTaskPayload<D>) -> (
            E,
            HummockResult<Vec<(Sstable, Vec<B>)>>,
        ),
     {
        if failed_before(tasks, report, k) {
            is_previous_failure(reported(tasks, report, k)) && states[k + 1] == states[k]
        } else {
            self.flushes(
                compact,
                states[k],
                tasks[k].is_local,
                tasks[k].payload,
                states[k + 1],
                reported(tasks, report, k),
            )
        }
    }

    /// The tasks are dealt with one after another, which takes the engine through `states`. The
    /// report has an outcome for each of the tasks, and for nothing else.
    pub open spec fn reports<E, F>(
        self,
        compact: F,
        tasks: Seq<UploadTask<D>>,
        report: Report<B>,
        states: Seq<E>,
    ) -> bool where
        F: Fn(E, CompactorContext<S, M, T>, &UploadTaskPayload<D>) -> (
            E,
            HummockResult<Vec<(Sstable, Vec<B>)>>,
        ),
     {
        &&& forall|key: (HummockEpoch, OrderIndex)| #[trigger]
            report.contains_key(key) <==> exists|k: int|
                0 <= k < tasks.len() && (#[trigger] tasks[k]).key() == key
        &&& states.len() == tasks.len() + 1
        &&& forall|k: int|
            0 <= k < tasks.len() ==> #[trigger] self.settles(compact, tasks, report, states, k)
    }

    /// Dealing with the next task as it is due keeps what was done before it.
    proof fn lemma_settles<E, F>(
        &self,
        compact: F,
        before: InnerRun<D, B>,
        after: InnerRun<D, B>,
        outcome: HummockResult<Vec<SstableInfo<B>>>,
        states: Seq<E>,
        engine: E,
    ) where
        F: Fn(E, CompactorContext<S, M, T>, &UploadTaskPayload<D>) -> (
            E,
            HummockResult<Vec<(Sstable, Vec<B>)>>,
        ),

        requires
            before.inv(),
            before.next < before.tasks@.len(),
            !before.next_is_duplicate(),
            after.advances(before, outcome),
            states.len() == before.next + 1,
            forall|k: int|
                0 <= k < before.next ==> #[trigger] self.settles(
                    compact,
                    before.tasks@,
                    before.task_results@,
                    states,
                    k,
                ),
            if before.failed {
                is_previous_failure(outcome) && engine == states.last()
            } else {
                self.flushes(
                    compact,
                    states.last(),
                    before.tasks@[before.next as int].is_local,
                    before.tasks@[before.next as int].payload,
                    engine,
                    outcome,
                )
            },
        ensures
            forall|k: int|
                0 <= k < after.next ==> #[trigger] self.settles(
                    compact,
                    after.tasks@,
                    after.task_results@,
                    states.push(engine),
                    k,
                ),
    {
        let tasks = before.tasks@;
        let old_report = before.task_results@;
        let new_report = after.task_results@;
        assert forall|k: int| 0 <= k < before.next implies #[trigger] reported(
            tasks,
            new_report,
            k,
        ) == reported(tasks, old_report, k) by {
            assert(old_report.contains_key(tasks[k].key()));
        }
        assert forall|k: int| 0 <= k <= before.next implies failed_before(tasks, new_report, k)
            == #[trigger] failed_before(tasks, old_report, k) by {
            if failed_before(tasks, old_report, k) {
                let j = choose|j: int|
                    0 <= j < k && (#[trigger] reported(tasks, old_report, j)) is Err;
                assert(reported(tasks, new_report, j) is Err);
            }
        }
        assert(before.failed == failed_before(tasks, old_report, before.next as int)) by {
            if before.failed {
                let j = choose|j: int| 0 <= j < before.next && (#[trigger] before.outcome(j)) is Err;
                assert(reported(tasks, old_report, j) is Err);
            }
            if failed_before(tasks, old_report, before.next as int) {
                let j = choose|j: int|
                    0 <= j < before.next && (#[trigger] reported(tasks, old_report, j)) is Err;
                assert(before.outcome(j) is Err);
            }
        }
        assert forall|k: int| 0 <= k < after.next implies #[trigger] self.settles(
            compact,
            after.tasks@,
            after.task_results@,
            states.push(engine),
            k,
        ) by {
            assert(failed_before(tasks, new_report, k) == failed_before(tasks, old_report, k));
            if k < before.next {
                assert(self.settles(compact, tasks, old_report, states, k));
            }
        }
    }

    /// Flushes the tasks of an item in order and reports their outcomes.
    ///
    /// The tasks behind one that failed are not flushed, and fail too. The engine goes through the
    /// flushes, and through nothing else, and comes back in its last state. The other part of what
    /// is returned says whether the report could be handed over; the outcomes are in the report
    /// alone.
    pub fn run_inner<E, F>(
        self: &Arc<Self>,
        item: UploadItem<D, B>,
        engine: E,
        compact: &F,
    ) -> (r: (E, HummockResult<()>)) where
        F: Fn(E, CompactorContext<S, M, T>, &UploadTaskPayload<D>) -> (
            E,
            HummockResult<Vec<(Sstable, Vec<B>)>>,
        ),

        requires
            compacts_anything(*compact),
            distinct_keys(item.tasks@),
        ensures
            exists|
                report: UploadTaskResult<B>,
                states: Seq<E>,
                sent: Result<(), UploadTaskResult<B>>,
            |
                {
                    &&& #[trigger] self.reports(*compact, item.tasks@, report@, states)
                    &&& states.first() == engine
                    &&& states.last() == r.0
                    &&& #[trigger] may_send(item.notifier, report, sent)
                    &&& is_notification(sent, r.1)
                },
    {
        let mut run: InnerRun<D, B> = InnerRun::new(item);
        let mut state: E = engine;
        let ghost mut states: Seq<E> = seq![engine];
        loop
            invariant
                compacts_anything(*compact),
                distinct_keys(item.tasks@),
                run.inv(),
                run.tasks == item.tasks,
                run.notifier == item.notifier,
                states.len() == run.next + 1,
                states.first() == engine,
                states.last() == state,
                forall|k: int|
                    0 <= k < run.next ==> #[trigger] self.settles(
                        *compact,
                        item.tasks@,
                        run.task_results@,
                        states,
                        k,
                    ),
            decreases run.tasks@.len() - run.next,
        {
            let ghost before = run;
            let flushed: Option<HummockResult<Vec<SstableInfo<B>>>>;
            match run.request() {
                InnerRequest::Flush(task) => {
                    let (after, outcome) = self.flush(
                        task.epoch,
                        task.is_local,
                        &task.payload,
                        state,
                        compact,
                    );
                    state = after;
                    flushed = Some(outcome);
                },
                InnerRequest::Skip(_) => {
                    flushed = None;
                },
                InnerRequest::Notify => {
                    assert(self.reports(*compact, item.tasks@, run.task_results@, states));
                    let outcome: HummockResult<()> = run.notify();
                    return (state, outcome);
                },
            }
            match flushed {
                Some(outcome) => {
                    run.record(outcome);
                    proof {
                        self.lemma_settles(*compact, before, run, outcome, states, state);
                        states = states.push(state);
                    }
                },
                None => {
                    run.skip();
                    proof {
                        let outcome = choose|outcome: HummockResult<Vec<SstableInfo<B>>>|
                            is_previous_failure(outcome) && #[trigger] run.advances(before, outcome);
                        self.lemma_settles(*compact, before, run, outcome, states, state);
                        states = states.push(state);
                    }
                },
            }
        }
    }
}

/// What the uploader does when an item is over, or when there are no more.
#[derive(Debug, PartialEq, Eq)]
pub enum RunStep {
    /// Wait for the next item to be over.
    Continue,
    /// Stop, with this outcome.
    Return(HummockResult<()>),
}

impl RunStep {
    /// The step after an item that is over, or, on `None`, when there are no more.
    pub open spec fn after(completed: Option<HummockResult<()>>) -> RunStep {
        match completed {
            None => RunStep::Return(Ok(())),
            Some(Ok(_)) => RunStep::Continue,
            Some(Err(e)) => RunStep::Return(Err(e)),
        }
    }
}

/// Decides how to go on when an item is over, or, on `None`, when there are no more: an item that
/// failed stops the uploader with its error.
pub fn run_step(completed: Option<HummockResult<()>>) -> (r: RunStep)
    ensures
        r == RunStep::after(completed),
{
    match completed {
        None => RunStep::Return(Ok(())),
        Some(Ok(_)) => RunStep::Continue,
        Some(Err(e)) => RunStep::Return(Err(e)),
    }
}

} // verus!
