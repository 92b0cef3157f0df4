//! What holds of the uploader across its steps.
use crate::shared_buffer_uploader::{
    describes, distinct_keys, draws_id, failed_before, is_counter_from, is_notification,
    is_previous_failure, may_draw, may_send, reported, CompactorContext, HummockEpoch, HummockError,
    HummockResult, IdCounter, InnerRun, OrderIndex, Report, RunStep, SharedBufferUploader, Sstable,
    SstableIdGenerator, SstableInfo, StorageConfig, UploadItem, UploadTask, UploadTaskPayload,
    UploaderRun,
};
use std::sync::atomic::{AtomicU64, Ordering};
use std::sync::Arc;
use tokio::sync::{mpsc, oneshot};
use vstd::prelude::*;

verus! {

/// The first failure splits the tasks of an item: those before it were flushed without error, it
/// failed, and those behind it failed because of it.
pub proof fn law_first_failure_splits_tasks<D, B>(run: InnerRun<D, B>)
    requires
        run.inv(),
    ensures
        exists|m: int|
            {
                &&& 0 <= m <= run.next
                &&& run.failed <==> m < run.next
                &&& forall|k: int| 0 <= k < m ==> (#[trigger] run.outcome(k)) is Ok
                &&& m < run.next ==> (#[trigger] run.outcome(m)) is Err
                &&& forall|k: int| m < k < run.next ==> is_previous_failure(#[trigger] run.outcome(k))
            },
{
    let m = lemma_first_failure(run, run.next as int);
    assert(run.failed <==> m < run.next) by {
        if m < run.next {
            assert(run.outcome(m) is Err);
        }
    }
    assert(m < run.next ==> run.outcome(m) is Err);
}

/// The first of the tasks below `n` that failed, or `n`.
proof fn lemma_first_failure<D, B>(run: InnerRun<D, B>, n: int) -> (m: int)
    requires
        run.inv(),
        0 <= n <= run.next,
    ensures
        0 <= m <= n,
        forall|k: int| 0 <= k < m ==> (#[trigger] run.outcome(k)) is Ok,
        m < n ==> run.outcome(m) is Err,
    decreases n,
{
    if n == 0 {
        0
    } else {
        let m = lemma_first_failure(run, n - 1);
        if m < n - 1 {
            m
        } else if run.outcome(n - 1) is Err {
            n - 1
        } else {
            n
        }
    }
}

/// The first of the tasks below `n` that a report says failed, or `n`.
proof fn lemma_first_reported_failure<D, B>(
    tasks: Seq<UploadTask<D>>,
    report: Report<B>,
    n: int,
) -> (m: int)
    requires
        0 <= n,
    ensures
        0 <= m <= n,
        forall|k: int| 0 <= k < m ==> (#[trigger] reported(tasks, report, k)) is Ok,
        m < n ==> reported(tasks, report, m) is Err,
    decreases n,
{
    if n == 0 {
        0
    } else {
        let m = lemma_first_reported_failure(tasks, report, n - 1);
        if m < n - 1 {
            m
        } else if reported(tasks, report, n - 1) is Err {
            n - 1
        } else {
            n
        }
    }
}

/// Flushing stops at the first failure.
///
/// Task `m` is the first that failed, if there is one. The tasks up to and with it are flushed, one
/// after another in their order, each on the engine as the one before it left it. Nothing is
/// flushed behind it: the engine stays as task `m` left it.
pub proof fn law_flushing_stops_at_first_failure<S, M, T, W, D, B, E, F>(
    uploader: SharedBufferUploader<S, M, T, W, D, B>,
    compact: F,
    tasks: Seq<UploadTask<D>>,
    report: Report<B>,
    states: Seq<E>,
) where
    F: Fn(E, CompactorContext<S, M, T>, &UploadTaskPayload<D>) -> (
        E,
        HummockResult<Vec<(Sstable, Vec<B>)>>,
    ),

    requires
        uploader.reports(compact, tasks, report, states),
    ensures
        exists|m: int|
            {
                &&& 0 <= m <= tasks.len()
                &&& forall|k: int| 0 <= k < m ==> (#[trigger] reported(tasks, report, k)) is Ok
                &&& m < tasks.len() ==> (#[trigger] reported(tasks, report, m)) is Err
                &&& forall|k: int|
                    0 <= k <= m && k < tasks.len() ==> uploader.flushes(
                        compact,
                        #[trigger] states[k],
                        tasks[k].is_local,
                        tasks[k].payload,
                        states[k + 1],
                        reported(tasks, report, k),
                    )
                &&& forall|k: int|
                    m < k < tasks.len() ==> is_previous_failure(#[trigger] reported(tasks, report, k))
                &&& forall|k: int| m < k <= tasks.len() ==> #[trigger] states[k] == states[m + 1]
            },
{
    let m = lemma_first_reported_failure(tasks, report, tasks.len() as int);
    assert forall|k: int| 0 <= k <= m && k < tasks.len() implies uploader.flushes(
        compact,
        #[trigger] states[k],
        tasks[k].is_local,
        tasks[k].payload,
        states[k + 1],
        reported(tasks, report, k),
    ) by {
        assert(uploader.settles(compact, tasks, report, states, k));
    }
    assert forall|k: int| m < k < tasks.len() implies is_previous_failure(
        #[trigger] reported(tasks, report, k),
    ) by {
        assert(uploader.settles(compact, tasks, report, states, k));
        assert(reported(tasks, report, m) is Err);
    }
    assert forall|k: int| m < k <= tasks.len() implies #[trigger] states[k] == states[m + 1] by {
        lemma_engine_rests(uploader, compact, tasks, report, states, m, k);
    }
    assert(m < tasks.len() ==> reported(tasks, report, m) is Err);
}

/// Behind a failed task `m` the engine stays as it was.
proof fn lemma_engine_rests<S, M, T, W, D, B, E, F>(
    uploader: SharedBufferUploader<S, M, T, W, D, B>,
    compact: F,
    tasks: Seq<UploadTask<D>>,
    report: Report<B>,
    states: Seq<E>,
    m: int,
    k: int,
) where
    F: Fn(E, CompactorContext<S, M, T>, &UploadTaskPayload<D>) -> (
        E,
        HummockResult<Vec<(Sstable, Vec<B>)>>,
    ),

    requires
        uploader.reports(compact, tasks, report, states),
        0 <= m < k <= tasks.len(),
        reported(tasks, report, m) is Err,
    ensures
        states[k] == states[m + 1],
    decreases k,
{
    if m + 1 < k {
        lemma_engine_rests(uploader, compact, tasks, report, states, m, k - 1);
        assert(uploader.settles(compact, tasks, report, states, k - 1));
        assert(failed_before(tasks, report, k - 1));
    }
}

/// A step gives the next task its outcome and changes no other.
pub proof fn law_step_changes_no_other_outcome<D, B>(
    before: InnerRun<D, B>,
    after: InnerRun<D, B>,
    outcome: HummockResult<Vec<SstableInfo<B>>>,
)
    requires
        before.inv(),
        before.next < before.tasks@.len(),
        !before.next_is_duplicate(),
        after.advances(before, outcome),
    ensures
        after.outcome(before.next as int) == outcome,
        forall|k: int| 0 <= k < before.next ==> #[trigger] after.outcome(k) == before.outcome(k),
{
    assert forall|k: int| 0 <= k < before.next implies #[trigger] after.outcome(k)
        == before.outcome(k) by {
        assert(before.task_results@.contains_key(before.tasks@[k].key()));
    }
}

/// Tasks that differ in their keys never meet a key that is taken.
pub proof fn law_distinct_tasks_have_no_duplicate<D, B>(run: InnerRun<D, B>)
    requires
        run.inv(),
        run.next < run.tasks@.len(),
        distinct_keys(run.tasks@),
    ensures
        !run.next_is_duplicate(),
{
}

/// The keys of the first `n` tasks.
pub open spec fn keys_of<D>(tasks: Seq<UploadTask<D>>, n: int) -> Seq<(HummockEpoch, OrderIndex)> {
    Seq::new(n as nat, |k: int| (tasks[k].epoch, tasks[k].order_index))
}

/// The report holds one outcome for each task that has one: the keys in it are the keys of these
/// tasks, and there are as many.
pub proof fn law_one_outcome_per_task<D, B>(run: InnerRun<D, B>)
    requires
        run.inv(),
    ensures
        run.task_results@.dom() == keys_of(run.tasks@, run.next as int).to_set(),
        run.task_results@.dom().len() == run.next,
{
    let keys = keys_of(run.tasks@, run.next as int);
    assert forall|j: int, k: int| 0 <= j < keys.len() && 0 <= k < keys.len() && j != k implies keys[j]
        != keys[k] by {
        if j < k {
            assert(run.tasks@[j].key() != run.tasks@[k].key());
        } else {
            assert(run.tasks@[k].key() != run.tasks@[j].key());
        }
    }
    keys.unique_seq_to_set();
    assert forall|key: (HummockEpoch, OrderIndex)|
        run.task_results@.dom().contains(key) <==> keys.to_set().contains(key) by {
        if run.task_results@.contains_key(key) {
            let k = choose|k: int| 0 <= k < run.next && (#[trigger] run.tasks@[k]).key() == key;
            assert(keys[k] == key);
        }
        if keys.contains(key) {
            let k = choose|k: int| 0 <= k < keys.len() && keys[k] == key;
            assert(run.tasks@[k].key() == key);
        }
    }
    assert(run.task_results@.dom() =~= keys.to_set());
}

/// What the uploader returns when its items end with `completed`, in this order.
pub open spec fn run_outcome(completed: Seq<HummockResult<()>>) -> HummockResult<()>
    decreases completed.len(),
{
    let item = if completed.len() == 0 {
        None
    } else {
        Some(completed[0])
    };
    match RunStep::after(item) {
        RunStep::Return(outcome) => outcome,
        RunStep::Continue => if completed.len() == 0 {
            Ok(())
        } else {
            run_outcome(completed.skip(1))
        },
    }
}

/// The uploader succeeds when every item does. Otherwise it returns the error of the first item to
/// fail, whatever comes behind it.
pub proof fn law_run_returns_first_error(completed: Seq<HummockResult<()>>)
    ensures
        match run_outcome(completed) {
            Ok(_) => forall|k: int| 0 <= k < completed.len() ==> (#[trigger] completed[k]) is Ok,
            Err(e) => exists|k: int|
                {
                    &&& 0 <= k < completed.len()
                    &&& #[trigger] completed[k] == Err::<(), _>(e)
                    &&& forall|j: int| 0 <= j < k ==> (#[trigger] completed[j]) is Ok
                },
        },
    decreases completed.len(),
{
    if completed.len() > 0 {
        let rest = completed.skip(1);
        law_run_returns_first_error(rest);
        if completed[0] is Ok {
            match run_outcome(rest) {
                Ok(_) => {
                    assert forall|k: int| 0 <= k < completed.len() implies (
                    #[trigger] completed[k]) is Ok by {
                        if k > 0 {
                            assert(rest[k - 1] is Ok);
                        }
                    }
                },
                Err(e) => {
                    let k = choose|k: int|
                        {
                            &&& 0 <= k < rest.len()
                            &&& #[trigger] rest[k] == Err::<(), _>(e)
                            &&& forall|j: int| 0 <= j < k ==> (#[trigger] rest[j]) is Ok
                        };
                    assert(completed[k + 1] == Err::<(), _>(e));
                    assert forall|j: int| 0 <= j < k + 1 implies (#[trigger] completed[j]) is Ok by {
                        if j > 0 {
                            assert(rest[j - 1] is Ok);
                        }
                    }
                },
            }
        }
    }
}

/// Each table of a successful compaction is described, in order: with its own id, with a key range
/// from its smallest key to its largest key, both of them included, with its estimated size and
/// with its bitmaps. A failed compaction fails the flush with the same error.
pub proof fn law_tables_are_described<B>(
    tables: HummockResult<Vec<(Sstable, Vec<B>)>>,
    r: HummockResult<Vec<SstableInfo<B>>>,
)
    requires
        describes(tables, r),
    ensures
        tables is Ok <==> r is Ok,
        tables is Err ==> r->Err_0 == tables->Err_0,
        tables is Ok ==> r->Ok_0@.len() == tables->Ok_0@.len(),
        tables is Ok ==> forall|i: int|
            #![trigger r->Ok_0@[i]]
            0 <= i < r->Ok_0@.len() ==> {
                let info = r->Ok_0@[i];
                let (table, bitmaps) = tables->Ok_0@[i];
                &&& info.id == table.id
                &&& info.key_range is Some
                &&& info.key_range->Some_0.left@ == table.meta.smallest_key@
                &&& info.key_range->Some_0.right@ == table.meta.largest_key@
                &&& !info.key_range->Some_0.inf
                &&& info.file_size == table.meta.estimated_size
                &&& info.vnode_bitmaps@ == bitmaps@
            },
{
}

/// A flush of some data compacts it once, with what the uploader was made with and with ids from
/// the right source, and its outcome is the description of what the compaction wrote. A flush of no
/// data leaves the engine alone and uploads no table.
pub proof fn law_flush_compacts_once<S, M, T, W, D, B, E, F>(
    uploader: SharedBufferUploader<S, M, T, W, D, B>,
    compact: F,
    before: E,
    is_local: bool,
    payload: UploadTaskPayload<D>,
    after: E,
    outcome: HummockResult<Vec<SstableInfo<B>>>,
) where
    F: Fn(E, CompactorContext<S, M, T>, &UploadTaskPayload<D>) -> (
        E,
        HummockResult<Vec<(Sstable, Vec<B>)>>,
    ),

    requires
        uploader.flushes(compact, before, is_local, payload, after, outcome),
    ensures
        payload@.len() == 0 ==> after == before && outcome is Ok && outcome->Ok_0@.len() == 0,
        payload@.len() > 0 ==> exists|
            context: CompactorContext<S, M, T>,
            tables: HummockResult<Vec<(Sstable, Vec<B>)>>,
        |
            {
                &&& #[trigger] call_ensures(compact, (before, context, &payload), (after, tables))
                &&& context.options == uploader.options
                &&& context.hummock_meta_client == uploader.hummock_meta_client
                &&& context.sstable_store == uploader.sstable_store
                &&& context.stats == uploader.stats
                &&& context.compaction_executor == uploader.compaction_executor
                &&& context.is_share_buffer_compact
                &&& is_local ==> context.sstable_id_generator == SstableIdGenerator::<M>::Local(
                    uploader.next_local_sstable_id,
                )
                &&& !is_local ==> context.sstable_id_generator == SstableIdGenerator::<M>::Remote(
                    uploader.hummock_meta_client,
                )
                &&& tables is Ok <==> outcome is Ok
                &&& tables is Err ==> outcome->Err_0 == tables->Err_0
                &&& tables is Ok ==> outcome->Ok_0@.len() == tables->Ok_0@.len()
                &&& tables is Ok ==> forall|i: int|
                    #![trigger outcome->Ok_0@[i]]
                    0 <= i < outcome->Ok_0@.len() ==> {
                        let info = outcome->Ok_0@[i];
                        let (table, bitmaps) = tables->Ok_0@[i];
                        &&& info.id == table.id
                        &&& info.key_range is Some
                        &&& info.key_range->Some_0.left@ == table.meta.smallest_key@
                        &&& info.key_range->Some_0.right@ == table.meta.largest_key@
                        &&& !info.key_range->Some_0.inf
                        &&& info.file_size == table.meta.estimated_size
                        &&& info.vnode_bitmaps@ == bitmaps@
                    }
            },
{
    if payload@.len() > 0 {
        let tables = choose|tables: HummockResult<Vec<(Sstable, Vec<B>)>>|
            {
                &&& #[trigger] crate::shared_buffer_uploader::compacts(
                    compact,
                    before,
                    uploader.compactor_context(is_local),
                    payload,
                    after,
                    tables,
                )
                &&& describes(tables, outcome)
            };
        law_tables_are_described(tables, outcome);
        assert(call_ensures(
            compact,
            (before, uploader.compactor_context(is_local), &payload),
            (after, tables),
        ));
    }
}

/// The report has an outcome under the epoch and the order index of each task, and under no other
/// pair.
///
/// The outcome of a task is that of flushing it, where no task before it has an error in the
/// report. Otherwise it is the error that says so.
pub proof fn law_report_is_kept_by_epoch_and_order_index<S, M, T, W, D, B, E, F>(
    uploader: SharedBufferUploader<S, M, T, W, D, B>,
    compact: F,
    tasks: Seq<UploadTask<D>>,
    report: Report<B>,
    states: Seq<E>,
    k: int,
) where
    F: Fn(E, CompactorContext<S, M, T>, &UploadTaskPayload<D>) -> (
        E,
        HummockResult<Vec<(Sstable, Vec<B>)>>,
    ),

    requires
        uploader.reports(compact, tasks, report, states),
        0 <= k < tasks.len(),
    ensures
        forall|epoch: HummockEpoch, order_index: OrderIndex| #[trigger]
            report.contains_key((epoch, order_index)) <==> exists|j: int|
                0 <= j < tasks.len() && (#[trigger] tasks[j]).epoch == epoch && tasks[j].order_index
                    == order_index,
        report.contains_key((tasks[k].epoch, tasks[k].order_index)),
        ({
            let outcome = report[(tasks[k].epoch, tasks[k].order_index)];
            let failed = exists|j: int|
                0 <= j < k && report[(
                    (#[trigger] tasks[j]).epoch,
                    tasks[j].order_index,
                )] is Err;
            &&& !failed ==> uploader.flushes(
                compact,
                states[k],
                tasks[k].is_local,
                tasks[k].payload,
                states[k + 1],
                outcome,
            )
            &&& failed ==> states[k + 1] == states[k] && outcome is Err && outcome->Err_0
                is SharedBufferError && outcome->Err_0->SharedBufferError_0@
                == "failed due to previous failure"@
        }),
{
    assert forall|epoch: HummockEpoch, order_index: OrderIndex| #[trigger]
        report.contains_key((epoch, order_index)) <==> exists|j: int|
            0 <= j < tasks.len() && (#[trigger] tasks[j]).epoch == epoch && tasks[j].order_index
                == order_index by {
        if report.contains_key((epoch, order_index)) {
            let j = choose|j: int|
                0 <= j < tasks.len() && (#[trigger] tasks[j]).key() == (epoch, order_index);
            assert(tasks[j].epoch == epoch && tasks[j].order_index == order_index);
        }
        if exists|j: int|
            0 <= j < tasks.len() && (#[trigger] tasks[j]).epoch == epoch && tasks[j].order_index
                == order_index {
            let j = choose|j: int|
                0 <= j < tasks.len() && (#[trigger] tasks[j]).epoch == epoch
                    && tasks[j].order_index == order_index;
            assert(tasks[j].key() == (epoch, order_index));
        }
    }
    assert(tasks[k].key() == (tasks[k].epoch, tasks[k].order_index));
    assert(uploader.settles(compact, tasks, report, states, k));
    let failed = exists|j: int|
        0 <= j < k && report[((#[trigger] tasks[j]).epoch, tasks[j].order_index)] is Err;
    if failed {
        let j = choose|j: int|
            0 <= j < k && report[((#[trigger] tasks[j]).epoch, tasks[j].order_index)] is Err;
        assert(reported(tasks, report, j) is Err);
    }
    if failed_before(tasks, report, k) {
        let j = choose|j: int| 0 <= j < k && (#[trigger] reported(tasks, report, j)) is Err;
        assert(report[(tasks[j].epoch, tasks[j].order_index)] is Err);
    }
}

/// With an engine that compacts everything, every task of an item has a table description in the
/// report, and none has an error.
pub proof fn law_sound_engine_fails_no_task<S, M, T, W, D, B, E, F>(
    uploader: SharedBufferUploader<S, M, T, W, D, B>,
    compact: F,
    tasks: Seq<UploadTask<D>>,
    report: Report<B>,
    states: Seq<E>,
    k: int,
) where
    F: Fn(E, CompactorContext<S, M, T>, &UploadTaskPayload<D>) -> (
        E,
        HummockResult<Vec<(Sstable, Vec<B>)>>,
    ),

    requires
        uploader.reports(compact, tasks, report, states),
        forall|
            before: E,
            context: CompactorContext<S, M, T>,
            payload: UploadTaskPayload<D>,
            after: E,
            tables: HummockResult<Vec<(Sstable, Vec<B>)>>,
        | #[trigger]
            call_ensures(compact, (before, context, &payload), (after, tables)) ==> tables is Ok,
        0 <= k < tasks.len(),
    ensures
        report[(tasks[k].epoch, tasks[k].order_index)] is Ok,
    decreases k,
{
    assert forall|j: int| 0 <= j < k implies report[(
        (#[trigger] tasks[j]).epoch,
        tasks[j].order_index,
    )] is Ok by {
        law_sound_engine_fails_no_task(uploader, compact, tasks, report, states, j);
    }
    law_report_is_kept_by_epoch_and_order_index(uploader, compact, tasks, report, states, k);
    law_flush_compacts_once(
        uploader,
        compact,
        states[k],
        tasks[k].is_local,
        tasks[k].payload,
        states[k + 1],
        report[(tasks[k].epoch, tasks[k].order_index)],
    );
}

/// A step keeps the outcome under the epoch and the order index of its task, and keeps every other
/// entry of the report.
pub proof fn law_step_reports_under_epoch_and_order_index<D, B>(
    before: InnerRun<D, B>,
    after: InnerRun<D, B>,
    outcome: HummockResult<Vec<SstableInfo<B>>>,
    epoch: HummockEpoch,
    order_index: OrderIndex,
)
    requires
        before.next < before.tasks@.len(),
        after.advances(before, outcome),
    ensures
        after.tasks == before.tasks,
        after.notifier == before.notifier,
        after.next == before.next + 1,
        after.failed <==> before.failed || outcome is Err,
        ({
            let task = before.tasks@[before.next as int];
            if epoch == task.epoch && order_index == task.order_index {
                &&& after.task_results@.contains_key((epoch, order_index))
                &&& after.task_results@[(epoch, order_index)] == outcome
            } else {
                &&& after.task_results@.contains_key((epoch, order_index))
                    <==> before.task_results@.contains_key((epoch, order_index))
                &&& after.task_results@[(epoch, order_index)] == before.task_results@[(
                    epoch,
                    order_index,
                )]
            }
        }),
{
}

/// A task is a duplicate exactly if a task before it has its epoch and its order index. So an item
/// whose tasks differ in one of the two has none.
pub proof fn law_duplicate_has_same_epoch_and_order_index<D, B>(run: InnerRun<D, B>)
    requires
        run.inv(),
        run.next < run.tasks@.len(),
    ensures
        run.next_is_duplicate() <==> exists|k: int|
            {
                &&& 0 <= k < run.next
                &&& (#[trigger] run.tasks@[k]).epoch == run.tasks@[run.next as int].epoch
                &&& run.tasks@[k].order_index == run.tasks@[run.next as int].order_index
            },
        (forall|j: int, k: int|
            0 <= j < k < run.tasks@.len() ==> (#[trigger] run.tasks@[j]).epoch != (
            #[trigger] run.tasks@[k]).epoch || run.tasks@[j].order_index != run.tasks@[k].order_index)
            <==> distinct_keys(run.tasks@),
{
    let next = run.tasks@[run.next as int];
    if run.next_is_duplicate() {
        let k = choose|k: int| 0 <= k < run.next && (#[trigger] run.tasks@[k]).key() == next.key();
        assert(run.tasks@[k].epoch == next.epoch && run.tasks@[k].order_index == next.order_index);
    }
    if exists|k: int|
        {
            &&& 0 <= k < run.next
            &&& (#[trigger] run.tasks@[k]).epoch == next.epoch
            &&& run.tasks@[k].order_index == next.order_index
        } {
        let k = choose|k: int|
            {
                &&& 0 <= k < run.next
                &&& (#[trigger] run.tasks@[k]).epoch == next.epoch
                &&& run.tasks@[k].order_index == next.order_index
            };
        assert(run.tasks@[k].key() == next.key());
    }
}

/// The error of a task behind a failed one, and that of a report that could not be handed over,
/// are shared buffer errors with these texts, and an item ends well exactly if its report was
/// handed over.
pub proof fn law_errors_of_an_item<T>(
    outcome: HummockResult<T>,
    sent: Result<(), T>,
    r: HummockResult<()>,
)
    ensures
        is_previous_failure(outcome) <==> exists|text: String|
            outcome == Err::<T, _>(HummockError::SharedBufferError(text)) && #[trigger] text@
                == "failed due to previous failure"@,
        is_notification(sent, r) ==> (r is Ok <==> sent is Ok),
        is_notification(sent, r) && r is Err ==> r->Err_0 is SharedBufferError
            && r->Err_0->SharedBufferError_0@ == "failed to send result"@,
{
    if is_previous_failure(outcome) {
        let text = outcome->Err_0->SharedBufferError_0;
        assert(outcome == Err::<T, _>(HummockError::SharedBufferError(text)) && text@
            == "failed due to previous failure"@);
    }
}

/// A report that was not handed over came back as it was sent.
pub proof fn law_unsent_report_comes_back<T>(
    sender: oneshot::Sender<T>,
    value: T,
    sent: Result<(), T>,
)
    requires
        may_send(sender, value, sent),
    ensures
        sent is Err ==> sent->Err_0 == value,
{
}

/// A counter holds a number: a draw gives it, and adds to it, going on from 0 behind the largest.
pub open spec fn holds_number<K: IdCounter>(held: spec_fn(K) -> int) -> bool {
    forall|before: K, by: u64, drawn: u64, after: K| #[trigger]
        before.adds(by, drawn, after) ==> {
            &&& drawn == held(before)
            &&& held(after) == (drawn + by) % 0x1_0000_0000_0000_0000
        }
}

/// Ids drawn one after another from one counter are its numbers in turn, each marked as local, and
/// differ from each other.
///
/// The counter goes through `counters`, one for each draw and the one it starts as, and nothing
/// else happens to it. It holds a number, at first `start`. The marking tells numbers apart. There
/// are no more draws than numbers.
pub proof fn law_local_ids_differ<K: IdCounter, G: Fn(u64) -> u64>(
    held: spec_fn(K) -> int,
    get_local_sst_id: G,
    counters: Seq<K>,
    ids: Seq<u64>,
    start: u64,
)
    requires
        holds_number(held),
        counters.len() == ids.len() + 1,
        held(counters[0]) == start,
        start + ids.len() <= 0x1_0000_0000_0000_0000,
        forall|k: int|
            0 <= k < ids.len() ==> draws_id(
                counters[k],
                get_local_sst_id,
                counters[k + 1],
                #[trigger] ids[k],
            ),
        forall|m: u64, n: u64, id: u64|
            call_ensures(get_local_sst_id, (m,), id) && call_ensures(get_local_sst_id, (n,), id)
                ==> m == n,
    ensures
        forall|k: int|
            0 <= k < ids.len() ==> call_ensures(
                get_local_sst_id,
                ((start + k) as u64,),
                #[trigger] ids[k],
            ),
        forall|j: int, k: int| 0 <= j < k < ids.len() ==> #[trigger] ids[j] != #[trigger] ids[k],
{
    assert forall|k: int| 0 <= k < ids.len() implies call_ensures(
        get_local_sst_id,
        ((start + k) as u64,),
        #[trigger] ids[k],
    ) by {
        lemma_held(held, get_local_sst_id, counters, ids, start, k);
        let number = choose|number: u64| #[trigger]
            counters[k].adds(1, number, counters[k + 1]) && call_ensures(
                get_local_sst_id,
                (number,),
                ids[k],
            );
        assert(number == start + k);
    }
    assert forall|j: int, k: int| 0 <= j < k < ids.len() implies #[trigger] ids[j]
        != #[trigger] ids[k] by {
        assert(call_ensures(get_local_sst_id, ((start + j) as u64,), ids[j]));
        assert(call_ensures(get_local_sst_id, ((start + k) as u64,), ids[k]));
    }
}

proof fn lemma_held<K: IdCounter, G: Fn(u64) -> u64>(
    held: spec_fn(K) -> int,
    get_local_sst_id: G,
    counters: Seq<K>,
    ids: Seq<u64>,
    start: u64,
    k: int,
)
    requires
        holds_number(held),
        counters.len() == ids.len() + 1,
        held(counters[0]) == start,
        start + ids.len() <= 0x1_0000_0000_0000_0000,
        forall|k: int|
            0 <= k < ids.len() ==> draws_id(
                counters[k],
                get_local_sst_id,
                counters[k + 1],
                #[trigger] ids[k],
            ),
        0 <= k < ids.len(),
    ensures
        held(counters[k]) == start + k,
    decreases k,
{
    if k > 0 {
        lemma_held(held, get_local_sst_id, counters, ids, start, k - 1);
        let id = ids[k - 1];
        assert(draws_id(counters[k - 1], get_local_sst_id, counters[k - 1 + 1], id));
        let number = choose|number: u64| #[trigger]
            counters[k - 1].adds(1, number, counters[k]) && call_ensures(
                get_local_sst_id,
                (number,),
                id,
            );
        assert(held(counters[k]) == (number + 1) % 0x1_0000_0000_0000_0000);
    }
}

/// Adding to the uploader's counter is one atomic addition to it, and the counter of a new uploader
/// is a new atomic made from its start.
pub proof fn law_counter_is_one_atomic(counter: &AtomicU64, by: u64, drawn: u64, start: u64)
    ensures
        may_draw(counter, by, drawn) <==> call_ensures(
            AtomicU64::fetch_add,
            (counter, by, Ordering::Relaxed),
            drawn,
        ),
        is_counter_from(*counter, start) <==> call_ensures(AtomicU64::new, (start,), *counter),
        counter.adds(by, drawn, counter) <==> may_draw(counter, by, drawn),
{
}

/// A new uploader can be run. It then takes its items from the receiver that it was made with, as
/// many at once as the configuration says, and flushes them with the parts that it was made with
/// and with local ids from 0 on. It compacts on its own threads exactly if the configuration gives
/// a number of them that is not zero, and then on that many.
pub proof fn law_run_of_a_new_uploader<S, M, T, W, D, B>(
    options: Arc<StorageConfig>,
    sstable_store: Arc<S>,
    hummock_meta_client: Arc<M>,
    uploader_rx: mpsc::UnboundedReceiver<UploadItem<D, B>>,
    stats: Arc<T>,
    write_conflict_detector: Option<Arc<W>>,
    uploader: SharedBufferUploader<S, M, T, W, D, B>,
    run: UploaderRun<S, M, T, W, D, B>,
)
    requires
        uploader.made_with(
            options,
            sstable_store,
            hummock_meta_client,
            uploader_rx,
            stats,
            write_conflict_detector,
        ),
        uploader.starts(run),
    ensures
        uploader.uploader_rx is Some,
        run.rx == uploader_rx,
        run.concurrency == options.share_buffer_upload_concurrency,
        run.this.uploader_rx is None,
        run.this.options == options,
        run.this.sstable_store == sstable_store,
        run.this.hummock_meta_client == hummock_meta_client,
        run.this.stats == stats,
        run.this.write_conflict_detector == write_conflict_detector,
        call_ensures(AtomicU64::new, (0u64,), *run.this.next_local_sstable_id),
        run.this.compaction_executor is None
            <==> options.share_buffer_compaction_worker_threads_number == 0,
        run.this.compaction_executor is Some ==> run.this.compaction_executor->Some_0.worker_threads_num
            is Some && run.this.compaction_executor->Some_0.worker_threads_num->Some_0
            == options.share_buffer_compaction_worker_threads_number,
{
}

} // verus!
