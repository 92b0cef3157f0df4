use std::sync::atomic::Ordering;
use std::sync::Arc;

use risingwave_core::shared_buffer_uploader::{
    next_local_id, run_step, uploaded, CompactorContext, FlushStep, HummockError, HummockResult,
    InnerRequest, InnerRun, KeyRange, RunStep, SharedBufferUploader, Sstable, SstableIdGenerator,
    SstableInfo, SstableMeta, StorageConfig, UploadItem, UploadTask, UploadTaskResult,
};
use tokio::sync::{mpsc, oneshot};

type Uploader = SharedBufferUploader<&'static str, &'static str, &'static str, u8, u8, u8>;
type Item = UploadItem<u8, u8>;

fn uploader(threads: u32) -> (Uploader, mpsc::UnboundedSender<Item>) {
    let (tx, rx) = mpsc::unbounded_channel();
    let options = Arc::new(StorageConfig {
        share_buffer_compaction_worker_threads_number: threads,
        share_buffer_upload_concurrency: 8,
    });
    let uploader = SharedBufferUploader::new(
        options,
        Arc::new("store"),
        Arc::new("meta"),
        rx,
        Arc::new("stats"),
        Some(Arc::new(1)),
    );
    (uploader, tx)
}

fn info(id: u64) -> SstableInfo<u8> {
    SstableInfo { id, key_range: None, file_size: 0, vnode_bitmaps: vec![] }
}

fn task(order_index: usize, epoch: u64) -> UploadTask<u8> {
    UploadTask::new(order_index, epoch, vec![vec![1]], false)
}

fn failure() -> HummockError {
    HummockError::Engine("flush".to_string())
}

fn previous_failure() -> HummockError {
    HummockError::SharedBufferError("failed due to previous failure".to_string())
}

/// Runs an item, failing the tasks of one epoch. Gives the epochs that were flushed, too.
fn drive(mut run: InnerRun<u8, u8>, failing: u64) -> (HummockResult<()>, Vec<u64>) {
    let mut flushed = Vec::new();
    loop {
        let outcome = match run.request() {
            InnerRequest::Notify => return (run.notify(), flushed),
            InnerRequest::Skip(_) => None,
            InnerRequest::Flush(task) => {
                flushed.push(task.epoch);
                if task.epoch == failing {
                    Some(Err(failure()))
                } else {
                    Some(Ok(vec![info(task.epoch)]))
                }
            }
        };
        assert!(!run.is_duplicate());
        match outcome {
            Some(outcome) => run.record(outcome),
            None => run.skip(),
        }
    }
}

fn start(tasks: Vec<UploadTask<u8>>) -> (InnerRun<u8, u8>, oneshot::Receiver<UploadTaskResult<u8>>) {
    let (notifier, report) = oneshot::channel();
    (InnerRun::new(UploadItem::new(tasks, notifier)), report)
}

#[test]
fn every_task_is_reported() {
    let (run, mut report) = start(vec![task(0, 10), task(1, 10), task(0, 11)]);
    let (outcome, flushed) = drive(run, 99);
    assert_eq!(outcome, Ok(()));
    assert_eq!(flushed, vec![10, 10, 11]);
    let report = report.try_recv().unwrap();
    assert_eq!(report.len(), 3);
    assert_eq!(report[&(10, 0)], Ok(vec![info(10)]));
    assert_eq!(report[&(10, 1)], Ok(vec![info(10)]));
    assert_eq!(report[&(11, 0)], Ok(vec![info(11)]));
}

#[test]
fn behind_a_failure_nothing_is_flushed() {
    let (run, mut report) = start(vec![task(0, 10), task(0, 11), task(0, 12), task(0, 9)]);
    let (outcome, flushed) = drive(run, 11);
    assert_eq!(outcome, Ok(()));
    assert_eq!(flushed, vec![10, 11]);
    let report = report.try_recv().unwrap();
    assert_eq!(report.len(), 4);
    assert_eq!(report[&(10, 0)], Ok(vec![info(10)]));
    assert_eq!(report[&(11, 0)], Err(failure()));
    assert_eq!(report[&(12, 0)], Err(previous_failure()));
    assert_eq!(report[&(9, 0)], Err(previous_failure()));
}

#[test]
fn an_item_without_tasks_is_reported_empty() {
    let (run, mut report) = start(vec![]);
    assert_eq!(drive(run, 99).0, Ok(()));
    assert!(report.try_recv().unwrap().is_empty());
}

#[test]
fn a_report_that_nobody_waits_for_is_an_error() {
    let (run, report) = start(vec![task(0, 10)]);
    drop(report);
    assert_eq!(
        drive(run, 99).0,
        Err(HummockError::SharedBufferError("failed to send result".to_string()))
    );
}

#[test]
fn a_key_that_is_taken_is_a_duplicate() {
    let (mut run, _report) = start(vec![task(0, 10), task(0, 10)]);
    assert!(!run.is_duplicate());
    run.record(Ok(vec![]));
    assert!(run.is_duplicate());
}

fn context(step: FlushStep<&'static str, &'static str, &'static str, u8>) -> Ctx {
    match step {
        FlushStep::Compact(context) => context,
        FlushStep::Done(_) => panic!("flush is over"),
    }
}

#[test]
fn a_flush_without_data_uploads_nothing() {
    let (uploader, _tx) = uploader(0);
    match uploader.start_flush(true, &vec![]) {
        FlushStep::Done(outcome) => assert_eq!(outcome, Ok(vec![])),
        FlushStep::Compact(_) => panic!("nothing to compact"),
    }
    // A list that is there counts as data, even when it is empty.
    context(uploader.start_flush(true, &vec![vec![]]));
}

#[test]
fn a_local_flush_counts_its_own_ids() {
    let (uploader, _tx) = uploader(2);
    let context = context(uploader.start_flush(true, &vec![vec![1]]));
    assert!(context.is_share_buffer_compact);
    assert_eq!(*context.sstable_store, "store");
    assert_eq!(*context.hummock_meta_client, "meta");
    assert_eq!(*context.stats, "stats");
    assert_eq!(context.options, uploader.options);
    assert_eq!(context.compaction_executor, uploader.compaction_executor);
    match context.sstable_id_generator {
        SstableIdGenerator::Local(next) => {
            assert_eq!(next.fetch_add(1, Ordering::Relaxed), 0);
            assert_eq!(uploader.next_local_sstable_id.load(Ordering::Relaxed), 1);
        }
        SstableIdGenerator::Remote(_) => panic!("remote ids"),
    }
}

#[test]
fn local_ids_are_drawn_one_after_another() {
    let (uploader, _tx) = uploader(0);
    let context = context(uploader.start_flush(true, &vec![vec![1]]));
    let counter = match context.sstable_id_generator {
        SstableIdGenerator::Local(counter) => counter,
        SstableIdGenerator::Remote(_) => panic!("remote ids"),
    };
    let mark = |number: u64| number | 1 << 63;
    assert_eq!(next_local_id(&counter, &mark), 1 << 63);
    assert_eq!(next_local_id(&counter, &mark), (1 << 63) + 1);
    assert_eq!(next_local_id(&uploader.next_local_sstable_id, &mark), (1 << 63) + 2);
    assert_eq!(counter.load(Ordering::Relaxed), 3);
}

#[test]
fn any_other_flush_asks_the_meta_service_for_ids() {
    let (uploader, _tx) = uploader(0);
    match context(uploader.start_flush(false, &vec![vec![1]])).sstable_id_generator {
        SstableIdGenerator::Remote(client) => assert_eq!(*client, "meta"),
        SstableIdGenerator::Local(_) => panic!("local ids"),
    }
}

type Ctx = CompactorContext<&'static str, &'static str, &'static str>;
type Tables = HummockResult<Vec<(Sstable, Vec<u8>)>>;

/// Compacts data, except for that which starts with 255. The state lists what was asked for.
fn compact(mut asked: Vec<u8>, context: Ctx, payload: &Vec<Vec<u8>>) -> (Vec<u8>, Tables) {
    assert!(context.is_share_buffer_compact);
    asked.push(payload[0][0]);
    if payload[0] == [255] {
        return (asked, Err(failure()));
    }
    let id = match context.sstable_id_generator {
        SstableIdGenerator::Local(next) => next_local_id(&next, &|number: u64| 1000 + number),
        SstableIdGenerator::Remote(_) => 1,
    };
    let meta = SstableMeta {
        smallest_key: payload[0].clone(),
        largest_key: payload[payload.len() - 1].clone(),
        estimated_size: payload.len() as u32,
    };
    (asked, Ok(vec![(Sstable { id, meta }, vec![7])]))
}

fn compacted(id: u64, left: u8, right: u8, file_size: u64) -> HummockResult<Vec<SstableInfo<u8>>> {
    let key_range = Some(KeyRange { left: vec![left], right: vec![right], inf: false });
    Ok(vec![SstableInfo { id, key_range, file_size, vnode_bitmaps: vec![7] }])
}

#[test]
fn a_flush_describes_what_the_compaction_wrote() {
    let (uploader, _tx) = uploader(0);
    let flush = |is_local, payload: Vec<Vec<u8>>| {
        uploader.flush(1, is_local, &payload, vec![100], &compact)
    };
    assert_eq!(flush(false, vec![vec![3], vec![4]]), (vec![100, 3], compacted(1, 3, 4, 2)));
    assert_eq!(flush(true, vec![vec![3]]), (vec![100, 3], compacted(1000, 3, 3, 1)));
    assert_eq!(flush(true, vec![vec![3]]), (vec![100, 3], compacted(1001, 3, 3, 1)));
    assert_eq!(flush(true, vec![vec![255]]), (vec![100, 255], Err(failure())));
    assert_eq!(flush(true, vec![]), (vec![100], Ok(vec![])));
}

#[test]
fn an_item_is_flushed_and_reported() {
    let uploader = Arc::new(uploader(0).0);
    let (notifier, mut report) = oneshot::channel();
    let tasks = vec![
        UploadTask::new(0, 5, vec![], false),
        UploadTask::new(1, 5, vec![vec![3], vec![4]], false),
        UploadTask::new(0, 6, vec![vec![9]], true),
        UploadTask::new(1, 6, vec![vec![255]], true),
        UploadTask::new(2, 6, vec![vec![3]], true),
        UploadTask::new(0, 7, vec![], true),
    ];
    let (asked, outcome) = uploader.run_inner(UploadItem::new(tasks, notifier), vec![], &compact);
    assert_eq!(outcome, Ok(()));
    // Nothing is compacted without data, nor behind the failure.
    assert_eq!(asked, vec![3, 9, 255]);
    let report: Vec<_> = report.try_recv().unwrap().into_iter().collect();
    assert_eq!(
        report,
        vec![
            ((5, 0), Ok(vec![])),
            ((5, 1), compacted(1, 3, 4, 2)),
            ((6, 0), compacted(1000, 9, 9, 1)),
            ((6, 1), Err(failure())),
            ((6, 2), Err(previous_failure())),
            ((7, 0), Err(previous_failure())),
        ]
    );
}

#[test]
fn an_item_whose_report_is_not_wanted_fails() {
    let uploader = Arc::new(uploader(0).0);
    let (notifier, report) = oneshot::channel();
    drop(report);
    let item = UploadItem::new(vec![task(0, 1)], notifier);
    assert_eq!(
        uploader.run_inner(item, vec![], &compact),
        (
            vec![1],
            Err(HummockError::SharedBufferError("failed to send result".to_string()))
        )
    );
}

#[test]
fn uploaded_tables_are_described() {
    let table = |id, estimated_size| Sstable {
        id,
        meta: SstableMeta { smallest_key: vec![1, 2], largest_key: vec![3], estimated_size },
    };
    let described = |id, file_size, vnode_bitmaps| SstableInfo {
        id,
        key_range: Some(KeyRange { left: vec![1, 2], right: vec![3], inf: false }),
        file_size,
        vnode_bitmaps,
    };
    assert_eq!(
        uploaded(Ok(vec![(table(5, u32::MAX), vec![7_u8]), (table(4, 0), vec![])])),
        Ok(vec![described(5, 4294967295, vec![7_u8]), described(4, 0, vec![])])
    );
    assert_eq!(uploaded::<u8>(Err(failure())), Err(failure()));
}

#[test]
fn compaction_threads_follow_the_configuration() {
    assert!(uploader(0).0.compaction_executor.is_none());
    let executor = uploader(4).0.compaction_executor.unwrap();
    assert_eq!(executor.worker_threads_num, Some(4));
    assert_eq!(*uploader(0).0.write_conflict_detector.unwrap(), 1);
}

#[test]
fn a_run_takes_the_receiver() {
    let (uploader, tx) = uploader(0);
    let mut run = uploader.run();
    assert!(run.this.uploader_rx.is_none());
    assert_eq!(run.concurrency, 8);
    let (notifier, _report) = oneshot::channel();
    assert!(tx.send(UploadItem::new(vec![task(3, 4)], notifier)).is_ok());
    let item = run.rx.try_recv().unwrap();
    assert_eq!(item.tasks[0].order_index, 3);
    assert_eq!(item.tasks[0].epoch, 4);
    assert!(!item.tasks[0].is_local);
}

#[test]
fn a_run_stops_at_the_first_error() {
    let completed = vec![Ok(()), Err(failure()), Err(previous_failure()), Ok(())];
    let mut steps = 0;
    let mut outcome = None;
    for item in completed {
        steps += 1;
        if let RunStep::Return(returned) = run_step(Some(item)) {
            outcome = Some(returned);
            break;
        }
    }
    assert_eq!(steps, 2);
    assert_eq!(outcome, Some(Err(failure())));
    assert_eq!(run_step(None), RunStep::Return(Ok(())));
}
