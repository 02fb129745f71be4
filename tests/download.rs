use imgur_album::{
    album_url, skip_existing, Batch, ItemDownload, ItemEvent, ItemOutcome, ItemStep, Run,
    RunError, RunEvent, RunStage, TaskState, CONCURRENCY,
};

fn run_item(expected: u64, on_disk: u64, fetch_fails: bool) -> (ItemOutcome, Vec<ItemStep>) {
    let mut d = ItemDownload::new(expected);
    let mut steps = vec![d.step];
    let mut step = d.advance(ItemEvent::Opened(on_disk));
    steps.push(step);
    while !d.is_done() {
        let ev = match step {
            ItemStep::Truncate => ItemEvent::Truncated,
            ItemStep::Fetch if fetch_fails => ItemEvent::Error,
            ItemStep::Fetch => ItemEvent::Fetched,
            ItemStep::Copy => ItemEvent::Copied,
            _ => unreachable!(),
        };
        step = d.advance(ev);
        steps.push(step);
    }
    (d.outcome().unwrap(), steps)
}

#[test]
fn skip_decision() {
    assert!(skip_existing(100, 100));
    assert!(!skip_existing(100, 0));
    assert!(!skip_existing(100, 99));
    assert!(!skip_existing(0, 5));
    assert!(skip_existing(0, 0));
}

#[test]
fn matching_file_is_skipped_without_fetch() {
    for size in [100u64, 200, 300] {
        let (outcome, steps) = run_item(size, size, false);
        assert_eq!(outcome, ItemOutcome::Skipped);
        assert!(!steps.contains(&ItemStep::Fetch));
        assert!(!steps.contains(&ItemStep::Truncate));
    }
}

#[test]
fn mismatched_file_is_truncated_and_downloaded() {
    let (outcome, steps) = run_item(100, 0, false);
    assert_eq!(outcome, ItemOutcome::Downloaded);
    assert_eq!(
        steps,
        vec![
            ItemStep::Open,
            ItemStep::Truncate,
            ItemStep::Fetch,
            ItemStep::Copy,
            ItemStep::Done(ItemOutcome::Downloaded)
        ]
    );
    let (outcome, _) = run_item(100, 250, false);
    assert_eq!(outcome, ItemOutcome::Downloaded);
}

#[test]
fn failed_fetch_fails_the_item() {
    let (outcome, steps) = run_item(100, 0, true);
    assert_eq!(outcome, ItemOutcome::Failed);
    assert_eq!(steps.last(), Some(&ItemStep::Done(ItemOutcome::Failed)));
}

#[test]
fn unexpected_events_change_nothing() {
    let mut d = ItemDownload::new(5);
    assert_eq!(d.advance(ItemEvent::Copied), ItemStep::Open);
    assert_eq!(d.outcome(), None);
    assert_eq!(d.advance(ItemEvent::Opened(5)), ItemStep::Done(ItemOutcome::Skipped));
    assert_eq!(d.advance(ItemEvent::Error), ItemStep::Done(ItemOutcome::Skipped));
}

#[test]
fn batch_survives_one_failure() {
    let mut b = Batch::new(3, CONCURRENCY);
    assert_eq!(b.start_next(), Some(0));
    assert_eq!(b.start_next(), Some(1));
    assert_eq!(b.start_next(), None);
    assert!(b.finish(1, ItemOutcome::Failed));
    assert!(!b.is_done());
    assert_eq!(b.start_next(), Some(2));
    assert!(b.finish(0, ItemOutcome::Downloaded));
    assert!(b.finish(2, ItemOutcome::Downloaded));
    assert_eq!(b.start_next(), None);
    assert!(b.is_done());
    assert_eq!(b.count_outcome(ItemOutcome::Failed), 1);
    assert_eq!(b.count_outcome(ItemOutcome::Downloaded), 2);
    assert_eq!(b.state(1), TaskState::Finished(ItemOutcome::Failed));
}

#[test]
fn batch_never_exceeds_cap() {
    let mut b = Batch::new(10, 3);
    let mut running = Vec::new();
    let mut started = Vec::new();
    loop {
        while let Some(i) = b.start_next() {
            running.push(i);
            started.push(i);
            assert!(running.len() <= 3);
        }
        if running.is_empty() {
            break;
        }
        let i = running.remove(0);
        assert!(b.finish(i, ItemOutcome::Skipped));
        assert!(!b.finish(i, ItemOutcome::Skipped));
    }
    assert!(b.is_done());
    assert_eq!(started, (0..10).collect::<Vec<usize>>());
    assert_eq!(b.len(), 10);
}

#[test]
fn empty_batch_is_done() {
    let mut b = Batch::new(0, CONCURRENCY);
    assert!(b.is_done());
    assert_eq!(b.start_next(), None);
    assert!(!b.finish(0, ItemOutcome::Failed));
}

#[test]
fn metadata_failure_aborts_before_directory() {
    let mut r = Run::new();
    assert_eq!(r.stage, RunStage::FetchMetadata);
    let s = r.advance(RunEvent::Failed(RunError::MetadataFetchFailed));
    assert_eq!(s, RunStage::Aborted(RunError::MetadataFetchFailed));
    assert_eq!(r.advance(RunEvent::MetadataFetched(3)), RunStage::Aborted(RunError::MetadataFetchFailed));
    assert_eq!(r.advance(RunEvent::DirectoryCreated), RunStage::Aborted(RunError::MetadataFetchFailed));
}

#[test]
fn run_goes_through_its_stages() {
    let mut r = Run::new();
    assert_eq!(r.advance(RunEvent::DirectoryCreated), RunStage::FetchMetadata);
    assert_eq!(r.advance(RunEvent::MetadataFetched(3)), RunStage::CreateDirectory(3));
    assert_eq!(r.advance(RunEvent::DirectoryCreated), RunStage::Download(3));
    assert_eq!(r.advance(RunEvent::BatchFinished), RunStage::Finished);
    let mut r = Run::new();
    r.advance(RunEvent::MetadataFetched(1));
    assert_eq!(
        r.advance(RunEvent::Failed(RunError::DirectoryFailed)),
        RunStage::Aborted(RunError::DirectoryFailed)
    );
}

#[test]
fn metadata_url() {
    assert_eq!(
        album_url("vNOUshX"),
        "https://api.imgur.com/post/v1/albums/vNOUshX?client_id=546c25a59c58ad7&include=media"
    );
}
