use cocoatly::download::{
    collect_batch, plan_batches, should_retry, DownloadResult, DownloadSession, DownloadTask,
};
use cocoatly::error::CocoatlyError;
use cocoatly::output::{JsonOutput, OperationResult};

fn task(n: usize) -> DownloadTask {
    DownloadTask { url: format!("https://example.invalid/{}", n), destination: format!("/tmp/{}", n) }
}

#[test]
fn batches_respect_the_concurrency_cap_and_keep_order() {
    let tasks: Vec<DownloadTask> = (0..7).map(task).collect();
    let batches = plan_batches(tasks, 3);
    assert_eq!(batches.len(), 3);
    assert_eq!(batches[0].len(), 3);
    assert_eq!(batches[1].len(), 3);
    assert_eq!(batches[2].len(), 1);
    let flat: Vec<&DownloadTask> = batches.iter().flatten().collect();
    for (i, t) in flat.iter().enumerate() {
        assert_eq!(t.url, format!("https://example.invalid/{}", i));
    }
}

#[test]
fn exact_and_empty_batching() {
    let batches = plan_batches((0..6).map(task).collect(), 3);
    assert_eq!(batches.len(), 2);
    let batches = plan_batches(Vec::new(), 4);
    assert_eq!(batches.len(), 0);
    let batches = plan_batches((0..2).map(task).collect(), 10);
    assert_eq!(batches.len(), 1);
    assert_eq!(batches[0].len(), 2);
}

#[test]
fn retry_policy_stops_at_the_configured_maximum() {
    assert!(should_retry(1, 3));
    assert!(should_retry(2, 3));
    assert!(!should_retry(3, 3));
    assert!(!should_retry(4, 3));
}

#[test]
fn session_accounts_chunks_into_a_result() {
    let mut session = DownloadSession::start(
        "https://example.invalid/a".to_string(),
        "/tmp/a".to_string(),
        Some(10),
    );
    session.on_chunk(4);
    session.on_chunk(6);
    let result = session.finish();
    assert_eq!(result.size, 10);
    assert_eq!(result.total_size, 10);
    assert_eq!(result.url, "https://example.invalid/a");

    let session = DownloadSession::start("u".to_string(), "d".to_string(), None);
    assert_eq!(session.total_size, 0);
}

fn ok_result(n: u64) -> Result<DownloadResult, CocoatlyError> {
    Ok(DownloadResult {
        url: format!("u{}", n),
        destination: format!("d{}", n),
        size: n,
        total_size: n,
    })
}

#[test]
fn collect_batch_returns_all_results_in_order() {
    let collected = collect_batch(vec![ok_result(1), ok_result(2), ok_result(3)]).unwrap();
    assert_eq!(collected.len(), 3);
    assert_eq!(collected[0].size, 1);
    assert_eq!(collected[2].size, 3);
}

#[test]
fn collect_batch_propagates_the_first_failure() {
    let results = vec![
        ok_result(1),
        Err(CocoatlyError::DownloadFailed("first".to_string())),
        Err(CocoatlyError::DownloadFailed("second".to_string())),
    ];
    match collect_batch(results) {
        Err(CocoatlyError::DownloadFailed(m)) => assert_eq!(m, "first"),
        other => panic!("expected the first failure, got {:?}", other),
    }
}

#[test]
fn json_output_envelopes() {
    let ok: JsonOutput<OperationResult> = JsonOutput::success(OperationResult {
        operation: "install".to_string(),
        package: "foo".to_string(),
        version: "1.0.0".to_string(),
        message: "done".to_string(),
    });
    assert!(ok.success);
    assert!(ok.data.is_some());
    assert!(ok.error.is_none());

    let bad: JsonOutput<OperationResult> = JsonOutput::failure("boom".to_string());
    assert!(!bad.success);
    assert!(bad.data.is_none());
    assert_eq!(bad.error.as_deref(), Some("boom"));
}
