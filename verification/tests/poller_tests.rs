use transcriptor::transcribe::poller::{
    backoff_seconds, poll_step, PollDecision, ProcessingError, TranscriptionJobState,
};

#[test]
fn scenario_three_rechecks_then_completion() {
    // InProgress three times, then Completed: backoffs 5 s, 7 s, 9 s and
    // four status queries in all.
    let script = vec![
        TranscriptionJobState::InProgress,
        TranscriptionJobState::InProgress,
        TranscriptionJobState::InProgress,
        TranscriptionJobState::Completed,
    ];
    let mut waits: Vec<u64> = Vec::new();
    let mut queries: u64 = 0;
    let mut check_count: u64 = 0;
    for status in script {
        check_count += 1;
        queries += 1;
        match poll_step(status, &None, check_count) {
            PollDecision::Recheck { wait_seconds } => waits.push(wait_seconds),
            PollDecision::Proceed => break,
            PollDecision::Abort(e) => panic!("unexpected abort: {}", e.message()),
        }
    }
    assert_eq!(waits, vec![5, 7, 9]);
    assert_eq!(queries, 4);
}

#[test]
fn scenario_failure_reason_is_surfaced() {
    let reason = Some("Unsupported media format".to_string());
    match poll_step(TranscriptionJobState::Failed, &reason, 1) {
        PollDecision::Abort(ProcessingError::JobFailed(r)) => {
            assert_eq!(r, "Unsupported media format");
        }
        other => panic!("expected JobFailed, got {:?}", other),
    }
}

#[test]
fn failure_without_reason_gets_placeholder() {
    match poll_step(TranscriptionJobState::Failed, &None, 3) {
        PollDecision::Abort(ProcessingError::JobFailed(r)) => {
            assert_eq!(r, "Unknown error");
        }
        other => panic!("expected JobFailed, got {:?}", other),
    }
}

#[test]
fn unknown_status_is_a_protocol_error() {
    match poll_step(TranscriptionJobState::Unknown, &None, 1) {
        PollDecision::Abort(ProcessingError::UnexpectedJobState) => {}
        other => panic!("expected UnexpectedJobState, got {:?}", other),
    }
    assert_eq!(
        ProcessingError::UnexpectedJobState.message(),
        "unexpected transcription job status"
    );
}

#[test]
fn backoff_grows_linearly_and_caps_at_thirty() {
    assert_eq!(backoff_seconds(1), 5);
    assert_eq!(backoff_seconds(2), 7);
    assert_eq!(backoff_seconds(5), 13);
    assert_eq!(backoff_seconds(13), 29);
    assert_eq!(backoff_seconds(14), 30);
    assert_eq!(backoff_seconds(1000), 30);
}

#[test]
fn error_messages_name_their_stage() {
    assert_eq!(
        ProcessingError::JobFailed("boom".to_string()).message(),
        "transcription job failed: boom"
    );
    assert_eq!(
        ProcessingError::StatusQueryFailed("timeout".to_string()).message(),
        "failed to get transcription job status: timeout"
    );
    assert_eq!(
        ProcessingError::RetrievalError("HTTP 503".to_string()).message(),
        "failed to download transcript: HTTP 503"
    );
    assert_eq!(
        ProcessingError::ParseError("bad json".to_string()).message(),
        "failed to parse transcript document: bad json"
    );
}
