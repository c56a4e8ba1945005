use tx_query::cursor::TransactionId;
use tx_query::mutation::TxMutation;
use tx_query::service::{CommitError, FuelService, SubmitError};
use tx_query::status::{FeedMessage, StatusError, StatusEvent, StoreError};
use tx_query::submission::{advance, await_first, await_step, collect_insertions, Stage};
use tx_query::subscription::TxStatusSubscription;

fn submitted() -> StatusEvent {
    StatusEvent::Submitted { time: 1 }
}

fn success() -> StatusEvent {
    StatusEvent::Success { block_height: 2, time: 3 }
}

fn squeezed() -> StatusEvent {
    StatusEvent::SqueezedOut { reason: String::from("replaced") }
}

#[test]
fn insertion_is_all_or_nothing() {
    let all: Vec<Result<u8, &str>> = vec![Ok(1), Ok(2), Ok(3)];
    assert_eq!(collect_insertions(all), Ok(vec![1, 2, 3]));
    let some: Vec<Result<u8, &str>> = vec![Ok(1), Err("full"), Ok(3), Err("late")];
    assert_eq!(collect_insertions(some), Err("full"));
    let none: Vec<Result<u8, &str>> = Vec::new();
    assert_eq!(collect_insertions(none), Ok(Vec::new()));
}

#[test]
fn submit_returns_the_identifier() {
    let id = TransactionId([4; 32]);
    let ok: Vec<Result<u8, &str>> = vec![Ok(1)];
    assert_eq!(TxMutation::submit(id, ok), Ok(id));
    let again: Vec<Result<u8, &str>> = vec![Ok(1)];
    assert_eq!(TxMutation::submit(id, again), Ok(id));
    let rejected: Vec<Result<u8, &str>> = vec![Err("duplicate")];
    assert_eq!(TxMutation::submit(id, rejected), Err("duplicate"));
}

#[test]
fn await_skips_submitted() {
    assert_eq!(await_step(FeedMessage::Status(submitted())), None);
    assert_eq!(await_step(FeedMessage::Status(success())), Some(Ok(success())));
    assert_eq!(await_step(FeedMessage::FailedStatus), Some(Err(StatusError::Feed)));
    let msgs = vec![
        FeedMessage::Status(submitted()),
        FeedMessage::Status(submitted()),
        FeedMessage::Status(squeezed()),
        FeedMessage::Status(success()),
    ];
    assert_eq!(await_first(msgs), Some(Ok(squeezed())));
    assert_eq!(await_first(vec![FeedMessage::Status(submitted())]), None);
    assert_eq!(await_first(Vec::new()), None);
}

#[test]
fn submit_and_await_matches_a_later_read() {
    let results: Vec<Result<u8, &str>> = vec![Ok(0)];
    let msgs = vec![FeedMessage::Status(submitted()), FeedMessage::Status(success())];
    let awaited = TxStatusSubscription::submit_and_await(results, msgs);
    assert_eq!(awaited, Ok(Some(Ok(success()))));
    let read = TxStatusSubscription::status_change(Ok(success()), None, Vec::new());
    assert_eq!(read, vec![Ok(success())]);
    assert_eq!(awaited.unwrap().unwrap(), read[0]);
}

#[test]
fn submit_and_await_reports_feed_failure() {
    let results: Vec<Result<u8, &str>> = vec![Ok(0)];
    let msgs = vec![FeedMessage::Status(submitted()), FeedMessage::FailedStatus];
    assert_eq!(TxStatusSubscription::submit_and_await(results, msgs), Ok(Some(Err(StatusError::Feed))));
}

#[test]
fn submit_and_await_stops_on_rejection() {
    let results: Vec<Result<u8, &str>> = vec![Err("invalid")];
    let msgs = vec![FeedMessage::Status(success())];
    assert_eq!(TxStatusSubscription::submit_and_await(results, msgs), Err("invalid"));
}

#[test]
fn service_submit_takes_the_first_result() {
    let ok: Vec<Result<u8, &str>> = vec![Ok(7), Ok(8)];
    assert_eq!(FuelService::submit(ok), Ok(7));
    let none: Vec<Result<u8, &str>> = Vec::new();
    assert_eq!(FuelService::submit(none), Err(SubmitError::NothingInserted));
    let bad: Vec<Result<u8, &str>> = vec![Ok(7), Err("a"), Err("b")];
    assert_eq!(FuelService::submit(bad), Err(SubmitError::Rejected("a")));
}

#[test]
fn service_status_change_after_submission() {
    let ok: Vec<Result<u8, &str>> = vec![Ok(7)];
    let msgs = vec![FeedMessage::Status(submitted()), FeedMessage::Status(success())];
    let out = FuelService::submit_and_status_change(ok, Err(StoreError::NotFound), None, msgs);
    assert_eq!(out, Ok(vec![Ok(submitted()), Ok(success())]));
    let bad: Vec<Result<u8, &str>> = vec![Err("a")];
    let out = FuelService::submit_and_status_change(bad, Ok(success()), None, Vec::new());
    assert_eq!(out, Err(SubmitError::Rejected("a")));
    let out = FuelService::transaction_status_change(Err(StoreError::NotFound), Some(1), Vec::new());
    assert_eq!(out, vec![Ok(submitted())]);
}

#[test]
fn await_commit_returns_the_final_status() {
    let ok: Vec<Result<u8, &str>> = vec![Ok(7)];
    let items = vec![Ok(submitted()), Ok(submitted()), Ok(success())];
    assert_eq!(FuelService::submit_and_await_commit(ok, items), Ok(success()));
}

#[test]
fn await_commit_errors() {
    let ok: Vec<Result<u8, &str>> = vec![Ok(7)];
    let closed = vec![Ok(submitted())];
    assert_eq!(FuelService::submit_and_await_commit(ok, closed), Err(CommitError::StreamClosed));
    let ok: Vec<Result<u8, &str>> = vec![Ok(7)];
    let failing = vec![Ok(submitted()), Err(StatusError::Feed), Ok(success())];
    assert_eq!(
        FuelService::submit_and_await_commit(ok, failing),
        Err(CommitError::Status(StatusError::Feed))
    );
    let bad: Vec<Result<u8, &str>> = vec![Err("no")];
    assert_eq!(
        FuelService::submit_and_await_commit(bad, vec![Ok(success())]),
        Err(CommitError::Submit(SubmitError::Rejected("no")))
    );
    let none: Vec<Result<u8, &str>> = Vec::new();
    assert_eq!(
        FuelService::submit_and_await_commit(none, vec![Ok(success())]),
        Err(CommitError::Submit(SubmitError::NothingInserted))
    );
}

#[test]
fn pipeline_subscribes_before_it_inserts() {
    let mut stage = Stage::Decode;
    let mut seen = vec![stage];
    while stage != Stage::Done {
        stage = advance(stage, true);
        seen.push(stage);
    }
    assert_eq!(seen, vec![Stage::Decode, Stage::Subscribe, Stage::Insert, Stage::Await, Stage::Done]);
    for s in [Stage::Decode, Stage::Subscribe, Stage::Insert, Stage::Await, Stage::Done] {
        assert_eq!(advance(s, false), Stage::Done);
    }
}
