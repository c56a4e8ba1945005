use tx_query::status::{
    probe_status, reconcile, FeedMessage, Input, Phase, Reconciler, StatusError, StatusEvent,
    StoreError, Wanted,
};
use tx_query::subscription::TxStatusSubscription;

fn submitted(time: u64) -> StatusEvent {
    StatusEvent::Submitted { time }
}

fn success() -> StatusEvent {
    StatusEvent::Success { block_height: 5, time: 77 }
}

fn failed() -> StatusEvent {
    StatusEvent::Failed { block_height: 6, time: 78, reason: String::from("out of gas") }
}

fn squeezed() -> StatusEvent {
    StatusEvent::SqueezedOut { reason: String::from("conflict") }
}

#[test]
fn only_submitted_is_not_terminal() {
    assert!(!submitted(1).terminal());
    assert!(success().terminal());
    assert!(failed().terminal());
    assert!(squeezed().terminal());
}

#[test]
fn probe_prefers_the_store() {
    assert_eq!(probe_status(Ok(success()), Some(3)), Ok(Some(success())));
    assert_eq!(probe_status(Err(StoreError::NotFound), Some(3)), Ok(Some(submitted(3))));
    assert_eq!(probe_status(Err(StoreError::NotFound), None), Ok(None));
    assert_eq!(probe_status(Err(StoreError::Other), Some(3)), Err(StatusError::Storage));
}

#[test]
fn terminal_probe_yields_one_item() {
    for status in [success(), failed(), squeezed()] {
        let msgs = vec![FeedMessage::Status(submitted(1)), FeedMessage::Status(success())];
        let out = TxStatusSubscription::status_change(Ok(status.clone()), Some(1), msgs);
        assert_eq!(out, vec![Ok(status)]);
    }
}

#[test]
fn terminal_probe_closes_the_reconciler() {
    let mut r = Reconciler::new();
    assert_eq!(r.wanted(), Wanted::Probe);
    assert_eq!(r.step(Input::Probe(Ok(Some(failed())))), Some(Ok(failed())));
    assert_eq!(r.phase, Phase::Closed);
    assert_eq!(r.wanted(), Wanted::Release);
    assert_eq!(r.step(Input::Message(FeedMessage::Status(success()))), None);
    assert_eq!(r.phase, Phase::Closed);
}

#[test]
fn without_prior_status_the_feed_comes_first() {
    let msgs = vec![
        FeedMessage::Status(submitted(4)),
        FeedMessage::Status(success()),
        FeedMessage::Status(failed()),
    ];
    let out = TxStatusSubscription::status_change(Err(StoreError::NotFound), None, msgs);
    assert_eq!(out, vec![Ok(submitted(4)), Ok(success())]);

    let msgs = vec![FeedMessage::Status(squeezed()), FeedMessage::Status(submitted(4))];
    let out = TxStatusSubscription::status_change(Err(StoreError::NotFound), None, msgs);
    assert_eq!(out, vec![Ok(squeezed())]);

    let out = TxStatusSubscription::status_change(Err(StoreError::NotFound), None, Vec::new());
    assert_eq!(out, vec![]);
}

#[test]
fn submitted_probe_is_followed_by_the_feed() {
    let msgs = vec![
        FeedMessage::Status(submitted(9)),
        FeedMessage::Status(submitted(9)),
        FeedMessage::Status(failed()),
        FeedMessage::Status(success()),
    ];
    let out = TxStatusSubscription::status_change(Err(StoreError::NotFound), Some(9), msgs);
    assert_eq!(out, vec![Ok(submitted(9)), Ok(submitted(9)), Ok(submitted(9)), Ok(failed())]);
}

#[test]
fn stream_may_close_without_terminal_status() {
    let msgs = vec![FeedMessage::Status(submitted(2))];
    let out = reconcile(Ok(Some(submitted(1))), msgs);
    assert_eq!(out, vec![Ok(submitted(1)), Ok(submitted(2))]);
}

#[test]
fn feed_failure_ends_the_stream() {
    let msgs = vec![FeedMessage::FailedStatus, FeedMessage::Status(success())];
    let out = reconcile(Ok(None), msgs);
    assert_eq!(out, vec![Err(StatusError::Feed)]);
}

#[test]
fn store_failure_is_the_only_item() {
    let msgs = vec![FeedMessage::Status(success())];
    let out = TxStatusSubscription::status_change(Err(StoreError::Other), Some(1), msgs);
    assert_eq!(out, vec![Err(StatusError::Storage)]);
}

#[test]
fn reconciler_steps_through_its_phases() {
    let mut r = Reconciler::new();
    assert_eq!(r.phase, Phase::Priming);
    assert_eq!(r.step(Input::Message(FeedMessage::Status(success()))), None);
    assert_eq!(r.step(Input::ChannelClosed), None);
    assert_eq!(r.phase, Phase::Priming);
    assert_eq!(r.step(Input::Probe(Ok(None))), None);
    assert_eq!(r.phase, Phase::Live);
    assert_eq!(r.wanted(), Wanted::Message);
    assert_eq!(r.step(Input::Probe(Ok(Some(success())))), None);
    assert_eq!(r.phase, Phase::Live);
    assert_eq!(r.step(Input::Message(FeedMessage::Status(submitted(1)))), Some(Ok(submitted(1))));
    assert_eq!(r.phase, Phase::Live);
    assert_eq!(r.step(Input::Message(FeedMessage::Status(squeezed()))), Some(Ok(squeezed())));
    assert_eq!(r.phase, Phase::Closed);
}

#[test]
fn closed_channel_closes_the_reconciler() {
    let mut r = Reconciler::new();
    assert_eq!(r.step(Input::Probe(Ok(Some(submitted(1))))), Some(Ok(submitted(1))));
    assert_eq!(r.phase, Phase::Live);
    assert_eq!(r.step(Input::ChannelClosed), None);
    assert_eq!(r.phase, Phase::Closed);
    assert_eq!(r.wanted(), Wanted::Release);
}

#[test]
fn probe_failure_closes_the_reconciler() {
    let mut r = Reconciler::new();
    assert_eq!(r.step(Input::Probe(Err(StatusError::Storage))), Some(Err(StatusError::Storage)));
    assert_eq!(r.phase, Phase::Closed);
    let mut r = Reconciler::new();
    let _ = r.step(Input::Probe(Ok(None)));
    assert_eq!(r.step(Input::Message(FeedMessage::FailedStatus)), Some(Err(StatusError::Feed)));
    assert_eq!(r.phase, Phase::Closed);
}
