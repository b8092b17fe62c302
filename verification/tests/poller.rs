use container_mirror::docker::{Container, ContainerSummary, LogOutput, SourceError};
use container_mirror::poller::{
    PollAction, PollEvent, PollPhase, Poller, LOG_TAIL, POLL_INTERVAL_SECONDS,
};
use container_mirror::snapshot::Workload;

fn summary(id: &str, name: &str) -> ContainerSummary {
    ContainerSummary {
        id: Some(id.to_string()),
        names: Some(vec![name.to_string()]),
        image: Some("img".to_string()),
        command: Some("cmd".to_string()),
        status: Some("Up".to_string()),
    }
}

fn container(id: &str, name: &str) -> Container {
    Container {
        id: id.to_string(),
        name: name.to_string(),
        image: "img".to_string(),
        command: "cmd".to_string(),
        status: "Up".to_string(),
    }
}

fn frame(text: &str) -> LogOutput {
    LogOutput::StdOut { message: text.as_bytes().to_vec() }
}

fn sleep(failure: Option<SourceError>) -> PollAction {
    PollAction::Sleep { seconds: 30, failure }
}

#[test]
fn the_default_cadence() {
    assert_eq!(POLL_INTERVAL_SECONDS, 30);
    assert_eq!(LOG_TAIL, 40);
}

#[test]
fn a_cycle_lists_fetches_and_publishes() {
    let mut poller = Poller::new(POLL_INTERVAL_SECONDS, LOG_TAIL);
    assert_eq!(poller.phase(), PollPhase::Idle);
    assert_eq!(poller.step(PollEvent::Wake), PollAction::ListWorkloads);
    assert_eq!(poller.phase(), PollPhase::Listing);
    assert_eq!(
        poller.step(PollEvent::Listed(Ok(vec![summary("a", "/a"), summary("b", "/b")]))),
        PollAction::FetchLogs { id: "a".to_string(), tail: 40 }
    );
    assert_eq!(poller.phase(), PollPhase::Fetching);
    assert_eq!(
        poller.step(PollEvent::Logs(vec![frame("one")])),
        PollAction::FetchLogs { id: "b".to_string(), tail: 40 }
    );
    assert_eq!(
        poller.step(PollEvent::Logs(vec![])),
        PollAction::Publish(vec![
            Workload { container: container("a", "/a"), log_tail: vec![frame("one")] },
            Workload { container: container("b", "/b"), log_tail: vec![] },
        ])
    );
    assert_eq!(poller.phase(), PollPhase::Publishing);
    assert_eq!(poller.step(PollEvent::Published), sleep(None));
    assert_eq!(poller.phase(), PollPhase::Idle);
    assert_eq!(poller.step(PollEvent::Wake), PollAction::ListWorkloads);
}

#[test]
fn a_failed_listing_ends_the_cycle_with_nothing_published() {
    let mut poller = Poller::new(30, 40);
    poller.step(PollEvent::Wake);
    assert_eq!(
        poller.step(PollEvent::Listed(Err(SourceError::Unavailable))),
        sleep(Some(SourceError::Unavailable))
    );
    assert_eq!(poller.phase(), PollPhase::Idle);
    assert_eq!(poller.step(PollEvent::Wake), PollAction::ListWorkloads);
}

#[test]
fn an_empty_listing_publishes_no_workloads() {
    let mut poller = Poller::new(30, 40);
    poller.step(PollEvent::Wake);
    assert_eq!(poller.step(PollEvent::Listed(Ok(vec![]))), PollAction::Publish(vec![]));
    assert_eq!(poller.step(PollEvent::Published), sleep(None));
}

#[test]
fn a_record_with_a_missing_field_is_no_workload() {
    let mut broken = summary("x", "/x");
    broken.status = None;
    let mut poller = Poller::new(30, 40);
    poller.step(PollEvent::Wake);
    assert_eq!(
        poller.step(PollEvent::Listed(Ok(vec![broken, summary("b", "/b")]))),
        PollAction::FetchLogs { id: "b".to_string(), tail: 40 }
    );
    assert_eq!(
        poller.step(PollEvent::Logs(vec![frame("log")])),
        PollAction::Publish(vec![Workload {
            container: container("b", "/b"),
            log_tail: vec![frame("log")],
        }])
    );
}

#[test]
fn interval_and_tail_are_the_ones_given() {
    let mut poller = Poller::new(7, 3);
    poller.step(PollEvent::Wake);
    assert_eq!(
        poller.step(PollEvent::Listed(Ok(vec![summary("a", "/a")]))),
        PollAction::FetchLogs { id: "a".to_string(), tail: 3 }
    );
    poller.step(PollEvent::Logs(vec![]));
    assert_eq!(
        poller.step(PollEvent::Published),
        PollAction::Sleep { seconds: 7, failure: None }
    );
}

#[test]
fn an_event_that_answers_nothing_ends_the_cycle() {
    let mut poller = Poller::new(30, 40);
    assert_eq!(poller.step(PollEvent::Published), sleep(None));
    poller.step(PollEvent::Wake);
    assert_eq!(poller.step(PollEvent::Logs(vec![])), sleep(None));
    assert_eq!(poller.phase(), PollPhase::Idle);
    poller.step(PollEvent::Wake);
    poller.step(PollEvent::Listed(Ok(vec![summary("a", "/a")])));
    assert_eq!(poller.step(PollEvent::Wake), sleep(None));
    poller.step(PollEvent::Wake);
    assert_eq!(
        poller.step(PollEvent::Listed(Ok(vec![summary("z", "/z")]))),
        PollAction::FetchLogs { id: "z".to_string(), tail: 40 }
    );
    assert_eq!(
        poller.step(PollEvent::Logs(vec![])),
        PollAction::Publish(vec![Workload { container: container("z", "/z"), log_tail: vec![] }])
    );
}
