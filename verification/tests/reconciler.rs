use container_mirror::discord::Payload;
use container_mirror::docker::{Container, LogOutput};
use container_mirror::reconciler::{
    channels_in, Action, Channel, Event, GuildChannel, Phase, Reconciler, ResourceHandle,
    SinkError, RECONCILE_INTERVAL_SECONDS, WARM_UP_SECONDS,
};
use container_mirror::snapshot::Workload;

const GUILD: u64 = 11;
const CATEGORY: u64 = 22;
const NOW: i64 = 1_700_000_000_000_000;

fn workload(id: &str, name: &str) -> Workload {
    Workload {
        container: Container {
            id: id.to_string(),
            name: name.to_string(),
            image: "img".to_string(),
            command: "cmd".to_string(),
            status: "Up".to_string(),
        },
        log_tail: vec![LogOutput::StdOut { message: b"line\n".to_vec() }],
    }
}

fn payload(w: &Workload) -> Payload {
    container_mirror::discord::format(&w.container, &w.log_tail, NOW)
}

fn handle(id: &str, name: &str, channel: u64, message: Option<u64>) -> ResourceHandle {
    ResourceHandle {
        workload_id: id.to_string(),
        name: name.to_string(),
        channel,
        last_message: message,
    }
}

fn channel(id: u64, name: &str) -> Channel {
    Channel { id, name: name.to_string() }
}

fn ids(names: &[&str]) -> Vec<String> {
    names.iter().map(|n| n.to_string()).collect()
}

fn sleep(failure: Option<SinkError>) -> Action {
    Action::Sleep { seconds: 30, failure }
}

fn fresh() -> Reconciler {
    Reconciler::new(GUILD, CATEGORY, RECONCILE_INTERVAL_SECONDS, WARM_UP_SECONDS)
}

/// A reconciler that has made channel 100 (message 200) for `a` and channel
/// 101 (message 201) for `b`, and sleeps.
fn with_a_and_b() -> Reconciler {
    let mut r = fresh();
    r.step(Event::Wake, NOW);
    r.step(Event::Removals(vec![]), NOW);
    r.step(Event::Workloads(vec![workload("a", "/a"), workload("b", "/b")]), NOW);
    r.step(Event::ChannelCreated(Ok(100)), NOW);
    r.step(Event::MessageCreated(Ok(200)), NOW);
    r.step(Event::ChannelCreated(Ok(101)), NOW);
    assert_eq!(r.step(Event::MessageCreated(Ok(201)), NOW), sleep(None));
    r
}

#[test]
fn the_default_cadence_of_the_reconciler() {
    assert_eq!(RECONCILE_INTERVAL_SECONDS, 30);
    let r = Reconciler::new(1, 2, 30, 9);
    assert_eq!(r.start(), Action::Sleep { seconds: 9, failure: None });
    assert_eq!(r.phase(), Phase::Idle);
    assert_eq!(r.handles(), Vec::new());
    assert_eq!(r.removals(), Vec::<String>::new());
}

#[test]
fn two_workloads_then_one() {
    let a = workload("a", "/a");
    let b = workload("b", "/b");
    let mut r = fresh();

    assert_eq!(r.step(Event::Wake, NOW), Action::DrainRemovals);
    assert_eq!(r.step(Event::Removals(vec![]), NOW), Action::ReadWorkloads);
    assert_eq!(
        r.step(Event::Workloads(vec![a.clone(), b.clone()]), NOW),
        Action::CreateChannel { guild: GUILD, category: CATEGORY, name: "/a".to_string() }
    );
    assert_eq!(
        r.step(Event::ChannelCreated(Ok(100)), NOW),
        Action::CreateMessage { channel: 100, payload: payload(&a) }
    );
    assert_eq!(
        r.step(Event::MessageCreated(Ok(200)), NOW),
        Action::CreateChannel { guild: GUILD, category: CATEGORY, name: "/b".to_string() }
    );
    assert_eq!(
        r.step(Event::ChannelCreated(Ok(101)), NOW),
        Action::CreateMessage { channel: 101, payload: payload(&b) }
    );
    assert_eq!(r.step(Event::MessageCreated(Ok(201)), NOW), sleep(None));
    assert_eq!(
        r.handles(),
        vec![handle("a", "/a", 100, Some(200)), handle("b", "/b", 101, Some(201))]
    );

    assert_eq!(r.step(Event::Wake, NOW), Action::DrainRemovals);
    assert_eq!(
        r.step(Event::Removals(ids(&["a"])), NOW),
        Action::ListChannels { category: CATEGORY }
    );
    assert_eq!(
        r.step(Event::Channels(Ok(vec![channel(101, "/b"), channel(100, "/a")])), NOW),
        Action::DeleteChannel { channel: 100 }
    );
    assert_eq!(r.step(Event::ChannelDeleted(Ok(())), NOW), Action::ReadWorkloads);
    assert_eq!(r.handles(), vec![handle("b", "/b", 101, Some(201))]);
    assert_eq!(
        r.step(Event::Workloads(vec![b.clone()]), NOW),
        Action::UpdateMessage { channel: 101, message: 201, payload: payload(&b) }
    );
    assert_eq!(r.step(Event::MessageUpdated(Ok(())), NOW), sleep(None));
    assert_eq!(r.handles(), vec![handle("b", "/b", 101, Some(201))]);
    assert_eq!(r.phase(), Phase::Idle);
}

#[test]
fn removing_twice_deletes_once() {
    let mut r = with_a_and_b();
    r.step(Event::Wake, NOW);
    assert_eq!(
        r.step(Event::Removals(ids(&["a"])), NOW),
        Action::ListChannels { category: CATEGORY }
    );
    assert_eq!(
        r.step(Event::Channels(Ok(vec![channel(100, "/a"), channel(101, "/b")])), NOW),
        Action::DeleteChannel { channel: 100 }
    );
    assert_eq!(r.step(Event::ChannelDeleted(Ok(())), NOW), Action::ReadWorkloads);
    let after_first = r.handles();
    assert_eq!(after_first, vec![handle("b", "/b", 101, Some(201))]);
    assert_eq!(r.step(Event::Workloads(vec![]), NOW), sleep(None));

    r.step(Event::Wake, NOW);
    assert_eq!(r.step(Event::Removals(ids(&["a"])), NOW), Action::ReadWorkloads);
    assert_eq!(r.handles(), after_first);
    assert_eq!(r.removals(), Vec::<String>::new());
}

#[test]
fn a_removal_without_a_handle_is_nothing() {
    let mut r = with_a_and_b();
    r.step(Event::Wake, NOW);
    assert_eq!(r.step(Event::Removals(ids(&["zzz", "yyy"])), NOW), Action::ReadWorkloads);
    assert_eq!(r.handles().len(), 2);
}

#[test]
fn an_id_handed_over_twice_is_removed_once() {
    let mut r = with_a_and_b();
    r.step(Event::Wake, NOW);
    assert_eq!(
        r.step(Event::Removals(ids(&["a", "a", "b"])), NOW),
        Action::ListChannels { category: CATEGORY }
    );
    let listing = || Ok(vec![channel(100, "/a"), channel(101, "/b")]);
    assert_eq!(r.step(Event::Channels(listing()), NOW), Action::DeleteChannel { channel: 100 });
    assert_eq!(
        r.step(Event::ChannelDeleted(Ok(())), NOW),
        Action::ListChannels { category: CATEGORY }
    );
    assert_eq!(r.removals(), ids(&["b"]));
    assert_eq!(
        r.step(Event::Channels(Ok(vec![channel(101, "/b")])), NOW),
        Action::DeleteChannel { channel: 101 }
    );
    assert_eq!(r.step(Event::ChannelDeleted(Ok(())), NOW), Action::ReadWorkloads);
    assert_eq!(r.handles(), Vec::new());
}

#[test]
fn a_channel_that_is_not_listed_needs_no_deletion() {
    let mut r = with_a_and_b();
    r.step(Event::Wake, NOW);
    r.step(Event::Removals(ids(&["a"])), NOW);
    assert_eq!(
        r.step(Event::Channels(Ok(vec![channel(101, "/b"), channel(5, "other")])), NOW),
        Action::ReadWorkloads
    );
    assert_eq!(r.handles(), vec![handle("b", "/b", 101, Some(201))]);
}

#[test]
fn the_handles_own_channel_is_deleted_where_it_is_listed() {
    let mut r = with_a_and_b();
    r.step(Event::Wake, NOW);
    r.step(Event::Removals(ids(&["b"])), NOW);
    assert_eq!(
        r.step(
            Event::Channels(Ok(vec![channel(1, "/a"), channel(7, "/b"), channel(101, "/b")])),
            NOW
        ),
        Action::DeleteChannel { channel: 101 }
    );
}

#[test]
fn a_renamed_channel_is_still_found_by_its_id() {
    let mut r = with_a_and_b();
    r.step(Event::Wake, NOW);
    r.step(Event::Removals(ids(&["a"])), NOW);
    assert_eq!(
        r.step(Event::Channels(Ok(vec![channel(101, "/b"), channel(100, "renamed")])), NOW),
        Action::DeleteChannel { channel: 100 }
    );
    assert_eq!(r.step(Event::ChannelDeleted(Ok(())), NOW), Action::ReadWorkloads);
    assert_eq!(r.handles(), vec![handle("b", "/b", 101, Some(201))]);
}

#[test]
fn the_first_channel_of_the_name_is_deleted_where_the_id_is_not_listed() {
    let mut r = with_a_and_b();
    r.step(Event::Wake, NOW);
    r.step(Event::Removals(ids(&["b"])), NOW);
    assert_eq!(
        r.step(
            Event::Channels(Ok(vec![channel(1, "/a"), channel(7, "/b"), channel(8, "/b")])),
            NOW
        ),
        Action::DeleteChannel { channel: 7 }
    );
    assert_eq!(r.step(Event::ChannelDeleted(Ok(())), NOW), Action::ReadWorkloads);
    assert_eq!(r.handles(), vec![handle("a", "/a", 100, Some(200))]);
}

#[test]
fn no_two_handles_for_one_workload() {
    let a = workload("a", "/a");
    let mut r = fresh();
    r.step(Event::Wake, NOW);
    r.step(Event::Removals(vec![]), NOW);
    r.step(Event::Workloads(vec![a.clone(), workload("a", "/again"), a.clone()]), NOW);
    r.step(Event::ChannelCreated(Ok(100)), NOW);
    assert_eq!(
        r.step(Event::MessageCreated(Ok(200)), NOW),
        Action::UpdateMessage {
            channel: 100,
            message: 200,
            payload: payload(&workload("a", "/again")),
        }
    );
    assert_eq!(
        r.step(Event::MessageUpdated(Ok(())), NOW),
        Action::UpdateMessage { channel: 100, message: 200, payload: payload(&a) }
    );
    assert_eq!(r.step(Event::MessageUpdated(Ok(())), NOW), sleep(None));
    assert_eq!(r.handles(), vec![handle("a", "/a", 100, Some(200))]);

    r.step(Event::Wake, NOW);
    r.step(Event::Removals(vec![]), NOW);
    assert_eq!(
        r.step(Event::Workloads(vec![a.clone()]), NOW),
        Action::UpdateMessage { channel: 100, message: 200, payload: payload(&a) }
    );
    r.step(Event::MessageUpdated(Ok(())), NOW);
    assert_eq!(r.handles(), vec![handle("a", "/a", 100, Some(200))]);
}

#[test]
fn an_old_channel_is_deleted_before_the_new_one_is_made() {
    let mut r = with_a_and_b();
    let mut actions = Vec::new();
    actions.push(r.step(Event::Wake, NOW));
    actions.push(r.step(Event::Removals(ids(&["a"])), NOW));
    actions.push(r.step(Event::Channels(Ok(vec![channel(100, "/a"), channel(101, "/b")])), NOW));
    actions.push(r.step(Event::ChannelDeleted(Ok(())), NOW));
    actions.push(r.step(Event::Workloads(vec![workload("a2", "/a"), workload("b", "/b")]), NOW));
    actions.push(r.step(Event::ChannelCreated(Ok(102)), NOW));
    actions.push(r.step(Event::MessageCreated(Ok(202)), NOW));
    actions.push(r.step(Event::MessageUpdated(Ok(())), NOW));
    let deleted = actions
        .iter()
        .position(|a| *a == Action::DeleteChannel { channel: 100 })
        .unwrap();
    let created = actions
        .iter()
        .position(|a| {
            *a == Action::CreateChannel { guild: GUILD, category: CATEGORY, name: "/a".to_string() }
        })
        .unwrap();
    assert!(deleted < created);
    assert_eq!(
        r.handles(),
        vec![handle("b", "/b", 101, Some(201)), handle("a2", "/a", 102, Some(202))]
    );
}

#[test]
fn a_failed_update_changes_no_handle() {
    for e in [SinkError::Unavailable, SinkError::RateLimited, SinkError::Unauthorized] {
        let mut r = with_a_and_b();
        let before = r.handles();
        r.step(Event::Wake, NOW);
        r.step(Event::Removals(vec![]), NOW);
        r.step(Event::Workloads(vec![workload("a", "/a"), workload("b", "/b")]), NOW);
        assert_eq!(r.step(Event::MessageUpdated(Err(e)), NOW), sleep(Some(e)));
        assert_eq!(r.handles(), before);
        assert_eq!(r.phase(), Phase::Idle);

        r.step(Event::Wake, NOW);
        r.step(Event::Removals(vec![]), NOW);
        assert_eq!(
            r.step(Event::Workloads(vec![workload("a", "/a"), workload("b", "/b")]), NOW),
            Action::UpdateMessage { channel: 100, message: 200, payload: payload(&workload("a", "/a")) }
        );
        assert_eq!(
            r.step(Event::MessageUpdated(Ok(())), NOW),
            Action::UpdateMessage { channel: 101, message: 201, payload: payload(&workload("b", "/b")) }
        );
    }
}

#[test]
fn a_message_that_is_gone_costs_the_handle() {
    let mut r = with_a_and_b();
    r.step(Event::Wake, NOW);
    r.step(Event::Removals(vec![]), NOW);
    r.step(Event::Workloads(vec![workload("a", "/a"), workload("b", "/b")]), NOW);
    assert_eq!(
        r.step(Event::MessageUpdated(Err(SinkError::NotFound)), NOW),
        sleep(Some(SinkError::NotFound))
    );
    assert_eq!(r.handles(), vec![handle("b", "/b", 101, Some(201))]);
    r.step(Event::Wake, NOW);
    r.step(Event::Removals(vec![]), NOW);
    assert_eq!(
        r.step(Event::Workloads(vec![workload("a", "/a"), workload("b", "/b")]), NOW),
        Action::CreateChannel { guild: GUILD, category: CATEGORY, name: "/a".to_string() }
    );
}

#[test]
fn a_failed_channel_leaves_no_handle() {
    let mut r = fresh();
    r.step(Event::Wake, NOW);
    r.step(Event::Removals(vec![]), NOW);
    r.step(Event::Workloads(vec![workload("a", "/a")]), NOW);
    assert_eq!(
        r.step(Event::ChannelCreated(Err(SinkError::RateLimited)), NOW),
        sleep(Some(SinkError::RateLimited))
    );
    assert_eq!(r.handles(), Vec::new());
}

#[test]
fn a_failed_message_keeps_the_channel_for_the_next_cycle() {
    let a = workload("a", "/a");
    let mut r = fresh();
    r.step(Event::Wake, NOW);
    r.step(Event::Removals(vec![]), NOW);
    r.step(Event::Workloads(vec![a.clone()]), NOW);
    r.step(Event::ChannelCreated(Ok(100)), NOW);
    assert_eq!(r.handles(), vec![handle("a", "/a", 100, None)]);
    assert_eq!(
        r.step(Event::MessageCreated(Err(SinkError::Unavailable)), NOW),
        sleep(Some(SinkError::Unavailable))
    );
    assert_eq!(r.handles(), vec![handle("a", "/a", 100, None)]);
    r.step(Event::Wake, NOW);
    r.step(Event::Removals(vec![]), NOW);
    assert_eq!(
        r.step(Event::Workloads(vec![a.clone()]), NOW),
        Action::CreateMessage { channel: 100, payload: payload(&a) }
    );
    assert_eq!(r.step(Event::MessageCreated(Ok(200)), NOW), sleep(None));
    assert_eq!(r.handles(), vec![handle("a", "/a", 100, Some(200))]);
}

#[test]
fn a_failed_deletion_keeps_handle_and_queue() {
    let mut r = with_a_and_b();
    r.step(Event::Wake, NOW);
    r.step(Event::Removals(ids(&["a", "b"])), NOW);
    r.step(Event::Channels(Ok(vec![channel(100, "/a"), channel(101, "/b")])), NOW);
    assert_eq!(
        r.step(Event::ChannelDeleted(Err(SinkError::Unauthorized)), NOW),
        sleep(Some(SinkError::Unauthorized))
    );
    assert_eq!(r.handles().len(), 2);
    assert_eq!(r.removals(), ids(&["a", "b"]));
    r.step(Event::Wake, NOW);
    assert_eq!(
        r.step(Event::Removals(vec![]), NOW),
        Action::ListChannels { category: CATEGORY }
    );
    assert_eq!(
        r.step(Event::Channels(Err(SinkError::Unavailable)), NOW),
        sleep(Some(SinkError::Unavailable))
    );
    assert_eq!(r.removals(), ids(&["a", "b"]));
}

#[test]
fn a_channel_already_gone_counts_as_removed() {
    let mut r = with_a_and_b();
    r.step(Event::Wake, NOW);
    r.step(Event::Removals(ids(&["a", "b"])), NOW);
    r.step(Event::Channels(Ok(vec![channel(100, "/a"), channel(101, "/b")])), NOW);
    assert_eq!(
        r.step(Event::ChannelDeleted(Err(SinkError::NotFound)), NOW),
        sleep(Some(SinkError::NotFound))
    );
    assert_eq!(r.handles(), vec![handle("b", "/b", 101, Some(201))]);
    assert_eq!(r.removals(), ids(&["b"]));
}

#[test]
fn an_event_that_answers_nothing_ends_the_reconcilers_cycle() {
    let mut r = with_a_and_b();
    assert_eq!(r.step(Event::Workloads(vec![workload("c", "/c")]), NOW), sleep(None));
    assert_eq!(r.step(Event::ChannelCreated(Ok(5)), NOW), sleep(None));
    r.step(Event::Wake, NOW);
    assert_eq!(r.step(Event::Wake, NOW), sleep(None));
    assert_eq!(r.handles().len(), 2);
    assert_eq!(r.phase(), Phase::Idle);
}

#[test]
fn an_instant_out_of_range_gives_plain_text() {
    let a = workload("a", "/a");
    let mut r = fresh();
    r.step(Event::Wake, i64::MAX);
    r.step(Event::Removals(vec![]), i64::MAX);
    r.step(Event::Workloads(vec![a.clone()]), i64::MAX);
    match r.step(Event::ChannelCreated(Ok(100)), i64::MAX) {
        Action::CreateMessage { channel: 100, payload: Payload::Text(text) } => {
            assert_eq!(text, container_mirror::discord::text_container(&a.container, &a.log_tail))
        }
        other => panic!("unexpected {:?}", other),
    }
}

#[test]
fn run_stamps_messages_with_the_clock() {
    let a = workload("a", "/a");
    let mut r = fresh();
    assert_eq!(r.run(Event::Wake), Action::DrainRemovals);
    assert_eq!(r.run(Event::Removals(vec![])), Action::ReadWorkloads);
    r.run(Event::Workloads(vec![a.clone()]));
    match r.run(Event::ChannelCreated(Ok(100))) {
        Action::CreateMessage { channel: 100, payload: Payload::Embed(embed) } => {
            assert!(embed.timestamp > 1_600_000_000_000_000);
            assert_eq!(
                Payload::Embed(embed.clone()),
                container_mirror::discord::format(&a.container, &a.log_tail, embed.timestamp)
            );
        }
        other => panic!("unexpected {:?}", other),
    }
    assert_eq!(r.run(Event::MessageCreated(Ok(200))), sleep(None));
    assert_eq!(r.handles(), vec![handle("a", "/a", 100, Some(200))]);
}

#[test]
fn a_status_of_discord_says_what_failed() {
    assert_eq!(SinkError::from_status(404), SinkError::NotFound);
    assert_eq!(SinkError::from_status(401), SinkError::Unauthorized);
    assert_eq!(SinkError::from_status(403), SinkError::Unauthorized);
    assert_eq!(SinkError::from_status(429), SinkError::RateLimited);
    assert_eq!(SinkError::from_status(500), SinkError::Unavailable);
    assert_eq!(SinkError::from_status(400), SinkError::Unavailable);
}

#[test]
fn channels_in_picks_the_channels_of_the_category() {
    let guild_channel = |id: u64, name: Option<&str>, parent: Option<u64>| GuildChannel {
        id,
        name: name.map(|n| n.to_string()),
        parent,
    };
    let listing = vec![
        guild_channel(1, Some("general"), None),
        guild_channel(2, Some("/a"), Some(CATEGORY)),
        guild_channel(3, Some("/b"), Some(99)),
        guild_channel(CATEGORY, Some("containers"), None),
        guild_channel(4, None, Some(CATEGORY)),
        guild_channel(5, Some("/c"), Some(CATEGORY)),
    ];
    assert_eq!(
        channels_in(&listing, CATEGORY),
        vec![channel(2, "/a"), channel(4, ""), channel(5, "/c")]
    );
    assert_eq!(channels_in(&listing, 7), Vec::new());
    assert_eq!(channels_in(&Vec::new(), CATEGORY), Vec::new());
}
