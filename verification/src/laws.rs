//! What holds of the reconciler whatever happens: facts about
//! [`ReconcilerView::step`], proved for every state, event and time.

use crate::reconciler::{
    channel_of, handle_ids, lemma_slot_of, slot_of, without, ActionView, ChannelView, EventView,
    Phase, ReconcilerView, ResourceHandleView, SinkError,
};
use vstd::prelude::*;

verus! {

/// Taking the first handle for an id out of handles that have each id once
/// leaves no handle for that id, keeps every other handle, and leaves each
/// id once.
pub proof fn lemma_without(handles: Seq<ResourceHandleView>, id: Seq<char>)
    requires
        handle_ids(handles).no_duplicates(),
    ensures
        handle_ids(without(handles, id)).no_duplicates(),
        slot_of(without(handles, id), id) is None,
        forall|other: Seq<char>|
            other != id ==> (#[trigger] handle_ids(without(handles, id)).contains(other)
                <==> handle_ids(handles).contains(other)),
        forall|other: Seq<char>|
            #[trigger] handle_ids(without(handles, id)).contains(other) ==> handle_ids(
                handles,
            ).contains(other),
{
    let ids = handle_ids(handles);
    let left = without(handles, id);
    lemma_slot_of(handles, id);
    match slot_of(handles, id) {
        None => {
            lemma_slot_of(left, id);
        },
        Some(i) => {
            assert(left == handles.remove(i));
            assert(handle_ids(left) =~= ids.remove(i));
            assert forall|a: int, b: int|
                0 <= a < handle_ids(left).len() && 0 <= b < handle_ids(left).len() && a
                    != b implies handle_ids(left)[a] != handle_ids(left)[b] by {
                let a0 = if a < i {
                    a
                } else {
                    a + 1
                };
                let b0 = if b < i {
                    b
                } else {
                    b + 1
                };
                assert(handle_ids(left)[a] == ids[a0]);
                assert(handle_ids(left)[b] == ids[b0]);
            }
            if handle_ids(left).contains(id) {
                let a = choose|a: int| 0 <= a < handle_ids(left).len() && handle_ids(left)[a] == id;
                let a0 = if a < i {
                    a
                } else {
                    a + 1
                };
                assert(ids[a0] == id);
                assert(ids[i] == id);
            }
            lemma_slot_of(left, id);
            assert forall|other: Seq<char>| #[trigger]
                handle_ids(left).contains(other) implies ids.contains(other) by {
                let a = choose|a: int|
                    0 <= a < handle_ids(left).len() && handle_ids(left)[a] == other;
                let a0 = if a < i {
                    a
                } else {
                    a + 1
                };
                assert(ids[a0] == other);
            }
            assert forall|other: Seq<char>| other != id && ids.contains(other) implies #[trigger]
                handle_ids(left).contains(other) by {
                let a0 = choose|a0: int| 0 <= a0 < ids.len() && ids[a0] == other;
                let a = if a0 < i {
                    a0
                } else {
                    a0 - 1
                };
                assert(handle_ids(left)[a] == other);
            }
        },
    }
}

/// What `remove_next` does: it changes nothing but the phase and the queue,
/// and of the queue it takes only leading ids that have no handle. It ends
/// either with the queue empty, asking for the workloads, or at an id that
/// has a handle, asking for the channel listing.
pub proof fn lemma_remove_next(before: ReconcilerView)
    ensures
        ({
            let (after, action) = before.remove_next();
            &&& after == (ReconcilerView {
                phase: after.phase,
                removals: after.removals,
                ..before
            })
            &&& exists|k: int|
                0 <= k <= before.removals.len() && after.removals == before.removals.skip(k)
                    && forall|j: int|
                    0 <= j < k ==> slot_of(before.handles, #[trigger] before.removals[j]) is None
            &&& after.removals.len() == 0 ==> after.phase == Phase::Reading && action
                == ActionView::ReadWorkloads
            &&& after.removals.len() > 0 ==> after.phase == Phase::Listing && action
                == (ActionView::ListChannels { category: before.category }) && slot_of(
                after.handles,
                after.removals[0],
            ) is Some
        }),
    decreases before.removals.len(),
{
    let (after, action) = before.remove_next();
    if before.removals.len() == 0 {
        assert(before.removals.skip(0) =~= before.removals);
    } else if slot_of(before.handles, before.removals[0]) is Some {
        assert(before.removals.skip(0) =~= before.removals);
    } else {
        let rest = ReconcilerView { removals: before.removals.drop_first(), ..before };
        lemma_remove_next(rest);
        let k = choose|k: int|
            0 <= k <= rest.removals.len() && after.removals == rest.removals.skip(k) && forall|
                j: int,
            |
                0 <= j < k ==> slot_of(rest.handles, #[trigger] rest.removals[j]) is None;
        assert(rest.removals.skip(k) =~= before.removals.skip(k + 1));
        assert forall|j: int| 0 <= j < k + 1 implies slot_of(
            before.handles,
            #[trigger] before.removals[j],
        ) is None by {
            if j > 0 {
                assert(before.removals[j] == rest.removals[j - 1]);
            }
        }
    }
}

/// At most one handle per container, step by step: where no two handles are
/// for the same container before a step, none are after it.
pub proof fn lemma_step_keeps_one_handle_each(before: ReconcilerView, event: EventView, now: i64)
    requires
        before.wf(),
    ensures
        before.step(event, now).0.wf(),
{
    match (before.phase, event) {
        (Phase::Draining, EventView::Removals(ids)) => {
            lemma_remove_next(ReconcilerView { removals: before.removals + ids, ..before });
        },
        (Phase::Listing, EventView::Channels(Ok(_))) => {
            lemma_remove_next(before);
            lemma_forget_head(before);
            lemma_remove_next(before.forget_head());
        },
        (Phase::Deleting, EventView::ChannelDeleted(Ok(_))) => {
            lemma_forget_head(before);
            lemma_remove_next(before.forget_head());
        },
        (Phase::Deleting, EventView::ChannelDeleted(Err(_))) => {
            lemma_forget_head(before);
        },
        (Phase::CreatingChannel, EventView::ChannelCreated(Ok(channel))) => {
            lemma_record_channel(before, channel);
        },
        (Phase::CreatingMessage, EventView::MessageCreated(Ok(message))) => {
            lemma_record_message(before, message);
        },
        (Phase::CreatingMessage, EventView::MessageCreated(Err(_))) => {
            if before.next < before.workloads.len() {
                lemma_without(before.handles, before.workloads[before.next as int].container.id);
            }
        },
        (Phase::Updating, EventView::MessageUpdated(Err(_))) => {
            if before.next < before.workloads.len() {
                lemma_without(before.handles, before.workloads[before.next as int].container.id);
            }
        },
        _ => {},
    }
}

/// Dropping the queue's first id with its handle leaves each id once.
pub proof fn lemma_forget_head(before: ReconcilerView)
    requires
        before.wf(),
    ensures
        before.forget_head().wf(),
        before.removals.len() > 0 ==> slot_of(before.forget_head().handles, before.removals[0])
            is None,
{
    if before.removals.len() > 0 {
        lemma_without(before.handles, before.removals[0]);
    }
}

/// A handle is added only for a container that has none, so each id stays
/// once.
pub proof fn lemma_record_channel(before: ReconcilerView, channel: u64)
    requires
        before.wf(),
    ensures
        before.record_channel(channel).wf(),
{
    let after = before.record_channel(channel);
    if before.next < before.workloads.len() {
        let id = before.workloads[before.next as int].container.id;
        lemma_slot_of(before.handles, id);
        if slot_of(before.handles, id) is None {
            assert(handle_ids(after.handles) =~= handle_ids(before.handles).push(id));
        }
    }
}

/// Recording a message changes no handle's id.
pub proof fn lemma_record_message(before: ReconcilerView, message: u64)
    requires
        before.wf(),
    ensures
        before.record_message(message).wf(),
        handle_ids(before.record_message(message).handles) == handle_ids(before.handles),
{
    let after = before.record_message(message);
    if before.next < before.workloads.len() {
        let id = before.workloads[before.next as int].container.id;
        lemma_slot_of(before.handles, id);
        assert(handle_ids(after.handles) =~= handle_ids(before.handles));
    }
}

/// The state that a run of events leads to. Each input is an event and the
/// time at which it arrives.
pub open spec fn state_after(start: ReconcilerView, inputs: Seq<(EventView, i64)>) -> ReconcilerView
    decreases inputs.len(),
{
    if inputs.len() == 0 {
        start
    } else {
        state_after(start.step(inputs[0].0, inputs[0].1).0, inputs.drop_first())
    }
}

/// The actions that a run of events asks for, in order: one for each input.
pub open spec fn actions_of(start: ReconcilerView, inputs: Seq<(EventView, i64)>) -> Seq<
    ActionView,
>
    decreases inputs.len(),
{
    if inputs.len() == 0 {
        Seq::empty()
    } else {
        seq![start.step(inputs[0].0, inputs[0].1).1] + actions_of(
            start.step(inputs[0].0, inputs[0].1).0,
            inputs.drop_first(),
        )
    }
}

/// At most one handle per container, whatever happens: from a state in which
/// no two handles are for the same container, no run of events, over however
/// many cycles, leads to a state in which two are.
pub proof fn law_one_handle_each(start: ReconcilerView, inputs: Seq<(EventView, i64)>)
    requires
        start.wf(),
    ensures
        state_after(start, inputs).wf(),
    decreases inputs.len(),
{
    if inputs.len() > 0 {
        lemma_step_keeps_one_handle_each(start, inputs[0].0, inputs[0].1);
        law_one_handle_each(start.step(inputs[0].0, inputs[0].1).0, inputs.drop_first());
    }
}

/// The action deletes a channel.
pub open spec fn removes(action: ActionView) -> bool {
    action is DeleteChannel
}

/// The action makes a channel, or makes or updates a message.
pub open spec fn creates_or_updates(action: ActionView) -> bool {
    action is CreateChannel || action is CreateMessage || action is UpdateMessage
}

/// The removals of the cycle are over: the reconciler is at its workloads,
/// or between cycles.
pub open spec fn past_removals(phase: Phase) -> bool {
    phase is Idle || phase is Reading || phase is CreatingChannel || phase is CreatingMessage
        || phase is Updating
}

/// No input of the run wakes the reconciler.
pub open spec fn no_wake(inputs: Seq<(EventView, i64)>) -> bool {
    forall|i: int| 0 <= i < inputs.len() ==> !((#[trigger] inputs[i]).0 is Wake)
}

/// The run stays within one cycle: no input but, at most, the first wakes
/// the reconciler.
pub open spec fn within_one_cycle(inputs: Seq<(EventView, i64)>) -> bool {
    forall|i: int| 0 < i < inputs.len() ==> !((#[trigger] inputs[i]).0 is Wake)
}

/// One step and the stages of a cycle. Once the removals are over, nothing
/// but a wake-up brings them back, and no channel is deleted. Whatever makes
/// a channel or touches a message leaves the reconciler past its removals.
pub proof fn lemma_step_stages(before: ReconcilerView, event: EventView, now: i64)
    ensures
        past_removals(before.phase) && !(event is Wake) ==> past_removals(
            before.step(event, now).0.phase,
        ) && !removes(before.step(event, now).1),
        creates_or_updates(before.step(event, now).1) ==> past_removals(
            before.step(event, now).0.phase,
        ),
        removes(before.step(event, now).1) ==> before.phase is Listing,
{
    match (before.phase, event) {
        (Phase::Draining, EventView::Removals(ids)) => {
            lemma_remove_next(ReconcilerView { removals: before.removals + ids, ..before });
        },
        (Phase::Listing, EventView::Channels(Ok(channels))) => {
            lemma_remove_next(before);
            lemma_remove_next(before.forget_head());
        },
        (Phase::Deleting, EventView::ChannelDeleted(Ok(_))) => {
            lemma_remove_next(before.forget_head());
        },
        _ => {},
    }
}

/// Past its removals and within one cycle, the reconciler deletes no
/// channel.
pub proof fn lemma_no_removal_past_removals(start: ReconcilerView, inputs: Seq<(EventView, i64)>)
    requires
        past_removals(start.phase),
        no_wake(inputs),
    ensures
        actions_of(start, inputs).len() == inputs.len(),
        forall|j: int|
            0 <= j < inputs.len() ==> !removes(#[trigger] actions_of(start, inputs)[j]),
    decreases inputs.len(),
{
    if inputs.len() > 0 {
        let next = start.step(inputs[0].0, inputs[0].1).0;
        let rest = inputs.drop_first();
        assert(!(inputs[0].0 is Wake));
        lemma_step_stages(start, inputs[0].0, inputs[0].1);
        assert forall|i: int| 0 <= i < rest.len() implies !((#[trigger] rest[i]).0 is Wake) by {
            assert(rest[i] == inputs[i + 1]);
        }
        lemma_no_removal_past_removals(next, rest);
        assert forall|j: int| 0 <= j < inputs.len() implies !removes(
            #[trigger] actions_of(start, inputs)[j],
        ) by {
            if j > 0 {
                assert(actions_of(start, inputs)[j] == actions_of(next, rest)[j - 1]);
            }
        }
    }
}

/// Delete before create: within one cycle, from whatever state and whether
/// or not the run begins with the wake-up, no channel is deleted after a
/// channel has been made or a message made or updated. So where a cycle
/// deletes the channel of a container that is gone and makes one for a
/// container of the same name, the deletion comes first.
pub proof fn law_removals_come_first(start: ReconcilerView, inputs: Seq<(EventView, i64)>)
    requires
        within_one_cycle(inputs),
    ensures
        actions_of(start, inputs).len() == inputs.len(),
        forall|i: int, j: int|
            0 <= i < j < inputs.len() && creates_or_updates(
                #[trigger] actions_of(start, inputs)[i],
            ) ==> !removes(#[trigger] actions_of(start, inputs)[j]),
    decreases inputs.len(),
{
    if inputs.len() > 0 {
        let next = start.step(inputs[0].0, inputs[0].1).0;
        let first = start.step(inputs[0].0, inputs[0].1).1;
        let rest = inputs.drop_first();
        assert forall|i: int| 0 <= i < rest.len() implies !((#[trigger] rest[i]).0 is Wake) by {
            assert(rest[i] == inputs[i + 1]);
        }
        law_removals_come_first(next, rest);
        lemma_step_stages(start, inputs[0].0, inputs[0].1);
        if creates_or_updates(first) {
            lemma_no_removal_past_removals(next, rest);
        }
        assert forall|i: int, j: int|
            0 <= i < j < inputs.len() && creates_or_updates(
                #[trigger] actions_of(start, inputs)[i],
            ) implies !removes(#[trigger] actions_of(start, inputs)[j]) by {
            assert(actions_of(start, inputs)[j] == actions_of(next, rest)[j - 1]);
            if i > 0 {
                assert(actions_of(start, inputs)[i] == actions_of(next, rest)[i - 1]);
            } else {
                assert(actions_of(start, inputs)[0] == first);
            }
        }
    }
}

/// The error that an event reports, if it reports one.
pub open spec fn failure_of(event: EventView) -> Option<SinkError> {
    match event {
        EventView::Channels(Err(e)) => Some(e),
        EventView::ChannelDeleted(Err(e)) => Some(e),
        EventView::ChannelCreated(Err(e)) => Some(e),
        EventView::MessageCreated(Err(e)) => Some(e),
        EventView::MessageUpdated(Err(e)) => Some(e),
        _ => None,
    }
}

/// A failure is kept apart: when a call fails, whatever the state, the
/// reconciler goes to sleep until the next cycle, which starts over with
/// every workload. Its handles and its queue are as they were, unless the
/// failure says that the channel or message is gone.
pub proof fn law_failure_changes_no_handle(
    before: ReconcilerView,
    event: EventView,
    now: i64,
    e: SinkError,
)
    requires
        failure_of(event) == Some(e),
        e != SinkError::NotFound,
    ensures
        before.step(event, now).0 == (ReconcilerView {
            phase: Phase::Idle,
            workloads: Seq::empty(),
            next: 0,
            ..before
        }),
        before.step(event, now).1 is Sleep,
        before.step(event, now).1->Sleep_seconds == before.interval,
{
}

/// When the update of a workload's message fails, the reconciler says so
/// and goes to sleep with its handles as they were, that workload's too.
pub proof fn law_failed_update_changes_no_handle(before: ReconcilerView, now: i64, e: SinkError)
    requires
        before.phase is Updating,
        e != SinkError::NotFound,
    ensures
        before.step(EventView::MessageUpdated(Err(e)), now) == (
            ReconcilerView { phase: Phase::Idle, workloads: Seq::empty(), next: 0, ..before },
            ActionView::Sleep { seconds: before.interval, failure: Some(e) },
        ),
{
}

/// When a call about a workload's message fails because the channel or the
/// message is gone, that workload's handle is dropped and every other handle
/// kept.
pub proof fn law_stale_handle_is_dropped(before: ReconcilerView, event: EventView, now: i64)
    requires
        before.wf(),
        before.phase is Updating && event == EventView::MessageUpdated(Err(SinkError::NotFound))
            || before.phase is CreatingMessage && event == EventView::MessageCreated(
            Err(SinkError::NotFound),
        ),
        before.next < before.workloads.len(),
    ensures
        before.step(event, now).0.handles == without(
            before.handles,
            before.workloads[before.next as int].container.id,
        ),
        slot_of(
            before.step(event, now).0.handles,
            before.workloads[before.next as int].container.id,
        ) is None,
        before.step(event, now).1 == (ActionView::Sleep {
            seconds: before.interval,
            failure: Some(SinkError::NotFound),
        }),
{
    lemma_without(before.handles, before.workloads[before.next as int].container.id);
}

/// Every id of `ids` that still has a handle is still in the queue.
pub open spec fn owed(state: ReconcilerView, ids: Seq<Seq<char>>) -> bool {
    forall|i: int|
        0 <= i < ids.len() && slot_of(state.handles, #[trigger] ids[i]) is Some
            ==> state.removals.contains(ids[i])
}

/// `remove_next` takes from the queue only ids without a handle.
pub proof fn lemma_remove_next_keeps_owed(before: ReconcilerView, ids: Seq<Seq<char>>)
    requires
        owed(before, ids),
    ensures
        owed(before.remove_next().0, ids),
{
    let after = before.remove_next().0;
    lemma_remove_next(before);
    let k = choose|k: int|
        0 <= k <= before.removals.len() && after.removals == before.removals.skip(k) && forall|
            j: int,
        |
            0 <= j < k ==> slot_of(before.handles, #[trigger] before.removals[j]) is None;
    assert forall|i: int|
        0 <= i < ids.len() && slot_of(after.handles, #[trigger] ids[i]) is Some
            implies after.removals.contains(ids[i]) by {
        assert(before.removals.contains(ids[i]));
        let j = choose|j: int| 0 <= j < before.removals.len() && before.removals[j] == ids[i];
        if j < k {
            assert(slot_of(before.handles, before.removals[j]) is None);
        }
        assert(after.removals[j - k] == ids[i]);
    }
}

/// Dropping the queue's first id together with its handle owes nothing new.
pub proof fn lemma_forget_head_keeps_owed(before: ReconcilerView, ids: Seq<Seq<char>>)
    requires
        before.wf(),
        owed(before, ids),
    ensures
        owed(before.forget_head(), ids),
{
    let after = before.forget_head();
    if before.removals.len() > 0 {
        let head = before.removals[0];
        lemma_without(before.handles, head);
        assert forall|i: int|
            0 <= i < ids.len() && slot_of(after.handles, #[trigger] ids[i]) is Some
                implies after.removals.contains(ids[i]) by {
            lemma_slot_of(after.handles, ids[i]);
            lemma_slot_of(before.handles, ids[i]);
            assert(handle_ids(after.handles).contains(ids[i]));
            assert(ids[i] != head);
            assert(before.removals.contains(ids[i]));
            let j = choose|j: int| 0 <= j < before.removals.len() && before.removals[j] == ids[i];
            assert(after.removals[j - 1] == ids[i]);
        }
    }
}

/// Draining puts every id handed over into the queue.
pub proof fn lemma_drain_owes(before: ReconcilerView, ids: Seq<Seq<char>>, now: i64)
    requires
        before.phase is Draining,
    ensures
        owed(before.step(EventView::Removals(ids), now).0, ids),
        before.step(EventView::Removals(ids), now).0.phase is Reading ==> before.step(
            EventView::Removals(ids),
            now,
        ).0.removals.len() == 0,
        before.step(EventView::Removals(ids), now).0.handles == before.handles,
{
    let queued = ReconcilerView { removals: before.removals + ids, ..before };
    assert forall|i: int|
        0 <= i < ids.len() && slot_of(queued.handles, #[trigger] ids[i]) is Some
            implies queued.removals.contains(ids[i]) by {
        assert(queued.removals[before.removals.len() + i] == ids[i]);
    }
    lemma_remove_next_keeps_owed(queued, ids);
    lemma_remove_next(queued);
}

/// While the reconciler is at its removals, every id that still has a handle
/// stays in the queue, and the queue is empty when the workloads are asked
/// for.
pub proof fn lemma_removal_step_keeps_owed(
    before: ReconcilerView,
    event: EventView,
    now: i64,
    ids: Seq<Seq<char>>,
)
    requires
        before.wf(),
        owed(before, ids),
        before.phase is Listing || before.phase is Deleting,
    ensures
        owed(before.step(event, now).0, ids),
        before.step(event, now).0.phase is Reading ==> before.step(event, now).0.removals.len()
            == 0,
{
    match (before.phase, event) {
        (Phase::Listing, EventView::Channels(Ok(channels))) => {
            lemma_after_listing_keeps_owed(before, channels, ids);
        },
        (Phase::Deleting, EventView::ChannelDeleted(Ok(_))) => {
            lemma_forget_head_keeps_owed(before, ids);
            lemma_remove_next(before.forget_head());
            lemma_remove_next_keeps_owed(before.forget_head(), ids);
        },
        (Phase::Deleting, EventView::ChannelDeleted(Err(e))) => {
            lemma_forget_head_keeps_owed(before, ids);
        },
        _ => {},
    }
}

/// With the channel listing in hand, every id that still has a handle stays
/// in the queue, and the queue is empty when the workloads are asked for.
pub proof fn lemma_after_listing_keeps_owed(
    before: ReconcilerView,
    channels: Seq<ChannelView>,
    ids: Seq<Seq<char>>,
)
    requires
        before.wf(),
        owed(before, ids),
    ensures
        owed(before.after_listing(channels).0, ids),
        before.after_listing(channels).0.phase is Reading ==> before.after_listing(
            channels,
        ).0.removals.len() == 0,
{
    if before.removals.len() == 0 || slot_of(before.handles, before.removals[0]) is None {
        lemma_remove_next(before);
        lemma_remove_next_keeps_owed(before, ids);
    } else {
        let i = slot_of(before.handles, before.removals[0])->0;
        if channel_of(channels, before.handles[i]) is None {
            lemma_forget_head_keeps_owed(before, ids);
            lemma_remove_next(before.forget_head());
            lemma_remove_next_keeps_owed(before.forget_head(), ids);
        }
    }
}

/// The run stays at the removals: every input arrives while the reconciler
/// waits for a channel listing or for a deletion.
pub open spec fn at_removals(start: ReconcilerView, inputs: Seq<(EventView, i64)>) -> bool
    decreases inputs.len(),
{
    inputs.len() > 0 ==> (start.phase is Listing || start.phase is Deleting) && at_removals(
        start.step(inputs[0].0, inputs[0].1).0,
        inputs.drop_first(),
    )
}

/// Through a run at the removals, every id that still has a handle stays in
/// the queue.
pub proof fn lemma_removals_keep_owed(
    start: ReconcilerView,
    inputs: Seq<(EventView, i64)>,
    ids: Seq<Seq<char>>,
)
    requires
        start.wf(),
        owed(start, ids),
        start.phase is Reading ==> start.removals.len() == 0,
        at_removals(start, inputs),
    ensures
        state_after(start, inputs).wf(),
        owed(state_after(start, inputs), ids),
        state_after(start, inputs).phase is Reading ==> state_after(start, inputs).removals.len()
            == 0,
    decreases inputs.len(),
{
    if inputs.len() > 0 {
        lemma_step_keeps_one_handle_each(start, inputs[0].0, inputs[0].1);
        lemma_removal_step_keeps_owed(start, inputs[0].0, inputs[0].1, ids);
        lemma_removals_keep_owed(start.step(inputs[0].0, inputs[0].1).0, inputs.drop_first(), ids);
    }
}

/// Removing what has been removed does nothing: where none of the ids has a
/// handle and the queue is empty, being handed the ids leads straight on to
/// the workloads. No call is asked for, and no handle and nothing else
/// changes.
pub proof fn law_removing_the_removed_does_nothing(
    before: ReconcilerView,
    ids: Seq<Seq<char>>,
    now: i64,
)
    requires
        before.phase is Draining,
        before.removals.len() == 0,
        forall|i: int| 0 <= i < ids.len() ==> slot_of(before.handles, #[trigger] ids[i]) is None,
    ensures
        before.step(EventView::Removals(ids), now) == (
            ReconcilerView { phase: Phase::Reading, ..before },
            ActionView::ReadWorkloads,
        ),
{
    let queued = ReconcilerView { removals: before.removals + ids, ..before };
    let after = queued.remove_next().0;
    assert(queued.removals =~= ids);
    lemma_remove_next(queued);
    let k = choose|k: int|
        0 <= k <= queued.removals.len() && after.removals == queued.removals.skip(k) && forall|
            j: int,
        |
            0 <= j < k ==> slot_of(queued.handles, #[trigger] queued.removals[j]) is None;
    if after.removals.len() > 0 {
        assert(after.removals[0] == ids[k]);
    }
    assert(after.removals =~= before.removals);
}

/// Removal is idempotent. Take a set of ids through the removals of one
/// cycle, whatever the channel listings hold and however the deletions end,
/// until the reconciler asks for the workloads. Then none of the ids has a
/// handle, and handing over the same ids in a later cycle asks for no call
/// and changes nothing.
pub proof fn law_removal_is_idempotent(
    start: ReconcilerView,
    ids: Seq<Seq<char>>,
    now: i64,
    inputs: Seq<(EventView, i64)>,
    later: i64,
)
    requires
        start.wf(),
        start.phase is Draining,
        at_removals(start.step(EventView::Removals(ids), now).0, inputs),
        state_after(start.step(EventView::Removals(ids), now).0, inputs).phase is Reading,
    ensures
        ({
            let done = state_after(start.step(EventView::Removals(ids), now).0, inputs);
            &&& done.removals.len() == 0
            &&& forall|i: int|
                0 <= i < ids.len() ==> slot_of(done.handles, #[trigger] ids[i]) is None
            &&& (ReconcilerView { phase: Phase::Draining, ..done }).step(
                EventView::Removals(ids),
                later,
            ) == (done, ActionView::ReadWorkloads)
        }),
{
    let first = start.step(EventView::Removals(ids), now).0;
    let done = state_after(first, inputs);
    lemma_step_keeps_one_handle_each(start, EventView::Removals(ids), now);
    lemma_drain_owes(start, ids, now);
    lemma_removals_keep_owed(first, inputs, ids);
    assert forall|i: int| 0 <= i < ids.len() implies slot_of(done.handles, #[trigger] ids[i])
        is None by {
        if slot_of(done.handles, ids[i]) is Some {
            assert(done.removals.contains(ids[i]));
        }
    }
    law_removing_the_removed_does_nothing(
        ReconcilerView { phase: Phase::Draining, ..done },
        ids,
        later,
    );
}

/// One removal, one deletion. A container that has a handle, and for which
/// the listing shows a channel, is removed with one call to list the channels
/// and one to delete the channel; then its handle is gone and every other
/// handle kept. Handing over the same id again asks for no call and changes
/// nothing.
pub proof fn law_one_removal_one_deletion(
    start: ReconcilerView,
    id: Seq<char>,
    channels: Seq<ChannelView>,
    now: i64,
)
    requires
        start.wf(),
        start.phase is Draining,
        start.removals.len() == 0,
        slot_of(start.handles, id) is Some,
        channel_of(channels, start.handles[slot_of(start.handles, id)->0]) is Some,
    ensures
        ({
            let channel = channel_of(channels, start.handles[slot_of(start.handles, id)->0])->0;
            let (listing, first) = start.step(EventView::Removals(seq![id]), now);
            let (deleting, second) = listing.step(EventView::Channels(Ok(channels)), now);
            let (done, third) = deleting.step(EventView::ChannelDeleted(Ok(())), now);
            &&& first == (ActionView::ListChannels { category: start.category })
            &&& second == (ActionView::DeleteChannel { channel })
            &&& third == ActionView::ReadWorkloads
            &&& done == (ReconcilerView {
                phase: Phase::Reading,
                handles: without(start.handles, id),
                ..start
            })
            &&& slot_of(done.handles, id) is None
            &&& (ReconcilerView { phase: Phase::Draining, ..done }).step(
                EventView::Removals(seq![id]),
                now,
            ) == (done, ActionView::ReadWorkloads)
        }),
{
    let queued = ReconcilerView { removals: start.removals + seq![id], ..start };
    assert(queued.removals =~= seq![id]);
    let (listing, first) = start.step(EventView::Removals(seq![id]), now);
    assert(listing == ReconcilerView { phase: Phase::Listing, ..queued });
    let (deleting, second) = listing.step(EventView::Channels(Ok(channels)), now);
    assert(deleting == ReconcilerView { phase: Phase::Deleting, ..queued });
    let forgotten = deleting.forget_head();
    assert(forgotten.removals =~= Seq::<Seq<char>>::empty());
    lemma_without(start.handles, id);
    let (done, third) = deleting.step(EventView::ChannelDeleted(Ok(())), now);
    assert(done.removals =~= start.removals);
    law_removing_the_removed_does_nothing(
        ReconcilerView { phase: Phase::Draining, ..done },
        seq![id],
        now,
    );
}

} // verus!
