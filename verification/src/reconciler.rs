//! The reconciler: one cycle removes the channels of containers that are
//! gone, then gives every container its channel and message.
//!
//! The reconciler makes no call itself. It is a state machine: the driving
//! program performs the [`Action`] it is handed and reports what came of it as
//! the next [`Event`]. [`ReconcilerView::step`] says, for every state and
//! event, which state and action follow; [`Reconciler::step`] computes them.

use crate::discord::{now_micros, payload_of, Payload, PayloadView};
use crate::laws::lemma_step_keeps_one_handle_each;
use crate::seqs::{
    lemma_remove_first, lemma_values_add, lemma_values_push, lemma_values_remove,
    lemma_values_update, values,
};
use crate::snapshot::{copy_ids, Workload, WorkloadView};
use vstd::prelude::*;

verus! {

/// The seconds between two cycles, unless told otherwise.
pub const RECONCILE_INTERVAL_SECONDS: u64 = 30;

/// The seconds that the reconciler lets the poller go ahead at the start,
/// unless told otherwise.
pub const WARM_UP_SECONDS: u64 = 5;

/// Why a call against Discord failed.
#[derive(Clone, Copy, Debug, PartialEq, Eq, Structural)]
pub enum SinkError {
    /// Discord could not be reached, or did not answer in time.
    Unavailable,
    /// Too many calls; try again later.
    RateLimited,
    /// The channel or message asked about is gone.
    NotFound,
    /// The credential was refused.
    Unauthorized,
}

impl SinkError {
    /// The error that an answer of Discord with this HTTP status stands for:
    /// 404 says that the channel or message is gone, 401 and 403 that the
    /// credential was refused, 429 that there were too many calls, and every
    /// other status that Discord is of no use for now.
    pub fn from_status(status: u16) -> (e: SinkError)
        ensures
            e == if status == 404 {
                SinkError::NotFound
            } else if status == 401 || status == 403 {
                SinkError::Unauthorized
            } else if status == 429 {
                SinkError::RateLimited
            } else {
                SinkError::Unavailable
            },
    {
        if status == 404 {
            SinkError::NotFound
        } else if status == 401 || status == 403 {
            SinkError::Unauthorized
        } else if status == 429 {
            SinkError::RateLimited
        } else {
            SinkError::Unavailable
        }
    }
}

/// A channel as a channel listing shows it.
#[derive(Debug, PartialEq, Eq)]
pub struct Channel {
    pub id: u64,
    pub name: String,
}

/// The mathematical value of a [`Channel`].
pub ghost struct ChannelView {
    pub id: u64,
    pub name: Seq<char>,
}

impl View for Channel {
    type V = ChannelView;

    open spec fn view(&self) -> ChannelView {
        ChannelView { id: self.id, name: self.name@ }
    }
}

impl DeepView for Channel {
    type V = ChannelView;

    open spec fn deep_view(&self) -> ChannelView {
        self@
    }
}

/// A channel as the listing of a guild's channels shows it.
#[derive(Debug, PartialEq, Eq)]
pub struct GuildChannel {
    pub id: u64,
    /// The channel's name, where it has one.
    pub name: Option<String>,
    /// The category that the channel stands under, where it stands under one.
    pub parent: Option<u64>,
}

/// The mathematical value of a [`GuildChannel`].
pub ghost struct GuildChannelView {
    pub id: u64,
    pub name: Option<Seq<char>>,
    pub parent: Option<u64>,
}

impl View for GuildChannel {
    type V = GuildChannelView;

    open spec fn view(&self) -> GuildChannelView {
        GuildChannelView { id: self.id, name: self.name.deep_view(), parent: self.parent }
    }
}

impl DeepView for GuildChannel {
    type V = GuildChannelView;

    open spec fn deep_view(&self) -> GuildChannelView {
        self@
    }
}

impl GuildChannelView {
    /// The channel stands under `category`.
    pub open spec fn is_in(self, category: u64) -> bool {
        self.parent == Some(category)
    }

    /// The channel as a category's listing shows it. A channel without a
    /// name shows the empty name.
    pub open spec fn listed(self) -> ChannelView {
        ChannelView {
            id: self.id,
            name: match self.name {
                Some(name) => name,
                None => Seq::empty(),
            },
        }
    }
}

/// The channels of a guild that stand under `category`, in the listing's
/// order.
pub open spec fn in_category(listing: Seq<GuildChannelView>, category: u64) -> Seq<ChannelView> {
    listing.filter(|c: GuildChannelView| c.is_in(category)).map_values(
        |c: GuildChannelView| c.listed(),
    )
}

/// A listing with one more channel shows one more channel of the category
/// if that channel stands under it, and the same channels if it does not.
pub proof fn lemma_in_category_push(
    listing: Seq<GuildChannelView>,
    last: GuildChannelView,
    category: u64,
)
    ensures
        in_category(listing.push(last), category) == if last.is_in(category) {
            in_category(listing, category).push(last.listed())
        } else {
            in_category(listing, category)
        },
{
    let under = |c: GuildChannelView| c.is_in(category);
    listing.lemma_filter_push(last, under);
    if last.is_in(category) {
        assert(in_category(listing.push(last), category) =~= in_category(listing, category).push(
            last.listed(),
        ));
    }
}

/// Picks the channels of `category` out of the listing of a guild's
/// channels, in the listing's order.
pub fn channels_in(listing: &Vec<GuildChannel>, category: u64) -> (found: Vec<Channel>)
    ensures
        found.deep_view() == in_category(listing.deep_view(), category),
{
    let mut found: Vec<Channel> = Vec::new();
    let mut i: usize = 0;
    proof {
        reveal(Seq::filter);
        assert(in_category(listing.deep_view().take(0), category) =~= found.deep_view());
    }
    while i < listing.len()
        invariant
            i <= listing.len(),
            found.deep_view() == in_category(listing.deep_view().take(i as int), category),
        decreases listing.len() - i,
    {
        let ghost before = found@;
        proof {
            lemma_in_category_push(
                listing.deep_view().take(i as int),
                listing[i as int]@,
                category,
            );
            assert(listing.deep_view().take(i as int).push(listing[i as int]@)
                =~= listing.deep_view().take(i + 1));
        }
        let under = match listing[i].parent {
            Some(parent) => parent == category,
            None => false,
        };
        if under {
            let name = match &listing[i].name {
                Some(name) => name.clone(),
                None => String::new(),
            };
            let channel = Channel { id: listing[i].id, name };
            let ghost added = channel;
            found.push(channel);
            proof {
                lemma_values_push(before, added);
            }
        }
        i += 1;
    }
    proof {
        assert(listing.deep_view().take(listing.len() as int) =~= listing.deep_view());
    }
    found
}

/// What the reconciler remembers of one container's channel.
#[derive(Debug, PartialEq, Eq)]
pub struct ResourceHandle {
    /// The id of the container that the channel belongs to.
    pub workload_id: String,
    /// The name under which the channel was made, by which a channel listing
    /// finds it again where it does not show the channel's id.
    pub name: String,
    /// The channel's id.
    pub channel: u64,
    /// The message in the channel; `None` until one has been made.
    pub last_message: Option<u64>,
}

/// The mathematical value of a [`ResourceHandle`].
pub ghost struct ResourceHandleView {
    pub workload_id: Seq<char>,
    pub name: Seq<char>,
    pub channel: u64,
    pub last_message: Option<u64>,
}

impl View for ResourceHandle {
    type V = ResourceHandleView;

    open spec fn view(&self) -> ResourceHandleView {
        ResourceHandleView {
            workload_id: self.workload_id@,
            name: self.name@,
            channel: self.channel,
            last_message: self.last_message,
        }
    }
}

impl DeepView for ResourceHandle {
    type V = ResourceHandleView;

    open spec fn deep_view(&self) -> ResourceHandleView {
        self@
    }
}

impl Clone for ResourceHandle {
    fn clone(&self) -> (copy: Self)
        ensures
            copy@ == self@,
    {
        ResourceHandle {
            workload_id: self.workload_id.clone(),
            name: self.name.clone(),
            channel: self.channel,
            last_message: self.last_message,
        }
    }
}

/// Where in its cycle the reconciler stands.
#[derive(Clone, Copy, Debug, PartialEq, Eq, Structural)]
pub enum Phase {
    /// Between cycles, waiting to be woken.
    Idle,
    /// Waiting for the snapshot's pending removals.
    Draining,
    /// Waiting for the channel listing, to remove the first id in the queue.
    Listing,
    /// Waiting for the channel of the first id in the queue to be deleted.
    Deleting,
    /// Waiting for a copy of the snapshot's workloads.
    Reading,
    /// Waiting for the channel of the current workload to be made.
    CreatingChannel,
    /// Waiting for the message of the current workload to be made.
    CreatingMessage,
    /// Waiting for the message of the current workload to be updated.
    Updating,
}

/// What the driving program reports to the reconciler.
#[derive(Debug, PartialEq, Eq)]
pub enum Event {
    /// The pause is over.
    Wake,
    /// The pending removals, drained from the snapshot under its lock.
    Removals(Vec<String>),
    /// The channels of the category, or why there is no listing.
    Channels(Result<Vec<Channel>, SinkError>),
    /// The channel has been deleted, or why it has not.
    ChannelDeleted(Result<(), SinkError>),
    /// A copy of the snapshot's workloads, taken under its lock.
    Workloads(Vec<Workload>),
    /// The channel made, or why there is none.
    ChannelCreated(Result<u64, SinkError>),
    /// The message made, or why there is none.
    MessageCreated(Result<u64, SinkError>),
    /// The message has been updated, or why it has not.
    MessageUpdated(Result<(), SinkError>),
}

/// The mathematical value of an [`Event`].
pub ghost enum EventView {
    Wake,
    Removals(Seq<Seq<char>>),
    Channels(Result<Seq<ChannelView>, SinkError>),
    ChannelDeleted(Result<(), SinkError>),
    Workloads(Seq<WorkloadView>),
    ChannelCreated(Result<u64, SinkError>),
    MessageCreated(Result<u64, SinkError>),
    MessageUpdated(Result<(), SinkError>),
}

impl View for Event {
    type V = EventView;

    open spec fn view(&self) -> EventView {
        match *self {
            Event::Wake => EventView::Wake,
            Event::Removals(ids) => EventView::Removals(ids.deep_view()),
            Event::Channels(Ok(channels)) => EventView::Channels(Ok(channels.deep_view())),
            Event::Channels(Err(e)) => EventView::Channels(Err(e)),
            Event::ChannelDeleted(outcome) => EventView::ChannelDeleted(outcome),
            Event::Workloads(workloads) => EventView::Workloads(workloads.deep_view()),
            Event::ChannelCreated(outcome) => EventView::ChannelCreated(outcome),
            Event::MessageCreated(outcome) => EventView::MessageCreated(outcome),
            Event::MessageUpdated(outcome) => EventView::MessageUpdated(outcome),
        }
    }
}

/// What the reconciler asks the driving program to do next.
#[derive(Debug, PartialEq, Eq)]
pub enum Action {
    /// Drain the snapshot's pending removals, under its lock.
    DrainRemovals,
    /// List the channels of the category.
    ListChannels { category: u64 },
    /// Delete the channel.
    DeleteChannel { channel: u64 },
    /// Copy the snapshot's workloads, under its lock.
    ReadWorkloads,
    /// Make a channel of this name in the category.
    CreateChannel { guild: u64, category: u64, name: String },
    /// Make a message in the channel.
    CreateMessage { channel: u64, payload: Payload },
    /// Replace what the message holds.
    UpdateMessage { channel: u64, message: u64, payload: Payload },
    /// Pause for `seconds`. `failure` says why the cycle was given up, if it
    /// was.
    Sleep { seconds: u64, failure: Option<SinkError> },
}

/// The mathematical value of an [`Action`].
pub ghost enum ActionView {
    DrainRemovals,
    ListChannels { category: u64 },
    DeleteChannel { channel: u64 },
    ReadWorkloads,
    CreateChannel { guild: u64, category: u64, name: Seq<char> },
    CreateMessage { channel: u64, payload: PayloadView },
    UpdateMessage { channel: u64, message: u64, payload: PayloadView },
    Sleep { seconds: u64, failure: Option<SinkError> },
}

impl View for Action {
    type V = ActionView;

    open spec fn view(&self) -> ActionView {
        match *self {
            Action::DrainRemovals => ActionView::DrainRemovals,
            Action::ListChannels { category } => ActionView::ListChannels { category },
            Action::DeleteChannel { channel } => ActionView::DeleteChannel { channel },
            Action::ReadWorkloads => ActionView::ReadWorkloads,
            Action::CreateChannel { guild, category, name } => ActionView::CreateChannel {
                guild,
                category,
                name: name@,
            },
            Action::CreateMessage { channel, payload } => ActionView::CreateMessage {
                channel,
                payload: payload@,
            },
            Action::UpdateMessage { channel, message, payload } => ActionView::UpdateMessage {
                channel,
                message,
                payload: payload@,
            },
            Action::Sleep { seconds, failure } => ActionView::Sleep { seconds, failure },
        }
    }
}

/// The ids of a sequence of handles, in order.
pub open spec fn handle_ids(handles: Seq<ResourceHandleView>) -> Seq<Seq<char>> {
    handles.map_values(|h: ResourceHandleView| h.workload_id)
}

/// `i` is the place of the first handle for the container `id`.
pub open spec fn first_with_id(handles: Seq<ResourceHandleView>, id: Seq<char>, i: int) -> bool {
    &&& 0 <= i < handles.len()
    &&& handles[i].workload_id == id
    &&& forall|j: int| 0 <= j < i ==> handles[j].workload_id != id
}

/// The place of the first handle for the container `id`, if there is one.
pub open spec fn slot_of(handles: Seq<ResourceHandleView>, id: Seq<char>) -> Option<int> {
    if exists|i: int| first_with_id(handles, id, i) {
        Some(choose|i: int| first_with_id(handles, id, i))
    } else {
        None
    }
}

/// The handles without the first one for the container `id`.
pub open spec fn without(handles: Seq<ResourceHandleView>, id: Seq<char>) -> Seq<
    ResourceHandleView,
> {
    match slot_of(handles, id) {
        Some(i) => handles.remove(i),
        None => handles,
    }
}

/// `i` is the place of the first channel named `name`.
pub open spec fn first_named(channels: Seq<ChannelView>, name: Seq<char>, i: int) -> bool {
    &&& 0 <= i < channels.len()
    &&& channels[i].name == name
    &&& forall|j: int| 0 <= j < i ==> channels[j].name != name
}

/// The first channel named `name`, if there is one.
pub open spec fn matching_channel(channels: Seq<ChannelView>, name: Seq<char>) -> Option<
    ChannelView,
> {
    if exists|i: int| first_named(channels, name, i) {
        Some(channels[choose|i: int| first_named(channels, name, i)])
    } else {
        None
    }
}

/// The listing shows a channel with the id `channel`.
pub open spec fn lists(channels: Seq<ChannelView>, channel: u64) -> bool {
    exists|i: int| 0 <= i < channels.len() && (#[trigger] channels[i]).id == channel
}

/// The channel that a listing shows for a handle, by its id: the handle's
/// own channel where the listing shows it, and else the first channel that
/// has the handle's name, if there is one.
pub open spec fn channel_of(channels: Seq<ChannelView>, handle: ResourceHandleView) -> Option<
    u64,
> {
    if lists(channels, handle.channel) {
        Some(handle.channel)
    } else {
        match matching_channel(channels, handle.name) {
            Some(channel) => Some(channel.id),
            None => None,
        }
    }
}

/// There is one first place: where `i` is it, `slot_of` gives `i`.
pub proof fn lemma_slot_found(handles: Seq<ResourceHandleView>, id: Seq<char>, i: int)
    requires
        first_with_id(handles, id, i),
    ensures
        slot_of(handles, id) == Some(i),
{
    let k = choose|k: int| first_with_id(handles, id, k);
    if k < i {
        assert(handles[k].workload_id != id);
    }
    if i < k {
        assert(handles[i].workload_id != id);
    }
}

/// Where no handle has the id, `slot_of` gives nothing; where `slot_of`
/// gives a place, it is the first place with the id.
pub proof fn lemma_slot_of(handles: Seq<ResourceHandleView>, id: Seq<char>)
    ensures
        slot_of(handles, id) is None <==> !handle_ids(handles).contains(id),
        slot_of(handles, id) matches Some(i) ==> first_with_id(handles, id, i),
{
    if handle_ids(handles).contains(id) {
        let j = choose|j: int| 0 <= j < handle_ids(handles).len() && handle_ids(handles)[j] == id;
        lemma_some_first(handles, id, j);
    }
    if slot_of(handles, id) is Some {
        let i = slot_of(handles, id)->0;
        assert(first_with_id(handles, id, i));
        assert(handle_ids(handles)[i] == id);
    }
}

/// Where some handle up to place `j` has the id, there is a first one.
proof fn lemma_some_first(handles: Seq<ResourceHandleView>, id: Seq<char>, j: int)
    requires
        0 <= j < handles.len(),
        handles[j].workload_id == id,
    ensures
        exists|i: int| first_with_id(handles, id, i),
    decreases j,
{
    if forall|k: int| 0 <= k < j ==> handles[k].workload_id != id {
        assert(first_with_id(handles, id, j));
    } else {
        let k = choose|k: int| 0 <= k < j && handles[k].workload_id == id;
        lemma_some_first(handles, id, k);
    }
}

/// There is one first channel of a name: where `i` is its place,
/// `matching_channel` gives the channel there.
pub proof fn lemma_channel_found(channels: Seq<ChannelView>, name: Seq<char>, i: int)
    requires
        first_named(channels, name, i),
    ensures
        matching_channel(channels, name) == Some(channels[i]),
{
    let k = choose|k: int| first_named(channels, name, k);
    if k < i {
        assert(channels[k].name != name);
    }
    if i < k {
        assert(channels[i].name != name);
    }
}

/// The mathematical value of a [`Reconciler`].
pub ghost struct ReconcilerView {
    /// The guild in which channels are made.
    pub guild: u64,
    /// The category under which channels are made and looked for.
    pub category: u64,
    /// The seconds between two cycles.
    pub interval: u64,
    /// The seconds before the first cycle.
    pub warm_up: u64,
    pub phase: Phase,
    /// One handle for each container that has a channel.
    pub handles: Seq<ResourceHandleView>,
    /// The ids whose channels are still to be removed, oldest first.
    pub removals: Seq<Seq<char>>,
    /// The workloads of this cycle.
    pub workloads: Seq<WorkloadView>,
    /// The place of the workload in hand.
    pub next: nat,
}

impl ReconcilerView {
    /// No two handles are for the same container.
    pub open spec fn wf(self) -> bool {
        handle_ids(self.handles).no_duplicates()
    }

    /// Ends the cycle: the workloads are dropped and the reconciler pauses.
    /// Handles and queue stay.
    pub open spec fn sleep(self, failure: Option<SinkError>) -> (ReconcilerView, ActionView) {
        (
            ReconcilerView { phase: Phase::Idle, workloads: Seq::empty(), next: 0, ..self },
            ActionView::Sleep { seconds: self.interval, failure },
        )
    }

    /// Turns to the first id in the queue that has a handle and asks for the
    /// channel listing; an id without a handle leaves the queue with nothing
    /// done. With the queue empty, asks for the workloads.
    pub open spec fn remove_next(self) -> (ReconcilerView, ActionView)
        decreases self.removals.len(),
    {
        if self.removals.len() == 0 {
            (ReconcilerView { phase: Phase::Reading, ..self }, ActionView::ReadWorkloads)
        } else if slot_of(self.handles, self.removals[0]) is Some {
            (
                ReconcilerView { phase: Phase::Listing, ..self },
                ActionView::ListChannels { category: self.category },
            )
        } else {
            ReconcilerView { removals: self.removals.drop_first(), ..self }.remove_next()
        }
    }

    /// Drops the handle of the first id in the queue, and the id from the
    /// queue.
    pub open spec fn forget_head(self) -> ReconcilerView {
        if self.removals.len() == 0 {
            self
        } else {
            ReconcilerView {
                handles: without(self.handles, self.removals[0]),
                removals: self.removals.drop_first(),
                ..self
            }
        }
    }

    /// With the channel listing in hand: asks for the handle's channel to be
    /// deleted, or, where the listing does not show it, for the first channel
    /// that has the handle's name. Where the listing shows neither, there is
    /// nothing to delete: the handle is dropped and the queue goes on.
    pub open spec fn after_listing(self, channels: Seq<ChannelView>) -> (
        ReconcilerView,
        ActionView,
    ) {
        if self.removals.len() == 0 {
            self.remove_next()
        } else {
            match slot_of(self.handles, self.removals[0]) {
                None => self.remove_next(),
                Some(i) => match channel_of(channels, self.handles[i]) {
                    Some(channel) => (
                        ReconcilerView { phase: Phase::Deleting, ..self },
                        ActionView::DeleteChannel { channel },
                    ),
                    None => self.forget_head().remove_next(),
                },
            }
        }
    }

    /// Turns to the workload in hand: without a handle it gets a channel,
    /// with a handle but no message a message, and with both its message is
    /// updated. With no workload left the cycle ends.
    pub open spec fn sync_next(self, now: i64) -> (ReconcilerView, ActionView) {
        if self.next >= self.workloads.len() {
            self.sleep(None)
        } else {
            let workload = self.workloads[self.next as int];
            let payload = payload_of(workload.container, workload.log_tail, now);
            match slot_of(self.handles, workload.container.id) {
                None => (
                    ReconcilerView { phase: Phase::CreatingChannel, ..self },
                    ActionView::CreateChannel {
                        guild: self.guild,
                        category: self.category,
                        name: workload.container.name,
                    },
                ),
                Some(i) => match self.handles[i].last_message {
                    None => (
                        ReconcilerView { phase: Phase::CreatingMessage, ..self },
                        ActionView::CreateMessage { channel: self.handles[i].channel, payload },
                    ),
                    Some(message) => (
                        ReconcilerView { phase: Phase::Updating, ..self },
                        ActionView::UpdateMessage {
                            channel: self.handles[i].channel,
                            message,
                            payload,
                        },
                    ),
                },
            }
        }
    }

    /// Records the channel made for the workload in hand: a new handle,
    /// still without a message. A workload that has a handle gets no second
    /// one.
    pub open spec fn record_channel(self, channel: u64) -> ReconcilerView {
        if self.next < self.workloads.len() && slot_of(
            self.handles,
            self.workloads[self.next as int].container.id,
        ) is None {
            ReconcilerView {
                handles: self.handles.push(
                    ResourceHandleView {
                        workload_id: self.workloads[self.next as int].container.id,
                        name: self.workloads[self.next as int].container.name,
                        channel,
                        last_message: None,
                    },
                ),
                ..self
            }
        } else {
            self
        }
    }

    /// Records the message made for the workload in hand in its handle, and
    /// moves on to the next workload.
    pub open spec fn record_message(self, message: u64) -> ReconcilerView {
        if self.next < self.workloads.len() {
            match slot_of(self.handles, self.workloads[self.next as int].container.id) {
                Some(i) => ReconcilerView {
                    handles: self.handles.update(
                        i,
                        ResourceHandleView { last_message: Some(message), ..self.handles[i] },
                    ),
                    next: self.next + 1,
                    ..self
                },
                None => ReconcilerView { next: self.next + 1, ..self },
            }
        } else {
            self
        }
    }

    /// Gives the cycle up after a call for the workload in hand failed. The
    /// handles stay as they are, but for one case: where the channel or the
    /// message is gone, the workload's handle is stale and is dropped, so
    /// that the next cycle makes the channel anew.
    pub open spec fn after_failure(self, e: SinkError) -> (ReconcilerView, ActionView) {
        if e == SinkError::NotFound && self.next < self.workloads.len() {
            ReconcilerView {
                handles: without(self.handles, self.workloads[self.next as int].container.id),
                ..self
            }.sleep(Some(e))
        } else {
            self.sleep(Some(e))
        }
    }

    /// The reconciler's next state and action, given its state, an event and
    /// the time (in microseconds since the Unix epoch) with which messages
    /// are stamped.
    ///
    /// Within a cycle the removals come first. A call that failed ends the
    /// cycle; what is left of it waits for the next one. An event that
    /// answers nothing the reconciler asked ends the cycle too.
    pub open spec fn step(self, event: EventView, now: i64) -> (ReconcilerView, ActionView) {
        match (self.phase, event) {
            (Phase::Idle, EventView::Wake) => (
                ReconcilerView { phase: Phase::Draining, ..self },
                ActionView::DrainRemovals,
            ),
            (Phase::Draining, EventView::Removals(ids)) => ReconcilerView {
                removals: self.removals + ids,
                ..self
            }.remove_next(),
            (Phase::Listing, EventView::Channels(Ok(channels))) => self.after_listing(channels),
            (Phase::Listing, EventView::Channels(Err(e))) => self.sleep(Some(e)),
            (Phase::Deleting, EventView::ChannelDeleted(Ok(_))) => self.forget_head().remove_next(),
            (Phase::Deleting, EventView::ChannelDeleted(Err(e))) => {
                if e == SinkError::NotFound {
                    self.forget_head().sleep(Some(e))
                } else {
                    self.sleep(Some(e))
                }
            },
            (Phase::Reading, EventView::Workloads(workloads)) => ReconcilerView {
                workloads,
                next: 0,
                ..self
            }.sync_next(now),
            (Phase::CreatingChannel, EventView::ChannelCreated(Ok(channel))) => self.record_channel(
                channel,
            ).sync_next(now),
            (Phase::CreatingChannel, EventView::ChannelCreated(Err(e))) => self.sleep(Some(e)),
            (Phase::CreatingMessage, EventView::MessageCreated(Ok(message))) => self.record_message(
                message,
            ).sync_next(now),
            (Phase::CreatingMessage, EventView::MessageCreated(Err(e))) => self.after_failure(e),
            (Phase::Updating, EventView::MessageUpdated(Ok(_))) => ReconcilerView {
                next: self.next + 1,
                ..self
            }.sync_next(now),
            (Phase::Updating, EventView::MessageUpdated(Err(e))) => self.after_failure(e),
            _ => self.sleep(None),
        }
    }

    /// `after` and `action` are what follows this state on `event` at the
    /// time `now`.
    pub open spec fn steps_to(
        self,
        event: EventView,
        now: i64,
        after: ReconcilerView,
        action: ActionView,
    ) -> bool {
        self.step(event, now) == (after, action)
    }
}

/// The place of the first handle for the container `id`, if there is one.
fn find_handle(handles: &Vec<ResourceHandle>, id: &String) -> (found: Option<usize>)
    ensures
        match found {
            Some(i) => slot_of(handles.deep_view(), id@) == Some(i as int),
            None => slot_of(handles.deep_view(), id@) is None,
        },
{
    let mut i: usize = 0;
    while i < handles.len()
        invariant
            i <= handles.len(),
            forall|j: int| 0 <= j < i ==> handles.deep_view()[j].workload_id != id@,
        decreases handles.len() - i,
    {
        if handles[i].workload_id == *id {
            proof {
                assert(handles.deep_view()[i as int].workload_id == id@);
                lemma_slot_found(handles.deep_view(), id@, i as int);
            }
            return Some(i);
        }
        i += 1;
    }
    None
}

/// The channel that the listing shows for `handle`, by its id.
fn find_channel(channels: &Vec<Channel>, handle: &ResourceHandle) -> (found: Option<u64>)
    ensures
        found == channel_of(channels.deep_view(), handle@),
{
    let mut k: usize = 0;
    while k < channels.len()
        invariant
            k <= channels.len(),
            forall|j: int| 0 <= j < k ==> (#[trigger] channels.deep_view()[j]).id != handle.channel,
        decreases channels.len() - k,
    {
        if channels[k].id == handle.channel {
            proof {
                assert(channels.deep_view()[k as int].id == handle.channel);
            }
            return Some(handle.channel);
        }
        k += 1;
    }
    let mut i: usize = 0;
    while i < channels.len()
        invariant
            i <= channels.len(),
            !lists(channels.deep_view(), handle@.channel),
            forall|j: int| 0 <= j < i ==> channels.deep_view()[j].name != handle.name@,
        decreases channels.len() - i,
    {
        if channels[i].name == handle.name {
            proof {
                assert(channels.deep_view()[i as int].name == handle.name@);
                lemma_channel_found(channels.deep_view(), handle.name@, i as int);
            }
            return Some(channels[i].id);
        }
        i += 1;
    }
    None
}

/// The state of the reconciling loop: the handles it owns, the removals it
/// still owes, and where in its cycle it stands.
#[derive(Debug)]
pub struct Reconciler {
    guild: u64,
    category: u64,
    interval: u64,
    warm_up: u64,
    phase: Phase,
    handles: Vec<ResourceHandle>,
    removals: Vec<String>,
    workloads: Vec<Workload>,
    next: usize,
}

impl View for Reconciler {
    type V = ReconcilerView;

    closed spec fn view(&self) -> ReconcilerView {
        ReconcilerView {
            guild: self.guild,
            category: self.category,
            interval: self.interval,
            warm_up: self.warm_up,
            phase: self.phase,
            handles: self.handles.deep_view(),
            removals: self.removals.deep_view(),
            workloads: self.workloads.deep_view(),
            next: self.next as nat,
        }
    }
}

impl Reconciler {
    /// A reconciler between cycles, with no handles and nothing to remove.
    /// It makes channels in `guild` under `category`, pauses `interval`
    /// seconds between cycles and `warm_up` seconds before the first.
    ///
    /// It knows of no channel made before it: handles are kept in memory
    /// only, so a reconciler that starts where channels of an earlier run
    /// still stand makes a second channel for each container.
    pub fn new(guild: u64, category: u64, interval: u64, warm_up: u64) -> (reconciler: Reconciler)
        ensures
            reconciler@ == (ReconcilerView {
                guild,
                category,
                interval,
                warm_up,
                phase: Phase::Idle,
                handles: Seq::empty(),
                removals: Seq::empty(),
                workloads: Seq::empty(),
                next: 0,
            }),
            reconciler@.wf(),
    {
        let reconciler = Reconciler {
            guild,
            category,
            interval,
            warm_up,
            phase: Phase::Idle,
            handles: Vec::new(),
            removals: Vec::new(),
            workloads: Vec::new(),
            next: 0,
        };
        proof {
            assert(reconciler@.handles =~= Seq::empty());
            assert(reconciler@.removals =~= Seq::empty());
            assert(reconciler@.workloads =~= Seq::empty());
        }
        reconciler
    }

    /// The pause before the first cycle, which lets the poller fill the
    /// snapshot first.
    pub fn start(&self) -> (action: Action)
        ensures
            action@ == (ActionView::Sleep { seconds: self@.warm_up, failure: None }),
    {
        Action::Sleep { seconds: self.warm_up, failure: None }
    }

    /// Where in its cycle the reconciler stands.
    pub fn phase(&self) -> (phase: Phase)
        ensures
            phase == self@.phase,
    {
        self.phase
    }

    /// A copy of the handles, oldest first.
    pub fn handles(&self) -> (copy: Vec<ResourceHandle>)
        ensures
            copy.deep_view() == self@.handles,
    {
        let mut copy: Vec<ResourceHandle> = Vec::new();
        let mut i: usize = 0;
        while i < self.handles.len()
            invariant
                i <= self.handles.len(),
                copy.deep_view() == self.handles.deep_view().take(i as int),
            decreases self.handles.len() - i,
        {
            let ghost before = copy@;
            let handle = self.handles[i].clone();
            let ghost added = handle;
            copy.push(handle);
            i += 1;
            proof {
                lemma_values_push(before, added);
                assert(copy.deep_view() =~= self.handles.deep_view().take(i as int));
            }
        }
        proof {
            assert(self.handles.deep_view().take(self.handles.len() as int)
                =~= self.handles.deep_view());
        }
        copy
    }

    /// A copy of the ids whose channels are still to be removed, oldest
    /// first.
    pub fn removals(&self) -> (copy: Vec<String>)
        ensures
            copy.deep_view() == self@.removals,
    {
        copy_ids(&self.removals)
    }

    /// Ends the cycle and pauses.
    fn sleep(&mut self, failure: Option<SinkError>) -> (action: Action)
        ensures
            (final(self)@, action@) == old(self)@.sleep(failure),
    {
        self.phase = Phase::Idle;
        self.workloads = Vec::new();
        self.next = 0;
        proof {
            assert(self@.workloads =~= Seq::empty());
        }
        Action::Sleep { seconds: self.interval, failure }
    }

    /// Turns to the next id in the queue that has a handle.
    fn remove_next(&mut self) -> (action: Action)
        ensures
            (final(self)@, action@) == old(self)@.remove_next(),
    {
        loop
            invariant
                self@.remove_next() == old(self)@.remove_next(),
            decreases self.removals.len(),
        {
            if self.removals.len() == 0 {
                self.phase = Phase::Reading;
                return Action::ReadWorkloads;
            }
            if find_handle(&self.handles, &self.removals[0]).is_some() {
                self.phase = Phase::Listing;
                return Action::ListChannels { category: self.category };
            }
            let ghost before = self.removals@;
            self.removals.remove(0);
            proof {
                lemma_values_remove(before, 0);
                lemma_remove_first(values(before));
            }
        }
    }

    /// Drops the first handle for the container `id`, if there is one.
    fn forget(&mut self, id: &String)
        ensures
            final(self)@ == (ReconcilerView {
                handles: without(old(self)@.handles, id@),
                ..old(self)@
            }),
    {
        match find_handle(&self.handles, id) {
            Some(i) => {
                let ghost before = self.handles@;
                self.handles.remove(i);
                proof {
                    lemma_values_remove(before, i as int);
                }
            },
            None => {},
        }
    }

    /// Drops the handle of the first id in the queue, and the id from the
    /// queue.
    fn forget_head(&mut self)
        ensures
            final(self)@ == old(self)@.forget_head(),
    {
        if self.removals.len() > 0 {
            let ghost before = self.removals@;
            let id = self.removals.remove(0);
            proof {
                lemma_values_remove(before, 0);
                lemma_remove_first(values(before));
            }
            self.forget(&id);
        }
    }

    /// Asks for the channel of the first id in the queue to be deleted, or
    /// goes on where there is none.
    fn after_listing(&mut self, channels: &Vec<Channel>) -> (action: Action)
        ensures
            (final(self)@, action@) == old(self)@.after_listing(channels.deep_view()),
    {
        if self.removals.len() == 0 {
            return self.remove_next();
        }
        match find_handle(&self.handles, &self.removals[0]) {
            None => self.remove_next(),
            Some(i) => match find_channel(channels, &self.handles[i]) {
                Some(channel) => {
                    self.phase = Phase::Deleting;
                    Action::DeleteChannel { channel }
                },
                None => {
                    self.forget_head();
                    self.remove_next()
                },
            },
        }
    }

    /// Turns to the workload in hand.
    fn sync_next(&mut self, now: i64) -> (action: Action)
        ensures
            (final(self)@, action@) == old(self)@.sync_next(now),
    {
        if self.next >= self.workloads.len() {
            return self.sleep(None);
        }
        let workload = &self.workloads[self.next];
        match find_handle(&self.handles, &workload.container.id) {
            None => {
                let name = workload.container.name.clone();
                self.phase = Phase::CreatingChannel;
                Action::CreateChannel { guild: self.guild, category: self.category, name }
            },
            Some(i) => {
                let payload = crate::discord::format(
                    &workload.container,
                    workload.log_tail.as_slice(),
                    now,
                );
                let channel: u64 = self.handles[i].channel;
                match self.handles[i].last_message {
                    None => {
                        self.phase = Phase::CreatingMessage;
                        Action::CreateMessage { channel, payload }
                    },
                    Some(message) => {
                        self.phase = Phase::Updating;
                        Action::UpdateMessage { channel, message, payload }
                    },
                }
            },
        }
    }

    /// Records the channel made for the workload in hand.
    fn record_channel(&mut self, channel: u64)
        ensures
            final(self)@ == old(self)@.record_channel(channel),
    {
        if self.next < self.workloads.len() {
            let workload = &self.workloads[self.next];
            if find_handle(&self.handles, &workload.container.id).is_none() {
                let ghost before = self.handles@;
                let handle = ResourceHandle {
                    workload_id: workload.container.id.clone(),
                    name: workload.container.name.clone(),
                    channel,
                    last_message: None,
                };
                let ghost added = handle;
                self.handles.push(handle);
                proof {
                    lemma_values_push(before, added);
                }
            }
        }
    }

    /// Records the message made for the workload in hand and moves on.
    fn record_message(&mut self, message: u64)
        ensures
            final(self)@ == old(self)@.record_message(message),
    {
        if self.next < self.workloads.len() {
            match find_handle(&self.handles, &self.workloads[self.next].container.id) {
                Some(i) => {
                    let ghost before = self.handles@;
                    let mut handle = self.handles[i].clone();
                    handle.last_message = Some(message);
                    let ghost changed = handle;
                    self.handles.set(i, handle);
                    proof {
                        lemma_values_update(before, i as int, changed);
                    }
                },
                None => {},
            }
            self.next = self.next + 1;
        }
    }

    /// Gives the cycle up after a call for the workload in hand failed.
    fn after_failure(&mut self, e: SinkError) -> (action: Action)
        ensures
            (final(self)@, action@) == old(self)@.after_failure(e),
    {
        if e == SinkError::NotFound && self.next < self.workloads.len() {
            let id = self.workloads[self.next].container.id.clone();
            self.forget(&id);
        }
        self.sleep(Some(e))
    }

    /// Takes the outcome of the last action and says what to do next.
    /// Messages made or updated in this step are stamped with `now`, in
    /// microseconds since the Unix epoch.
    pub fn step(&mut self, event: Event, now: i64) -> (action: Action)
        ensures
            (final(self)@, action@) == old(self)@.step(event@, now),
            old(self)@.wf() ==> final(self)@.wf(),
    {
        proof {
            if old(self)@.wf() {
                lemma_step_keeps_one_handle_each(old(self)@, event@, now);
            }
        }
        match (self.phase, event) {
            (Phase::Idle, Event::Wake) => {
                self.phase = Phase::Draining;
                Action::DrainRemovals
            },
            (Phase::Draining, Event::Removals(ids)) => {
                let ghost before = self.removals@;
                let ghost added = ids@;
                let mut ids = ids;
                self.removals.append(&mut ids);
                proof {
                    lemma_values_add(before, added);
                }
                self.remove_next()
            },
            (Phase::Listing, Event::Channels(Ok(channels))) => self.after_listing(&channels),
            (Phase::Listing, Event::Channels(Err(e))) => self.sleep(Some(e)),
            (Phase::Deleting, Event::ChannelDeleted(Ok(_))) => {
                self.forget_head();
                self.remove_next()
            },
            (Phase::Deleting, Event::ChannelDeleted(Err(e))) => {
                if e == SinkError::NotFound {
                    self.forget_head();
                }
                self.sleep(Some(e))
            },
            (Phase::Reading, Event::Workloads(workloads)) => {
                self.workloads = workloads;
                self.next = 0;
                self.sync_next(now)
            },
            (Phase::CreatingChannel, Event::ChannelCreated(Ok(channel))) => {
                self.record_channel(channel);
                self.sync_next(now)
            },
            (Phase::CreatingChannel, Event::ChannelCreated(Err(e))) => self.sleep(Some(e)),
            (Phase::CreatingMessage, Event::MessageCreated(Ok(message))) => {
                self.record_message(message);
                self.sync_next(now)
            },
            (Phase::CreatingMessage, Event::MessageCreated(Err(e))) => self.after_failure(e),
            (Phase::Updating, Event::MessageUpdated(Ok(_))) => {
                if self.next < self.workloads.len() {
                    self.next = self.next + 1;
                    self.sync_next(now)
                } else {
                    self.sleep(None)
                }
            },
            (Phase::Updating, Event::MessageUpdated(Err(e))) => self.after_failure(e),
            _ => self.sleep(None),
        }
    }

    /// Takes the outcome of the last action and says what to do next, with
    /// the time read from the clock. Whatever the clock says, the result is
    /// that of [`Reconciler::step`] for the instant read.
    pub fn run(&mut self, event: Event) -> (action: Action)
        ensures
            exists|now: i64| old(self)@.steps_to(event@, now, final(self)@, action@),
            old(self)@.wf() ==> final(self)@.wf(),
    {
        let now: i64 = now_micros();
        let action = self.step(event, now);
        proof {
            assert(old(self)@.steps_to(event@, now, self@, action@));
        }
        action
    }
}

} // verus!
