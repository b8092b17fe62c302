//! The poller: one cycle lists the containers, fetches the log tail of each
//! and publishes the lot.
//!
//! The poller makes no call itself. It is a state machine: the driving
//! program performs the [`PollAction`] it is handed and reports what came of
//! it as the next [`PollEvent`].

use crate::docker::{
    containers, listed, Container, ContainerSummary, ContainerSummaryView, ContainerView,
    LogOutput, LogOutputView, SourceError,
};
use crate::seqs::lemma_values_push;
use crate::snapshot::{Workload, WorkloadView};
use vstd::prelude::*;

verus! {

/// The seconds between two cycles, unless told otherwise.
pub const POLL_INTERVAL_SECONDS: u64 = 30;

/// The lines of log output asked for, unless told otherwise.
pub const LOG_TAIL: u64 = 40;

/// Where in its cycle the poller stands.
#[derive(Clone, Copy, Debug, PartialEq, Eq, Structural)]
pub enum PollPhase {
    /// Between cycles, waiting to be woken.
    Idle,
    /// Waiting for the container listing.
    Listing,
    /// Waiting for the log tail of the next container.
    Fetching,
    /// Waiting for the workloads to be installed in the snapshot.
    Publishing,
}

/// What the driving program reports to the poller.
#[derive(Debug, PartialEq, Eq)]
pub enum PollEvent {
    /// The pause is over, or the program has just started.
    Wake,
    /// The container listing, or why there is none.
    Listed(Result<Vec<ContainerSummary>, SourceError>),
    /// The log output collected for the container asked about.
    Logs(Vec<LogOutput>),
    /// The workloads have been installed in the snapshot.
    Published,
}

/// The mathematical value of a [`PollEvent`].
pub ghost enum PollEventView {
    Wake,
    Listed(Result<Seq<ContainerSummaryView>, SourceError>),
    Logs(Seq<LogOutputView>),
    Published,
}

impl View for PollEvent {
    type V = PollEventView;

    open spec fn view(&self) -> PollEventView {
        match *self {
            PollEvent::Wake => PollEventView::Wake,
            PollEvent::Listed(Ok(records)) => PollEventView::Listed(Ok(records.deep_view())),
            PollEvent::Listed(Err(e)) => PollEventView::Listed(Err(e)),
            PollEvent::Logs(frames) => PollEventView::Logs(frames.deep_view()),
            PollEvent::Published => PollEventView::Published,
        }
    }
}

/// What the poller asks the driving program to do next.
#[derive(Debug, PartialEq, Eq)]
pub enum PollAction {
    /// List all containers, the stopped ones too.
    ListWorkloads,
    /// Fetch the last `tail` lines of the log output of container `id`.
    FetchLogs { id: String, tail: u64 },
    /// Install these workloads in the snapshot, under its lock.
    Publish(Vec<Workload>),
    /// Pause for `seconds`. `failure` says why the cycle was given up, if it
    /// was.
    Sleep { seconds: u64, failure: Option<SourceError> },
}

/// The mathematical value of a [`PollAction`].
pub ghost enum PollActionView {
    ListWorkloads,
    FetchLogs { id: Seq<char>, tail: u64 },
    Publish(Seq<WorkloadView>),
    Sleep { seconds: u64, failure: Option<SourceError> },
}

impl View for PollAction {
    type V = PollActionView;

    open spec fn view(&self) -> PollActionView {
        match *self {
            PollAction::ListWorkloads => PollActionView::ListWorkloads,
            PollAction::FetchLogs { id, tail } => PollActionView::FetchLogs { id: id@, tail },
            PollAction::Publish(workloads) => PollActionView::Publish(workloads.deep_view()),
            PollAction::Sleep { seconds, failure } => PollActionView::Sleep { seconds, failure },
        }
    }
}

/// The mathematical value of a [`Poller`].
pub ghost struct PollerView {
    /// The seconds between two cycles.
    pub interval: u64,
    /// The lines of log output asked for.
    pub tail: u64,
    pub phase: PollPhase,
    /// The containers of this cycle's listing.
    pub containers: Seq<ContainerView>,
    /// The workloads put together so far: one for each of the first
    /// containers.
    pub workloads: Seq<WorkloadView>,
}

impl PollerView {
    /// Ends the cycle: everything gathered is dropped and the poller pauses.
    pub open spec fn sleep(self, failure: Option<SourceError>) -> (PollerView, PollActionView) {
        (
            PollerView {
                phase: PollPhase::Idle,
                containers: Seq::empty(),
                workloads: Seq::empty(),
                ..self
            },
            PollActionView::Sleep { seconds: self.interval, failure },
        )
    }

    /// Goes on with the container that has no workload yet, or, where every
    /// container has one, hands the workloads over.
    pub open spec fn proceed(self) -> (PollerView, PollActionView) {
        if self.workloads.len() < self.containers.len() {
            (
                PollerView { phase: PollPhase::Fetching, ..self },
                PollActionView::FetchLogs {
                    id: self.containers[self.workloads.len() as int].id,
                    tail: self.tail,
                },
            )
        } else {
            (
                PollerView {
                    phase: PollPhase::Publishing,
                    containers: Seq::empty(),
                    workloads: Seq::empty(),
                    ..self
                },
                PollActionView::Publish(self.workloads),
            )
        }
    }

    /// The poller's next state and action, given its state and an event.
    ///
    /// A listing that failed ends the cycle with nothing published, so the
    /// snapshot stays as it was. A record with a missing field is no
    /// container of the cycle. An event that answers nothing the poller asked
    /// ends the cycle too.
    pub open spec fn step(self, event: PollEventView) -> (PollerView, PollActionView) {
        match (self.phase, event) {
            (PollPhase::Idle, PollEventView::Wake) => (
                PollerView { phase: PollPhase::Listing, ..self },
                PollActionView::ListWorkloads,
            ),
            (PollPhase::Listing, PollEventView::Listed(Ok(records))) => PollerView {
                containers: listed(records),
                workloads: Seq::empty(),
                ..self
            }.proceed(),
            (PollPhase::Listing, PollEventView::Listed(Err(e))) => self.sleep(Some(e)),
            (PollPhase::Fetching, PollEventView::Logs(frames)) => {
                if self.workloads.len() < self.containers.len() {
                    PollerView {
                        workloads: self.workloads.push(
                            WorkloadView {
                                container: self.containers[self.workloads.len() as int],
                                log_tail: frames,
                            },
                        ),
                        ..self
                    }.proceed()
                } else {
                    self.sleep(None)
                }
            },
            _ => self.sleep(None),
        }
    }
}

/// The workloads that containers and their log outputs make: the first
/// container with the first output, and so on.
pub open spec fn assembled(
    containers: Seq<ContainerView>,
    outputs: Seq<Seq<LogOutputView>>,
) -> Seq<WorkloadView>
    recommends
        outputs.len() == containers.len(),
{
    Seq::new(
        containers.len(),
        |i: int| WorkloadView { container: containers[i], log_tail: outputs[i] },
    )
}

/// Where the poller stands, and what it asks for, after it has been handed
/// these log outputs one after the other.
pub open spec fn fed(start: PollerView, outputs: Seq<Seq<LogOutputView>>) -> (
    PollerView,
    PollActionView,
)
    recommends
        outputs.len() > 0,
    decreases outputs.len(),
{
    let (next, action) = start.step(PollEventView::Logs(outputs[0]));
    if outputs.len() <= 1 {
        (next, action)
    } else {
        fed(next, outputs.drop_first())
    }
}

/// A poller that has the first `k` workloads of a cycle together and is
/// handed the remaining log outputs ends by publishing them all.
proof fn lemma_fed(
    start: PollerView,
    rest: Seq<Seq<LogOutputView>>,
    outputs: Seq<Seq<LogOutputView>>,
    k: int,
)
    requires
        start.phase is Fetching,
        0 <= k < start.containers.len(),
        outputs.len() == start.containers.len(),
        rest == outputs.skip(k),
        start.workloads == assembled(start.containers, outputs).take(k),
    ensures
        fed(start, rest) == (
            PollerView {
                phase: PollPhase::Publishing,
                containers: Seq::empty(),
                workloads: Seq::empty(),
                ..start
            },
            PollActionView::Publish(assembled(start.containers, outputs)),
        ),
    decreases rest.len(),
{
    let whole = assembled(start.containers, outputs);
    let grown = PollerView {
        workloads: start.workloads.push(
            WorkloadView { container: start.containers[k], log_tail: rest[0] },
        ),
        ..start
    };
    assert(grown.workloads =~= whole.take(k + 1));
    if k + 1 < start.containers.len() {
        assert(rest.drop_first() =~= outputs.skip(k + 1));
        lemma_fed(grown.proceed().0, rest.drop_first(), outputs, k + 1);
    } else {
        assert(whole.take(k + 1) =~= whole);
    }
}

/// A cycle publishes what it was told. From a listing and, for each of its
/// containers in turn, the container's log output, the poller puts together
/// one workload per container, in the listing's order, and asks for exactly
/// these to be published: nothing of an earlier cycle is among them. It
/// asks for the first container's log output first.
pub proof fn law_cycle_publishes_the_listing(
    start: PollerView,
    records: Seq<ContainerSummaryView>,
    outputs: Seq<Seq<LogOutputView>>,
)
    requires
        start.phase is Listing,
        outputs.len() == listed(records).len(),
    ensures
        listed(records).len() == 0 ==> start.step(PollEventView::Listed(Ok(records))).1
            == PollActionView::Publish(Seq::empty()),
        listed(records).len() > 0 ==> start.step(PollEventView::Listed(Ok(records))).1 == (
        PollActionView::FetchLogs { id: listed(records)[0].id, tail: start.tail }) && fed(
            start.step(PollEventView::Listed(Ok(records))).0,
            outputs,
        ).1 == PollActionView::Publish(assembled(listed(records), outputs)),
{
    if listed(records).len() > 0 {
        let first = start.step(PollEventView::Listed(Ok(records))).0;
        assert(outputs.skip(0) =~= outputs);
        assert(first.workloads =~= assembled(first.containers, outputs).take(0));
        lemma_fed(first, outputs, outputs, 0);
    }
}

/// The state of the polling loop.
#[derive(Debug)]
pub struct Poller {
    interval: u64,
    tail: u64,
    phase: PollPhase,
    containers: Vec<Container>,
    workloads: Vec<Workload>,
}

impl View for Poller {
    type V = PollerView;

    closed spec fn view(&self) -> PollerView {
        PollerView {
            interval: self.interval,
            tail: self.tail,
            phase: self.phase,
            containers: self.containers.deep_view(),
            workloads: self.workloads.deep_view(),
        }
    }
}

impl Poller {
    /// A poller between cycles that pauses `interval` seconds and asks for
    /// `tail` lines of log output.
    pub fn new(interval: u64, tail: u64) -> (poller: Poller)
        ensures
            poller@ == (PollerView {
                interval,
                tail,
                phase: PollPhase::Idle,
                containers: Seq::empty(),
                workloads: Seq::empty(),
            }),
    {
        let poller = Poller {
            interval,
            tail,
            phase: PollPhase::Idle,
            containers: Vec::new(),
            workloads: Vec::new(),
        };
        proof {
            assert(poller@.containers =~= Seq::empty());
            assert(poller@.workloads =~= Seq::empty());
        }
        poller
    }

    /// Where in its cycle the poller stands.
    pub fn phase(&self) -> (phase: PollPhase)
        ensures
            phase == self@.phase,
    {
        self.phase
    }

    /// Ends the cycle and pauses.
    fn sleep(&mut self, failure: Option<SourceError>) -> (action: PollAction)
        ensures
            (final(self)@, action@) == old(self)@.sleep(failure),
    {
        self.phase = PollPhase::Idle;
        self.containers = Vec::new();
        self.workloads = Vec::new();
        proof {
            assert(self@.containers =~= Seq::empty());
            assert(self@.workloads =~= Seq::empty());
        }
        PollAction::Sleep { seconds: self.interval, failure }
    }

    /// Asks for the next container's log output, or hands the workloads over.
    fn proceed(&mut self) -> (action: PollAction)
        ensures
            (final(self)@, action@) == old(self)@.proceed(),
    {
        if self.workloads.len() < self.containers.len() {
            self.phase = PollPhase::Fetching;
            PollAction::FetchLogs {
                id: self.containers[self.workloads.len()].id.clone(),
                tail: self.tail,
            }
        } else {
            let mut workloads: Vec<Workload> = Vec::new();
            std::mem::swap(&mut self.workloads, &mut workloads);
            self.phase = PollPhase::Publishing;
            self.containers = Vec::new();
            proof {
                assert(self@.containers =~= Seq::empty());
                assert(self@.workloads =~= Seq::empty());
            }
            PollAction::Publish(workloads)
        }
    }

    /// Takes the outcome of the last action and says what to do next.
    pub fn step(&mut self, event: PollEvent) -> (action: PollAction)
        ensures
            (final(self)@, action@) == old(self)@.step(event@),
    {
        match (self.phase, event) {
            (PollPhase::Idle, PollEvent::Wake) => {
                self.phase = PollPhase::Listing;
                PollAction::ListWorkloads
            },
            (PollPhase::Listing, PollEvent::Listed(Ok(records))) => {
                self.containers = containers(&records);
                self.workloads = Vec::new();
                proof {
                    assert(self@.workloads =~= Seq::empty());
                }
                self.proceed()
            },
            (PollPhase::Listing, PollEvent::Listed(Err(e))) => self.sleep(Some(e)),
            (PollPhase::Fetching, PollEvent::Logs(frames)) => {
                if self.workloads.len() < self.containers.len() {
                    let ghost before = self.workloads@;
                    let workload = Workload {
                        container: self.containers[self.workloads.len()].clone(),
                        log_tail: frames,
                    };
                    let ghost added = workload;
                    self.workloads.push(workload);
                    proof {
                        lemma_values_push(before, added);
                    }
                    self.proceed()
                } else {
                    self.sleep(None)
                }
            },
            _ => self.sleep(None),
        }
    }
}

} // verus!
